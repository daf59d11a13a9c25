//! Decisions of the metadata cache: which columns an older database lacks.
use vstd::prelude::*;

use crate::text::{chars_equal, chars_of};

verus! {

/// The required columns that `existing` lacks, in the order required.
pub open spec fn missing_from(existing: Seq<Seq<char>>, required: Seq<Seq<char>>) -> Seq<Seq<char>>
    decreases required.len(),
{
    if required.len() == 0 {
        seq![]
    } else if existing.contains(required.last()) {
        missing_from(existing, required.drop_last())
    } else {
        missing_from(existing, required.drop_last()).push(required.last())
    }
}

fn has_name(existing: &Vec<String>, name: &str) -> (r: bool)
    ensures
        r == existing@.map_values(|s: String| s@).contains(name@),
{
    let ghost names = existing@.map_values(|s: String| s@);
    let target = chars_of(name);
    let mut i: usize = 0;
    while i < existing.len()
        invariant
            i <= existing.len(),
            names == existing@.map_values(|s: String| s@),
            target@ == name@,
            forall|k: int| 0 <= k < i ==> names[k] != name@,
        decreases existing.len() - i,
    {
        if chars_equal(&chars_of(existing[i].as_str()), &target) {
            assert(names[i as int] == name@);
            return true;
        }
        i = i + 1;
    }
    false
}

/// The columns of `required` that the table's `existing` columns lack, so
/// that they can be added to a database made by an older version.
pub fn missing_columns(existing: &Vec<String>, required: &Vec<&str>) -> (r: Vec<String>)
    ensures
        r@.map_values(|s: String| s@) == missing_from(
            existing@.map_values(|s: String| s@),
            required@.map_values(|s: &str| s@),
        ),
{
    let ghost names = existing@.map_values(|s: String| s@);
    let ghost wanted = required@.map_values(|s: &str| s@);
    let mut out: Vec<String> = Vec::new();
    let mut i: usize = 0;
    while i < required.len()
        invariant
            i <= required.len(),
            names == existing@.map_values(|s: String| s@),
            wanted == required@.map_values(|s: &str| s@),
            out@.map_values(|s: String| s@) == missing_from(names, wanted.take(i as int)),
        decreases required.len() - i,
    {
        assert(wanted.take(i + 1).drop_last() =~= wanted.take(i as int));
        assert(wanted.take(i + 1).last() == required@[i as int]@);
        if !has_name(existing, required[i]) {
            let ghost before = out@.map_values(|s: String| s@);
            out.push(required[i].to_owned());
            assert(out@.map_values(|s: String| s@) =~= before.push(required@[i as int]@));
        }
        i = i + 1;
    }
    assert(wanted.take(i as int) =~= wanted);
    out
}

} // verus!
