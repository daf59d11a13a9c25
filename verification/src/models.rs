//! The domain types: cells and quantities read from a sheet, column
//! mappings, extracted records, per-file analyses and file states.
use vstd::prelude::*;

use crate::text::{chars_equal, chars_of};

verus! {

/// A map from text keys to text values, kept as a list of pairs in which no
/// key occurs twice.
pub struct TextMap {
    entries: Vec<(String, String)>,
}

/// The map that a list of pairs describes, later pairs overriding earlier
/// ones.
pub open spec fn pairs_map(s: Seq<(String, String)>) -> Map<Seq<char>, Seq<char>>
    decreases s.len(),
{
    if s.len() == 0 {
        Map::empty()
    } else {
        pairs_map(s.drop_last()).insert(s.last().0@, s.last().1@)
    }
}

pub open spec fn keys_distinct(s: Seq<(String, String)>) -> bool {
    forall|i: int, j: int| 0 <= i < j < s.len() ==> (#[trigger] s[i]).0@ != (#[trigger] s[j]).0@
}

proof fn lemma_pairs_map_absent(s: Seq<(String, String)>, k: Seq<char>)
    requires
        forall|i: int| 0 <= i < s.len() ==> (#[trigger] s[i]).0@ != k,
    ensures
        !pairs_map(s).dom().contains(k),
    decreases s.len(),
{
    if s.len() > 0 {
        lemma_pairs_map_absent(s.drop_last(), k);
    }
}

proof fn lemma_pairs_map_update(s: Seq<(String, String)>, i: int, p: (String, String))
    requires
        keys_distinct(s),
        0 <= i < s.len(),
        s[i].0@ == p.0@,
    ensures
        pairs_map(s.update(i, p)) == pairs_map(s).insert(p.0@, p.1@),
        keys_distinct(s.update(i, p)),
    decreases s.len(),
{
    let t = s.update(i, p);
    if i == s.len() - 1 {
        assert(t.drop_last() =~= s.drop_last());
        assert forall|k: int| 0 <= k < s.len() - 1 implies (#[trigger] s.drop_last()[k]).0@
            != p.0@ by {
            assert(s[k].0@ != s[i].0@);
        }
        lemma_pairs_map_absent(s.drop_last(), p.0@);
        assert(pairs_map(t) =~= pairs_map(s).insert(p.0@, p.1@));
    } else {
        lemma_pairs_map_update(s.drop_last(), i, p);
        assert(t.drop_last() =~= s.drop_last().update(i, p));
        assert(s.last().0@ != p.0@) by {
            assert(s[s.len() - 1].0@ != s[i].0@);
        }
        assert(pairs_map(t) =~= pairs_map(s).insert(p.0@, p.1@));
    }
}

fn copy_pairs(v: &Vec<(String, String)>) -> (r: Vec<(String, String)>)
    ensures
        r@ == v@,
{
    let mut out: Vec<(String, String)> = Vec::new();
    let mut i: usize = 0;
    while i < v.len()
        invariant
            i <= v.len(),
            out@ == v@.take(i as int),
        decreases v.len() - i,
    {
        let k = v[i].0.clone();
        let x = v[i].1.clone();
        out.push((k, x));
        i = i + 1;
        assert(out@ =~= v@.take(i as int));
    }
    assert(v@.take(i as int) =~= v@);
    out
}

impl TextMap {
    #[verifier::type_invariant]
    spec fn distinct(self) -> bool {
        keys_distinct(self.entries@)
    }

    pub closed spec fn view(&self) -> Map<Seq<char>, Seq<char>> {
        pairs_map(self.entries@)
    }

    pub fn new() -> (m: TextMap)
        ensures
            m@ == Map::<Seq<char>, Seq<char>>::empty(),
    {
        TextMap { entries: Vec::new() }
    }

    /// Sets the value of `key`, replacing any earlier value.
    pub fn insert(&mut self, key: String, value: String)
        ensures
            final(self)@ == old(self)@.insert(key@, value@),
    {
        proof {
            use_type_invariant(&*self);
        }
        let mut i: usize = 0;
        while i < self.entries.len()
            invariant
                i <= self.entries.len(),
                self.entries@ == old(self).entries@,
                keys_distinct(self.entries@),
                forall|m: int| 0 <= m < i ==> (#[trigger] self.entries@[m]).0@ != key@,
            decreases self.entries.len() - i,
        {
            if self.entries[i].0 == key {
                proof {
                    lemma_pairs_map_update(self.entries@, i as int, (key, value));
                }
                let mut updated = copy_pairs(&self.entries);
                updated.set(i, (key, value));
                self.entries = updated;
                return ;
            }
            i = i + 1;
        }
        proof {
            lemma_pairs_map_absent(self.entries@, key@);
        }
        let ghost before = self.entries@;
        let mut grown = copy_pairs(&self.entries);
        grown.push((key, value));
        assert(grown@.drop_last() =~= before);
        self.entries = grown;
    }

    /// Adds every pair of `other`, its values overriding those of `self`.
    pub fn extend(&mut self, other: &TextMap)
        ensures
            final(self)@ == old(self)@.union_prefer_right(other@),
    {
        proof {
            use_type_invariant(other);
        }
        let mut i: usize = 0;
        while i < other.entries.len()
            invariant
                i <= other.entries.len(),
                self@ == old(self)@.union_prefer_right(pairs_map(other.entries@.take(i as int))),
            decreases other.entries.len() - i,
        {
            let k = other.entries[i].0.clone();
            let v = other.entries[i].1.clone();
            self.insert(k, v);
            assert(other.entries@.take(i + 1).drop_last() =~= other.entries@.take(i as int));
            i = i + 1;
            assert(self@ =~= old(self)@.union_prefer_right(pairs_map(other.entries@.take(i as int))));
        }
        assert(other.entries@.take(i as int) =~= other.entries@);
    }

    /// The map holding the given pairs, later pairs overriding earlier ones.
    pub fn from_pairs(pairs: Vec<(String, String)>) -> (m: TextMap)
        ensures
            m@ == pairs_map(pairs@),
    {
        let mut m = TextMap::new();
        let mut i: usize = 0;
        while i < pairs.len()
            invariant
                i <= pairs.len(),
                m@ == pairs_map(pairs@.take(i as int)),
            decreases pairs.len() - i,
        {
            let k = pairs[i].0.clone();
            let v = pairs[i].1.clone();
            m.insert(k, v);
            assert(pairs@.take(i + 1).drop_last() =~= pairs@.take(i as int));
            i = i + 1;
        }
        assert(pairs@.take(i as int) =~= pairs@);
        m
    }

    /// The pairs of the map; no key occurs twice among them.
    pub fn pairs(&self) -> (r: &Vec<(String, String)>)
        ensures
            pairs_map(r@) == self@,
            keys_distinct(r@),
    {
        proof {
            use_type_invariant(self);
        }
        &self.entries
    }

    /// A copy of the map.
    pub fn duplicate(&self) -> (r: TextMap)
        ensures
            r@ == self@,
    {
        proof {
            use_type_invariant(self);
        }
        TextMap { entries: copy_pairs(&self.entries) }
    }
}

/// A number read from a cell. The value itself is opaque to this library;
/// what the parsing rules need of it travels beside it: whether its
/// magnitude is below one thousandth, and whether it is above zero.
#[derive(Clone, Copy, Debug)]
pub struct Quantity<Q> {
    pub value: Q,
    pub near_zero: bool,
    pub positive: bool,
}

/// A sheet cell, as the parsing rules read it: its text, if it has one, and
/// the number it holds or spells, if any.
pub struct Cell<Q> {
    pub text: Option<String>,
    pub number: Option<Quantity<Q>>,
}

pub struct CellView<Q> {
    pub text: Option<Seq<char>>,
    pub number: Option<Quantity<Q>>,
}

pub open spec fn text_view(t: Option<String>) -> Option<Seq<char>> {
    match t {
        Some(s) => Some(s@),
        None => None,
    }
}

impl<Q> View for Cell<Q> {
    type V = CellView<Q>;

    open spec fn view(&self) -> CellView<Q> {
        CellView { text: text_view(self.text), number: self.number }
    }
}

impl<Q: Copy> Cell<Q> {
    /// A cell holding nothing.
    pub fn empty() -> (c: Cell<Q>)
        ensures
            c@.text is None,
            c@.number is None,
    {
        Cell { text: None, number: None }
    }

    pub fn copy(&self) -> (c: Cell<Q>)
        ensures
            c@ == self@,
    {
        let text = match &self.text {
            Some(s) => Some(s.clone()),
            None => None,
        };
        Cell { text, number: self.number }
    }
}

/// Which columns of a table hold the item number, the item name, the unit
/// and the quantity, with the header texts by which they were recognised.
pub struct ColumnMapping {
    pub stt: Option<usize>,
    pub name: Option<usize>,
    pub unit: Option<usize>,
    pub qty: Option<usize>,
    pub detected_names: TextMap,
}

pub struct MappingView {
    pub stt: Option<usize>,
    pub name: Option<usize>,
    pub unit: Option<usize>,
    pub qty: Option<usize>,
    pub detected_names: Map<Seq<char>, Seq<char>>,
}

impl View for ColumnMapping {
    type V = MappingView;

    open spec fn view(&self) -> MappingView {
        MappingView {
            stt: self.stt,
            name: self.name,
            unit: self.unit,
            qty: self.qty,
            detected_names: self.detected_names@,
        }
    }
}

impl ColumnMapping {
    /// A mapping that names no column.
    pub fn new() -> (m: ColumnMapping)
        ensures
            m@.stt is None,
            m@.name is None,
            m@.unit is None,
            m@.qty is None,
            m@.detected_names == Map::<Seq<char>, Seq<char>>::empty(),
    {
        ColumnMapping { stt: None, name: None, unit: None, qty: None, detected_names: TextMap::new() }
    }

    pub fn duplicate(&self) -> (m: ColumnMapping)
        ensures
            m@ == self@,
    {
        ColumnMapping {
            stt: self.stt,
            name: self.name,
            unit: self.unit,
            qty: self.qty,
            detected_names: self.detected_names.duplicate(),
        }
    }
}

/// One line item extracted from a sheet.
pub struct ExcelRecord<Q> {
    pub stt: String,
    pub ten_cong_viec: String,
    pub don_vi: String,
    /// `None` when the quantity cell held no number; it then counts as zero.
    pub khoi_luong: Option<Quantity<Q>>,
    pub source_file: String,
    pub source_sheet: String,
}

pub struct RecordView<Q> {
    pub stt: Seq<char>,
    pub ten_cong_viec: Seq<char>,
    pub don_vi: Seq<char>,
    pub khoi_luong: Option<Quantity<Q>>,
    pub source_file: Seq<char>,
    pub source_sheet: Seq<char>,
}

impl<Q> View for ExcelRecord<Q> {
    type V = RecordView<Q>;

    open spec fn view(&self) -> RecordView<Q> {
        RecordView {
            stt: self.stt@,
            ten_cong_viec: self.ten_cong_viec@,
            don_vi: self.don_vi@,
            khoi_luong: self.khoi_luong,
            source_file: self.source_file@,
            source_sheet: self.source_sheet@,
        }
    }
}

/// The quantity of a record is zero or of magnitude below one thousandth.
pub open spec fn record_near_zero<Q>(r: RecordView<Q>) -> bool {
    match r.khoi_luong {
        Some(q) => q.near_zero,
        None => true,
    }
}

/// Where a file stands in the consolidation.
#[derive(PartialEq, Eq, Structural, Clone, Copy, Debug)]
pub enum FileStatus {
    Pending,
    Processed,
    Failed,
    Skipped,
}

pub open spec fn status_label(s: FileStatus) -> Seq<char> {
    match s {
        FileStatus::Pending => "Pending"@,
        FileStatus::Processed => "Processed"@,
        FileStatus::Failed => "Failed"@,
        FileStatus::Skipped => "Skipped"@,
    }
}

/// The state that a stored label stands for; an unknown label stands for
/// `Pending`.
pub open spec fn status_from_label(l: Seq<char>) -> FileStatus {
    if l == "Processed"@ {
        FileStatus::Processed
    } else if l == "Failed"@ {
        FileStatus::Failed
    } else if l == "Skipped"@ {
        FileStatus::Skipped
    } else {
        FileStatus::Pending
    }
}

impl FileStatus {
    /// The label under which the state is stored.
    pub fn label(&self) -> (r: &'static str)
        ensures
            r@ == status_label(*self),
    {
        match self {
            FileStatus::Pending => "Pending",
            FileStatus::Processed => "Processed",
            FileStatus::Failed => "Failed",
            FileStatus::Skipped => "Skipped",
        }
    }

    /// The state that a stored label stands for.
    pub fn from_label(label: &str) -> (r: FileStatus)
        ensures
            r == status_from_label(label@),
    {
        let l = chars_of(label);
        if chars_equal(&l, &chars_of("Processed")) {
            FileStatus::Processed
        } else if chars_equal(&l, &chars_of("Failed")) {
            FileStatus::Failed
        } else if chars_equal(&l, &chars_of("Skipped")) {
            FileStatus::Skipped
        } else {
            FileStatus::Pending
        }
    }
}

/// Reading a stored label gives back the state that was stored.
pub proof fn law_status_label_round_trip(s: FileStatus)
    ensures
        status_from_label(status_label(s)) == s,
{
    reveal_strlit("Pending");
    reveal_strlit("Processed");
    reveal_strlit("Failed");
    reveal_strlit("Skipped");
    assert("Pending"@[1] != "Processed"@[1]);
    assert("Pending"@.len() != "Failed"@.len());
    assert("Pending"@.len() == "Skipped"@.len() && "Pending"@[0] != "Skipped"@[0]);
    assert("Failed"@.len() != "Processed"@.len());
    assert("Skipped"@.len() != "Processed"@.len());
    assert("Skipped"@.len() != "Failed"@.len());
}

/// What the parsing of a sheet or a file found. The confidence is counted in
/// sixths: 0 is none, 6 is full.
pub struct FileAnalysis {
    pub confidence_sixths: u8,
    pub is_deviant: bool,
    pub has_zero_data: bool,
    pub has_valid_data: bool,
    pub reason: String,
    pub header_row: Option<usize>,
    pub detected_columns: TextMap,
}

pub struct AnalysisView {
    pub confidence_sixths: u8,
    pub is_deviant: bool,
    pub has_zero_data: bool,
    pub has_valid_data: bool,
    pub reason: Seq<char>,
    pub header_row: Option<usize>,
    pub detected_columns: Map<Seq<char>, Seq<char>>,
}

impl View for FileAnalysis {
    type V = AnalysisView;

    open spec fn view(&self) -> AnalysisView {
        AnalysisView {
            confidence_sixths: self.confidence_sixths,
            is_deviant: self.is_deviant,
            has_zero_data: self.has_zero_data,
            has_valid_data: self.has_valid_data,
            reason: self.reason@,
            header_row: self.header_row,
            detected_columns: self.detected_columns@,
        }
    }
}

} // verus!
