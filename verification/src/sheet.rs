//! A rectangular block of cells taken from a worksheet, placed at an
//! absolute (row, column) position, and the reading of numbers written
//! as text.
use vstd::prelude::*;

use crate::models::{Cell, CellView};
use crate::text::{
    char_utf8_width, chars_of, string_from_chars, trim, trim_chars, utf8_len, utf8_width,
};

verus! {

/// A block of cells whose top-left cell stands at (`first_row`,
/// `first_col`); every row has the same number of cells.
pub struct Sheet<Q> {
    pub first_row: u32,
    pub first_col: u32,
    pub rows: Vec<Vec<Cell<Q>>>,
}

pub struct SheetView<Q> {
    pub first_row: int,
    pub first_col: int,
    pub rows: Seq<Seq<CellView<Q>>>,
}

pub open spec fn row_view<Q>(r: Vec<Cell<Q>>) -> Seq<CellView<Q>> {
    r@.map_values(|c: Cell<Q>| c@)
}

impl<Q> View for Sheet<Q> {
    type V = SheetView<Q>;

    open spec fn view(&self) -> SheetView<Q> {
        SheetView {
            first_row: self.first_row as int,
            first_col: self.first_col as int,
            rows: self.rows@.map_values(|r: Vec<Cell<Q>>| row_view(r)),
        }
    }
}

pub open spec fn empty_cell<Q>() -> CellView<Q> {
    CellView { text: None, number: None }
}

pub open spec fn sheet_height<Q>(v: SheetView<Q>) -> int {
    v.rows.len() as int
}

pub open spec fn sheet_width<Q>(v: SheetView<Q>) -> int {
    if v.rows.len() == 0 {
        0
    } else {
        v.rows[0].len() as int
    }
}

/// The block is rectangular and not degenerate, its cells have positions
/// that fit in `u32` with room for one more row and column, and the header
/// scores of a row (at most seven per cell) fit in `i32`.
pub open spec fn sheet_wf<Q>(v: SheetView<Q>) -> bool {
    &&& 0 <= v.first_row
    &&& 0 <= v.first_col
    &&& v.rows.len() > 0 ==> v.rows[0].len() > 0
    &&& forall|i: int| 0 <= i < v.rows.len() ==> (#[trigger] v.rows[i]).len() == sheet_width(v)
    &&& v.first_row + sheet_height(v) <= u32::MAX
    &&& v.first_col + sheet_width(v) <= u32::MAX
    &&& 7 * sheet_width(v) <= i32::MAX
}

/// The cell at absolute position (`r`, `c`), if the block covers it.
pub open spec fn value_at<Q>(v: SheetView<Q>, r: int, c: int) -> Option<CellView<Q>> {
    if v.first_row <= r < v.first_row + sheet_height(v) && v.first_col <= c < v.first_col
        + sheet_width(v) {
        Some(v.rows[r - v.first_row][c - v.first_col])
    } else {
        None
    }
}

/// The block that parsing works on after skipping `skip` rows: with no
/// rows skipped, the block itself; otherwise the block from absolute
/// position (`skip`, 0) to (height - 1, width - 1), each cell copied from
/// that absolute position of `v` where `v` covers it and empty elsewhere.
pub open spec fn effective_view<Q>(v: SheetView<Q>, skip: int) -> SheetView<Q> {
    if skip == 0 {
        v
    } else if sheet_height(v) == 0 {
        SheetView { first_row: 0, first_col: 0, rows: seq![] }
    } else {
        SheetView {
            first_row: skip,
            first_col: 0,
            rows: Seq::new(
                (sheet_height(v) - skip) as nat,
                |r: int|
                    Seq::new(
                        sheet_width(v) as nat,
                        |c: int|
                            match value_at(v, skip + r, c) {
                                Some(x) => x,
                                None => empty_cell(),
                            },
                    ),
            ),
        }
    }
}

/// Skipping `skip` rows needs `skip` below the height of a non-empty block.
pub open spec fn skip_allowed<Q>(v: SheetView<Q>, skip: int) -> bool {
    skip == 0 || sheet_height(v) == 0 || skip < sheet_height(v)
}

impl<Q: Copy> Sheet<Q> {
    pub fn height(&self) -> (h: usize)
        ensures
            h == sheet_height(self@),
    {
        self.rows.len()
    }

    pub fn width(&self) -> (w: usize)
        ensures
            w == sheet_width(self@),
    {
        if self.rows.len() == 0 {
            0
        } else {
            self.rows[0].len()
        }
    }

    /// Does the block satisfy `sheet_wf`?
    pub fn is_well_formed(&self) -> (r: bool)
        ensures
            r == sheet_wf(self@),
    {
        let h = self.rows.len();
        if h == 0 {
            return (self.first_row as u64) <= u32::MAX as u64 && (self.first_col as u64)
                <= u32::MAX as u64;
        }
        let w = self.rows[0].len();
        if w == 0 {
            return false;
        }
        let mut i: usize = 0;
        while i < h
            invariant
                i <= h,
                h == self.rows.len(),
                w == self.rows@[0].len(),
                forall|k: int| 0 <= k < i ==> (#[trigger] self.rows@[k]).len() == w,
            decreases h - i,
        {
            if self.rows[i].len() != w {
                assert(self@.rows[i as int].len() == self.rows@[i as int].len());
                return false;
            }
            i = i + 1;
        }
        assert forall|k: int| 0 <= k < self@.rows.len() implies (#[trigger] self@.rows[k]).len()
            == sheet_width(self@) by {
            assert(self@.rows[k].len() == self.rows@[k].len());
        }
        (h as u64) <= (u32::MAX - self.first_row) as u64 && (w as u64) <= (u32::MAX
            - self.first_col) as u64 && (w as u64) <= (i32::MAX as u64) / 7
    }

    /// The cell at absolute position (`r`, `c`), if the block covers it.
    pub fn value_at(&self, r: u32, c: u32) -> (x: Option<&Cell<Q>>)
        requires
            sheet_wf(self@),
        ensures
            match x {
                Some(cell) => value_at(self@, r as int, c as int) == Some(cell@),
                None => value_at(self@, r as int, c as int) is None,
            },
    {
        let h = self.rows.len();
        let w = self.width();
        if self.first_row <= r && (r as u64) < (self.first_row as u64) + (h as u64)
            && self.first_col <= c && (c as u64) < (self.first_col as u64) + (w as u64) {
            let i = (r - self.first_row) as usize;
            let j = (c - self.first_col) as usize;
            assert(self@.rows[i as int] == row_view(self.rows@[i as int]));
            Some(&self.rows[i][j])
        } else {
            None
        }
    }

    fn copy_row(row: &Vec<Cell<Q>>) -> (r: Vec<Cell<Q>>)
        ensures
            row_view(r) == row_view(*row),
    {
        let mut out: Vec<Cell<Q>> = Vec::new();
        let mut j: usize = 0;
        while j < row.len()
            invariant
                j <= row.len(),
                out@.len() == j,
                forall|k: int| 0 <= k < j ==> (#[trigger] out@[k])@ == row@[k]@,
            decreases row.len() - j,
        {
            out.push(row[j].copy());
            j = j + 1;
        }
        assert(row_view(out) =~= row_view(*row));
        out
    }

    /// The block that parsing works on after skipping `skip` rows.
    pub fn effective(&self, skip: usize) -> (r: Sheet<Q>)
        requires
            sheet_wf(self@),
            skip_allowed(self@, skip as int),
        ensures
            r@ == effective_view(self@, skip as int),
            sheet_wf(r@),
    {
        let h = self.rows.len();
        let w = self.width();
        if skip == 0 {
            let mut rows: Vec<Vec<Cell<Q>>> = Vec::new();
            let mut i: usize = 0;
            while i < h
                invariant
                    i <= h,
                    h == self.rows.len(),
                    rows@.len() == i,
                    forall|k: int| 0 <= k < i ==> row_view(#[trigger] rows@[k]) == row_view(
                        self.rows@[k],
                    ),
                decreases h - i,
            {
                rows.push(Self::copy_row(&self.rows[i]));
                i = i + 1;
            }
            let r = Sheet { first_row: self.first_row, first_col: self.first_col, rows };
            assert(r@.rows =~= self@.rows);
            return r;
        }
        if h == 0 {
            let r = Sheet { first_row: 0, first_col: 0, rows: Vec::new() };
            assert(r@.rows =~= Seq::<Seq<CellView<Q>>>::empty());
            return r;
        }
        let ghost target = effective_view(self@, skip as int);
        let mut rows: Vec<Vec<Cell<Q>>> = Vec::new();
        let mut i: usize = 0;
        while i < h - skip
            invariant
                0 < skip < h,
                h == sheet_height(self@),
                w == sheet_width(self@),
                sheet_wf(self@),
                i <= h - skip,
                rows@.len() == i,
                target == effective_view(self@, skip as int),
                forall|k: int| 0 <= k < i ==> row_view(#[trigger] rows@[k]) == target.rows[k],
            decreases h - skip - i,
        {
            let mut row: Vec<Cell<Q>> = Vec::new();
            let mut j: usize = 0;
            while j < w
                invariant
                    0 < skip < h,
                    h == sheet_height(self@),
                    w == sheet_width(self@),
                    sheet_wf(self@),
                    i < h - skip,
                    j <= w,
                    row@.len() == j,
                    target == effective_view(self@, skip as int),
                    forall|k: int| 0 <= k < j ==> (#[trigger] row@[k])@ == target.rows[i as int][k],
                decreases w - j,
            {
                let r = (skip + i) as u32;
                let c = j as u32;
                assert(r as int == skip + i && c as int == j);
                let cell = match self.value_at(r, c) {
                    Some(x) => x.copy(),
                    None => Cell::empty(),
                };
                assert(target.rows[i as int][j as int] == match value_at(
                    self@,
                    skip + i,
                    j as int,
                ) {
                    Some(x) => x,
                    None => empty_cell(),
                });
                assert(cell@ == target.rows[i as int][j as int]);
                row.push(cell);
                j = j + 1;
            }
            assert(row_view(row) =~= target.rows[i as int]);
            rows.push(row);
            i = i + 1;
        }
        let r = Sheet { first_row: skip as u32, first_col: 0, rows };
        assert(r@.rows =~= target.rows);
        r
    }
}

/// `s` without the character `c`.
pub open spec fn without_char(s: Seq<char>, c: char) -> Seq<char>
    decreases s.len(),
{
    if s.len() == 0 {
        seq![]
    } else if s.last() == c {
        without_char(s.drop_last(), c)
    } else {
        without_char(s.drop_last(), c).push(s.last())
    }
}

/// `s` with every `a` replaced by `b`.
pub open spec fn replace_char(s: Seq<char>, a: char, b: char) -> Seq<char> {
    s.map_values(|x: char| if x == a { b } else { x })
}

/// `s` holds exactly one comma, followed by text of three UTF-8 bytes: a
/// thousands separator, as in "1,000".
pub open spec fn single_thousands_comma(s: Seq<char>) -> bool {
    exists|k: int|
        0 <= k < s.len() && #[trigger] s[k] == ',' && (forall|m: int|
            0 <= m < s.len() && m != k ==> s[m] != ',') && utf8_len(s.subrange(k + 1, s.len() as int))
            == 3
}

/// Some '.' comes after the last ',' of `s`.
pub open spec fn dot_after_last_comma(s: Seq<char>) -> bool {
    exists|k: int| 0 <= k < s.len() && #[trigger] s[k] == '.' && forall|m: int| k < m < s.len() ==> s[m] != ','
}

/// The text to read as a number from a cell's text, after the separator
/// conventions are settled: with both ',' and '.', the one that comes last
/// marks the decimals and the other separates thousands, so "1.234.567,89"
/// and "1,234,567.89" both read as 1234567.89; with a comma alone, it
/// separates thousands when it is the only one and three bytes follow it,
/// and marks the decimals otherwise. `None` for blank text.
pub open spec fn decimal_text_of(s: Seq<char>) -> Option<Seq<char>> {
    let t = trim(s);
    if t.len() == 0 {
        None
    } else if t.contains(',') && t.contains('.') {
        if dot_after_last_comma(t) {
            Some(without_char(t, ','))
        } else {
            Some(replace_char(without_char(t, '.'), ',', '.'))
        }
    } else if t.contains(',') {
        if single_thousands_comma(t) {
            Some(without_char(t, ','))
        } else {
            Some(replace_char(t, ',', '.'))
        }
    } else {
        Some(t)
    }
}

/// Does the last separator (',' or '.') of `s` come as a '.'?
fn last_separator_is_dot(s: &Vec<char>) -> (r: bool)
    requires
        s@.contains(','),
    ensures
        r == dot_after_last_comma(s@),
{
    let mut i: usize = s.len();
    while i > 0 && s[i - 1] != ',' && s[i - 1] != '.'
        invariant
            i <= s.len(),
            forall|m: int| i <= m < s.len() ==> s@[m] != ',' && s@[m] != '.',
        decreases i,
    {
        i = i - 1;
    }
    proof {
        if i == 0 {
            let w = choose|w: int| 0 <= w < s@.len() && s@[w] == ',';
            assert(s@[w] != ',');
        }
    }
    let r = s[i - 1] == '.';
    proof {
        if !r && dot_after_last_comma(s@) {
            let k = choose|k: int| 0 <= k < s@.len() && #[trigger] s@[k] == '.' && forall|m: int| k < m < s@.len() ==> s@[m] != ',';
            if k < i - 1 {
                assert(s@[i - 1] != ',');
            }
        }
    }
    r
}

fn has_char(s: &Vec<char>, c: char) -> (r: bool)
    ensures
        r == s@.contains(c),
{
    let mut i: usize = 0;
    while i < s.len()
        invariant
            i <= s.len(),
            forall|k: int| 0 <= k < i ==> s@[k] != c,
        decreases s.len() - i,
    {
        if s[i] == c {
            return true;
        }
        i = i + 1;
    }
    false
}

fn remove_char(s: &Vec<char>, c: char) -> (r: Vec<char>)
    ensures
        r@ == without_char(s@, c),
{
    let mut out: Vec<char> = Vec::new();
    let mut i: usize = 0;
    while i < s.len()
        invariant
            i <= s.len(),
            out@ == without_char(s@.take(i as int), c),
        decreases s.len() - i,
    {
        assert(s@.take(i + 1).drop_last() =~= s@.take(i as int));
        if s[i] != c {
            out.push(s[i]);
        }
        i = i + 1;
    }
    assert(s@.take(i as int) =~= s@);
    out
}

fn swap_char(s: &Vec<char>, a: char, b: char) -> (r: Vec<char>)
    ensures
        r@ == replace_char(s@, a, b),
{
    let mut out: Vec<char> = Vec::new();
    let mut i: usize = 0;
    while i < s.len()
        invariant
            i <= s.len(),
            out@ == replace_char(s@.take(i as int), a, b),
        decreases s.len() - i,
    {
        if s[i] == a {
            out.push(b);
        } else {
            out.push(s[i]);
        }
        i = i + 1;
        assert(out@ =~= replace_char(s@.take(i as int), a, b));
    }
    assert(s@.take(i as int) =~= s@);
    out
}

proof fn lemma_utf8_len_push(s: Seq<char>, c: char)
    ensures
        utf8_len(s.push(c)) == utf8_len(s) + utf8_width(c),
    decreases s.len(),
{
    let t = s.push(c);
    assert(utf8_len(t) == utf8_width(t[0]) + utf8_len(t.drop_first()));
    if s.len() > 0 {
        lemma_utf8_len_push(s.drop_first(), c);
        assert(t.drop_first() =~= s.drop_first().push(c));
        assert(t[0] == s[0]);
    } else {
        assert(t.drop_first() =~= Seq::<char>::empty());
        assert(utf8_len(Seq::<char>::empty()) == 0);
    }
}

fn is_single_thousands_comma(t: &Vec<char>) -> (r: bool)
    ensures
        r == single_thousands_comma(t@),
{
    let mut k: usize = 0;
    while k < t.len() && t[k] != ','
        invariant
            k <= t.len(),
            forall|m: int| 0 <= m < k ==> t@[m] != ',',
        decreases t.len() - k,
    {
        k = k + 1;
    }
    if k == t.len() {
        return false;
    }
    let mut i = k + 1;
    let mut bytes: usize = 0;
    while i < t.len()
        invariant
            k < i <= t.len(),
            t@[k as int] == ',',
            forall|m: int| 0 <= m < k ==> t@[m] != ',',
            forall|m: int| k < m < i ==> t@[m] != ',',
            bytes == if utf8_len(t@.subrange(k + 1, i as int)) >= 4 {
                4
            } else {
                utf8_len(t@.subrange(k + 1, i as int))
            },
        decreases t.len() - i,
    {
        if t[i] == ',' {
            assert(!single_thousands_comma(t@)) by {
                if single_thousands_comma(t@) {
                    let w = choose|w: int|
                        0 <= w < t@.len() && #[trigger] t@[w] == ',' && (forall|m: int|
                            0 <= m < t@.len() && m != w ==> t@[m] != ',') && utf8_len(
                            t@.subrange(w + 1, t@.len() as int),
                        ) == 3;
                    if w == k {
                        assert(t@[i as int] != ',');
                    } else {
                        assert(t@[k as int] != ',');
                    }
                }
            }
            return false;
        }
        proof {
            lemma_utf8_len_push(t@.subrange(k + 1, i as int), t@[i as int]);
            assert(t@.subrange(k + 1, i as int).push(t@[i as int]) =~= t@.subrange(
                k + 1,
                i + 1,
            ));
        }
        if bytes < 4 {
            bytes = bytes + char_utf8_width(t[i]);
            if bytes > 4 {
                bytes = 4;
            }
        }
        i = i + 1;
    }
    proof {
        if bytes != 3 && single_thousands_comma(t@) {
            let w = choose|w: int|
                0 <= w < t@.len() && #[trigger] t@[w] == ',' && (forall|m: int|
                    0 <= m < t@.len() && m != w ==> t@[m] != ',') && utf8_len(
                    t@.subrange(w + 1, t@.len() as int),
                ) == 3;
            if w != k {
                assert(t@[k as int] != ',');
            }
        }
    }
    bytes == 3
}

/// The text to read as a number from a cell's text (see `decimal_text_of`).
pub fn decimal_text(s: &str) -> (r: Option<String>)
    ensures
        crate::models::text_view(r) == decimal_text_of(s@),
{
    let t = trim_chars(&chars_of(s));
    if t.len() == 0 {
        return None;
    }
    let comma = has_char(&t, ',');
    let dot = has_char(&t, '.');
    let cleaned = if comma && dot {
        if last_separator_is_dot(&t) {
            remove_char(&t, ',')
        } else {
            swap_char(&remove_char(&t, '.'), ',', '.')
        }
    } else if comma {
        if is_single_thousands_comma(&t) {
            remove_char(&t, ',')
        } else {
            swap_char(&t, ',', '.')
        }
    } else {
        t
    };
    Some(string_from_chars(&cleaned))
}

} // verus!
