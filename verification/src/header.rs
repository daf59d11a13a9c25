//! Header detection: finding the row that heads a quantity table and, in
//! it, the columns of each table side by side.
//!
//! A row is scanned for "anchor" cells naming a quantity; for each anchor,
//! the seven cells to its left are searched for the item number, item name
//! and unit columns. Each anchor scores 3, plus 1 for an item-number
//! column, 2 for a name column and 1 for a unit column; when no name column
//! is found, the cell two to the left of the anchor stands for it (without
//! score), and an anchor with no name column at all is dropped. The header
//! is the first row of the block with the highest positive total.
use vstd::prelude::*;

use crate::models::{Cell, CellView, ColumnMapping, MappingView, TextMap};
use crate::normalization::{lowercase_form, lowercase_of};
use crate::parser::ExcelParser;
use crate::sheet::{row_view, sheet_wf, sheet_width, Sheet, SheetView};
use crate::text::{
    chars_of, contains_any, contains_any_chars, contains_seq, string_from_chars, trim, trim_chars,
};

verus! {

pub open spec fn stt_keywords() -> Seq<Seq<char>> {
    seq![
        "stt"@,
        "số tt"@,
        "số thứ tự"@,
        "no."@,
        "id"@,
        "item"@,
        "tt"@,
        "thứ tự"@,
        "mã số"@,
        "mã hiệu"@,
    ]
}

pub open spec fn qty_keywords() -> Seq<Seq<char>> {
    seq![
        "khối lượng"@,
        "khoi luong"@,
        "sl"@,
        "số lượng"@,
        "kl"@,
        "quyết toán"@,
        "qt"@,
        "khối lượng qt"@,
        "khối lượng thực hiện"@,
        "thanh toán"@,
        "kltt"@,
        "qty"@,
    ]
}

pub open spec fn name_keywords() -> Seq<Seq<char>> {
    seq![
        "hạng mục"@,
        "hang muc"@,
        "vật tư"@,
        "tên"@,
        "nội dung"@,
        "tên công việc"@,
        "diễn giải"@,
        "tên vật tư"@,
        "danh mục"@,
        "công tác"@,
        "vật liệu"@,
        "thiết bị"@,
    ]
}

pub open spec fn unit_keywords() -> Seq<Seq<char>> {
    seq!["đvt"@, "đơn vị"@, "don vi"@, "đơn vị tính"@, "vị tính"@]
}

pub open spec fn words_view(w: Vec<Vec<char>>) -> Seq<Seq<char>> {
    w@.map_values(|v: Vec<char>| v@)
}

fn char_lists(words: Vec<&str>) -> (r: Vec<Vec<char>>)
    ensures
        words_view(r) == words@.map_values(|s: &str| s@),
{
    let mut out: Vec<Vec<char>> = Vec::new();
    let mut i: usize = 0;
    while i < words.len()
        invariant
            i <= words.len(),
            out@.len() == i,
            forall|k: int| 0 <= k < i ==> (#[trigger] out@[k])@ == words@[k]@,
        decreases words.len() - i,
    {
        out.push(chars_of(words[i]));
        i = i + 1;
    }
    assert(words_view(out) =~= words@.map_values(|s: &str| s@));
    out
}

/// The keyword lists, as characters.
pub struct Keywords {
    pub stt: Vec<Vec<char>>,
    pub qty: Vec<Vec<char>>,
    pub name: Vec<Vec<char>>,
    pub unit: Vec<Vec<char>>,
}

impl Keywords {
    pub open spec fn wf(&self) -> bool {
        &&& words_view(self.stt) == stt_keywords()
        &&& words_view(self.qty) == qty_keywords()
        &&& words_view(self.name) == name_keywords()
        &&& words_view(self.unit) == unit_keywords()
    }

    pub fn new() -> (k: Keywords)
        ensures
            k.wf(),
    {
        let stt = char_lists(
            vec!["stt", "số tt", "số thứ tự", "no.", "id", "item", "tt", "thứ tự", "mã số", "mã hiệu"],
        );
        assert(words_view(stt) =~= stt_keywords());
        let qty = char_lists(
            vec![
                "khối lượng",
                "khoi luong",
                "sl",
                "số lượng",
                "kl",
                "quyết toán",
                "qt",
                "khối lượng qt",
                "khối lượng thực hiện",
                "thanh toán",
                "kltt",
                "qty",
            ],
        );
        assert(words_view(qty) =~= qty_keywords());
        let name = char_lists(
            vec![
                "hạng mục",
                "hang muc",
                "vật tư",
                "tên",
                "nội dung",
                "tên công việc",
                "diễn giải",
                "tên vật tư",
                "danh mục",
                "công tác",
                "vật liệu",
                "thiết bị",
            ],
        );
        assert(words_view(name) =~= name_keywords());
        let unit = char_lists(vec!["đvt", "đơn vị", "don vi", "đơn vị tính", "vị tính"]);
        assert(words_view(unit) =~= unit_keywords());
        Keywords { stt, qty, name, unit }
    }
}

/// The text of a cell, or the empty text.
pub open spec fn text_or_empty<Q>(c: CellView<Q>) -> Seq<char> {
    match c.text {
        Some(t) => t,
        None => seq![],
    }
}

/// The text of a cell as header matching sees it: lower case, trimmed.
pub open spec fn cell_key<Q>(c: CellView<Q>) -> Seq<char> {
    trim(lowercase_form(text_or_empty(c)))
}

pub fn cell_text<Q: Copy>(c: &Cell<Q>) -> (r: String)
    ensures
        r@ == text_or_empty(c@),
{
    match &c.text {
        Some(t) => t.clone(),
        None => String::new(),
    }
}

pub fn cell_key_chars<Q: Copy>(c: &Cell<Q>) -> (r: Vec<char>)
    ensures
        r@ == cell_key(c@),
{
    let t = cell_text(c);
    let low = lowercase_of(t.as_str());
    trim_chars(&chars_of(low.as_str()))
}

/// The keys of the cells of a row.
pub fn row_keys<Q: Copy>(row: &Vec<Cell<Q>>) -> (r: Vec<Vec<char>>)
    ensures
        r@.len() == row@.len(),
        forall|j: int| 0 <= j < row@.len() ==> (#[trigger] r@[j])@ == cell_key(row@[j]@),
{
    let mut out: Vec<Vec<char>> = Vec::new();
    let mut j: usize = 0;
    while j < row.len()
        invariant
            j <= row.len(),
            out@.len() == j,
            forall|k: int| 0 <= k < j ==> (#[trigger] out@[k])@ == cell_key(row@[k]@),
        decreases row.len() - j,
    {
        out.push(cell_key_chars(&row[j]));
        j = j + 1;
    }
    out
}

/// The cell at column `q` names a quantity.
pub open spec fn is_qty_col<Q>(row: Seq<CellView<Q>>, q: int) -> bool {
    contains_any(cell_key(row[q]), qty_keywords())
}

/// The cell at column `j` is not blank and holds one of `words`.
pub open spec fn labels<Q>(row: Seq<CellView<Q>>, j: int, words: Seq<Seq<char>>) -> bool {
    cell_key(row[j]).len() > 0 && contains_any(cell_key(row[j]), words)
}

/// The first index in `lo..hi` where `p` holds.
pub open spec fn first_index(lo: int, hi: int, p: spec_fn(int) -> bool) -> Option<int>
    decreases hi - lo,
{
    if lo >= hi {
        None
    } else if p(lo) {
        Some(lo)
    } else {
        first_index(lo + 1, hi, p)
    }
}

/// The first column of the search window left of an anchor at `q`.
pub open spec fn window_start(q: int) -> int {
    if q >= 7 {
        q - 7
    } else {
        0
    }
}

pub open spec fn stt_pred<Q>(row: Seq<CellView<Q>>) -> spec_fn(int) -> bool {
    |j: int| labels(row, j, stt_keywords())
}

pub open spec fn stt_col<Q>(row: Seq<CellView<Q>>, q: int) -> Option<int> {
    first_index(window_start(q), q, stt_pred(row))
}

pub open spec fn name_pred<Q>(row: Seq<CellView<Q>>, q: int) -> spec_fn(int) -> bool {
    |j: int| labels(row, j, name_keywords()) && stt_col(row, q) != Some(j)
}

/// The name column: the first name label in the window that was not taken
/// as the item-number column.
pub open spec fn name_col<Q>(row: Seq<CellView<Q>>, q: int) -> Option<int> {
    first_index(window_start(q), q, name_pred(row, q))
}

pub open spec fn unit_pred<Q>(row: Seq<CellView<Q>>, q: int) -> spec_fn(int) -> bool {
    |j: int|
        labels(row, j, unit_keywords()) && stt_col(row, q) != Some(j) && name_col(row, q) != Some(
            j,
        )
}

/// The unit column: the first unit label in the window that was taken
/// neither as the item-number nor as the name column.
pub open spec fn unit_col<Q>(row: Seq<CellView<Q>>, q: int) -> Option<int> {
    first_index(window_start(q), q, unit_pred(row, q))
}

pub open spec fn as_usize(o: Option<int>) -> Option<usize> {
    match o {
        Some(j) => Some(j as usize),
        None => None,
    }
}

pub open spec fn text_at<Q>(row: Seq<CellView<Q>>, o: Option<int>) -> Option<Seq<char>> {
    match o {
        Some(j) => Some(text_or_empty(row[j])),
        None => None,
    }
}

/// The header texts recorded for a mapping, under the keys "qty", "stt",
/// "name" and "unit".
pub open spec fn detected_map(
    qty: Seq<char>,
    stt: Option<Seq<char>>,
    name: Option<Seq<char>>,
    unit: Option<Seq<char>>,
) -> Map<Seq<char>, Seq<char>> {
    let m0 = Map::empty().insert("qty"@, qty);
    let m1 = match stt {
        Some(t) => m0.insert("stt"@, t),
        None => m0,
    };
    let m2 = match name {
        Some(t) => m1.insert("name"@, t),
        None => m1,
    };
    match unit {
        Some(t) => m2.insert("unit"@, t),
        None => m2,
    }
}

/// The name column of an anchor at `q`, or the cell two to its left.
pub open spec fn name_or_neighbour<Q>(row: Seq<CellView<Q>>, q: int) -> Option<int> {
    match name_col(row, q) {
        Some(j) => Some(j),
        None => if q >= 2 {
            Some(q - 2)
        } else {
            None
        },
    }
}

/// The text recorded for the name column: its header, or "Neighbor(-2)"
/// for the cell two to the left of the anchor.
pub open spec fn name_text<Q>(row: Seq<CellView<Q>>, q: int) -> Option<Seq<char>> {
    match name_col(row, q) {
        Some(j) => Some(text_or_empty(row[j])),
        None => if q >= 2 {
            Some("Neighbor(-2)"@)
        } else {
            None
        },
    }
}

/// The mapping built for an anchor at column `q`.
pub open spec fn mapping_for<Q>(row: Seq<CellView<Q>>, q: int) -> MappingView {
    MappingView {
        stt: as_usize(stt_col(row, q)),
        name: as_usize(name_or_neighbour(row, q)),
        unit: as_usize(unit_col(row, q)),
        qty: Some(q as usize),
        detected_names: detected_map(
            text_or_empty(row[q]),
            text_at(row, stt_col(row, q)),
            name_text(row, q),
            text_at(row, unit_col(row, q)),
        ),
    }
}

pub open spec fn anchor_score<Q>(row: Seq<CellView<Q>>, q: int) -> int {
    3 + (if stt_col(row, q) is Some {
        1int
    } else {
        0
    }) + (if name_col(row, q) is Some {
        2int
    } else {
        0
    }) + (if unit_col(row, q) is Some {
        1int
    } else {
        0
    })
}

/// An anchor is kept when it has a name column or a neighbour standing
/// for one.
pub open spec fn kept<Q>(row: Seq<CellView<Q>>, q: int) -> bool {
    name_or_neighbour(row, q) is Some
}

/// The mappings of the kept anchors among the first `n` cells of a row.
pub open spec fn row_mappings_upto<Q>(row: Seq<CellView<Q>>, n: int) -> Seq<MappingView>
    decreases n,
{
    if n <= 0 {
        seq![]
    } else if is_qty_col(row, n - 1) && kept(row, n - 1) {
        row_mappings_upto(row, n - 1).push(mapping_for(row, n - 1))
    } else {
        row_mappings_upto(row, n - 1)
    }
}

pub open spec fn row_score_upto<Q>(row: Seq<CellView<Q>>, n: int) -> int
    decreases n,
{
    if n <= 0 {
        0
    } else if is_qty_col(row, n - 1) && kept(row, n - 1) {
        row_score_upto(row, n - 1) + anchor_score(row, n - 1)
    } else {
        row_score_upto(row, n - 1)
    }
}

pub open spec fn row_mappings<Q>(row: Seq<CellView<Q>>) -> Seq<MappingView> {
    row_mappings_upto(row, row.len() as int)
}

pub open spec fn row_score<Q>(row: Seq<CellView<Q>>) -> int {
    row_score_upto(row, row.len() as int)
}

pub open spec fn best_row_upto<Q>(rows: Seq<Seq<CellView<Q>>>, n: int) -> Option<int>
    decreases n,
{
    if n <= 0 {
        None
    } else {
        let before = best_row_upto(rows, n - 1);
        let best = match before {
            Some(i) => row_score(rows[i]),
            None => 0,
        };
        if row_score(rows[n - 1]) > best {
            Some(n - 1)
        } else {
            before
        }
    }
}

/// The header row: the first row of the block with the highest positive
/// score.
pub open spec fn best_header_row<Q>(rows: Seq<Seq<CellView<Q>>>) -> Option<int> {
    best_row_upto(rows, rows.len() as int)
}

pub open spec fn mappings_view(m: Vec<ColumnMapping>) -> Seq<MappingView> {
    m@.map_values(|c: ColumnMapping| c@)
}

/// What header detection finds in a block: the header row, its mappings
/// and its score.
pub open spec fn header_of<Q>(v: SheetView<Q>) -> Option<(int, Seq<MappingView>, int)> {
    match best_header_row(v.rows) {
        Some(i) => Some((i, row_mappings(v.rows[i]), row_score(v.rows[i]))),
        None => None,
    }
}

// ---------------------------------------------------------------------------
// Keyword laws

proof fn lemma_quantity_words(t: Seq<char>)
    ensures
        contains_any(t, qty_keywords()) <==> (contains_seq(t, "khối lượng"@)
            || contains_seq(t, "khoi luong"@)
            || contains_seq(t, "sl"@)
            || contains_seq(t, "số lượng"@)
            || contains_seq(t, "kl"@)
            || contains_seq(t, "quyết toán"@)
            || contains_seq(t, "qt"@)
            || contains_seq(t, "khối lượng qt"@)
            || contains_seq(t, "khối lượng thực hiện"@)
            || contains_seq(t, "thanh toán"@)
            || contains_seq(t, "kltt"@)
            || contains_seq(t, "qty"@)),
{
    let w = qty_keywords();
    assert(w.len() == 12);
    assert(w[0] == "khối lượng"@);
    assert(w[1] == "khoi luong"@);
    assert(w[2] == "sl"@);
    assert(w[3] == "số lượng"@);
    assert(w[4] == "kl"@);
    assert(w[5] == "quyết toán"@);
    assert(w[6] == "qt"@);
    assert(w[7] == "khối lượng qt"@);
    assert(w[8] == "khối lượng thực hiện"@);
    assert(w[9] == "thanh toán"@);
    assert(w[10] == "kltt"@);
    assert(w[11] == "qty"@);
    if contains_any(t, w) {
        let k = choose|k: int| 0 <= k < w.len() && contains_seq(t, #[trigger] w[k]);
        if k == 0 {
        } else if k == 1 {
        } else if k == 2 {
        } else if k == 3 {
        } else if k == 4 {
        } else if k == 5 {
        } else if k == 6 {
        } else if k == 7 {
        } else if k == 8 {
        } else if k == 9 {
        } else if k == 10 {
        } else if k == 11 {
        }
    }
}

proof fn lemma_name_words(t: Seq<char>)
    ensures
        contains_any(t, name_keywords()) <==> (contains_seq(t, "hạng mục"@)
            || contains_seq(t, "hang muc"@)
            || contains_seq(t, "vật tư"@)
            || contains_seq(t, "tên"@)
            || contains_seq(t, "nội dung"@)
            || contains_seq(t, "tên công việc"@)
            || contains_seq(t, "diễn giải"@)
            || contains_seq(t, "tên vật tư"@)
            || contains_seq(t, "danh mục"@)
            || contains_seq(t, "công tác"@)
            || contains_seq(t, "vật liệu"@)
            || contains_seq(t, "thiết bị"@)),
{
    let w = name_keywords();
    assert(w.len() == 12);
    assert(w[0] == "hạng mục"@);
    assert(w[1] == "hang muc"@);
    assert(w[2] == "vật tư"@);
    assert(w[3] == "tên"@);
    assert(w[4] == "nội dung"@);
    assert(w[5] == "tên công việc"@);
    assert(w[6] == "diễn giải"@);
    assert(w[7] == "tên vật tư"@);
    assert(w[8] == "danh mục"@);
    assert(w[9] == "công tác"@);
    assert(w[10] == "vật liệu"@);
    assert(w[11] == "thiết bị"@);
    if contains_any(t, w) {
        let k = choose|k: int| 0 <= k < w.len() && contains_seq(t, #[trigger] w[k]);
        if k == 0 {
        } else if k == 1 {
        } else if k == 2 {
        } else if k == 3 {
        } else if k == 4 {
        } else if k == 5 {
        } else if k == 6 {
        } else if k == 7 {
        } else if k == 8 {
        } else if k == 9 {
        } else if k == 10 {
        } else if k == 11 {
        }
    }
}

proof fn lemma_unit_words(t: Seq<char>)
    ensures
        contains_any(t, unit_keywords()) <==> (contains_seq(t, "đvt"@)
            || contains_seq(t, "đơn vị"@)
            || contains_seq(t, "don vi"@)
            || contains_seq(t, "đơn vị tính"@)
            || contains_seq(t, "vị tính"@)),
{
    let w = unit_keywords();
    assert(w.len() == 5);
    assert(w[0] == "đvt"@);
    assert(w[1] == "đơn vị"@);
    assert(w[2] == "don vi"@);
    assert(w[3] == "đơn vị tính"@);
    assert(w[4] == "vị tính"@);
    if contains_any(t, w) {
        let k = choose|k: int| 0 <= k < w.len() && contains_seq(t, #[trigger] w[k]);
        if k == 0 {
        } else if k == 1 {
        } else if k == 2 {
        } else if k == 3 {
        } else if k == 4 {
        }
    }
}

proof fn lemma_item_number_words(t: Seq<char>)
    ensures
        contains_any(t, stt_keywords()) <==> (contains_seq(t, "stt"@)
            || contains_seq(t, "số tt"@)
            || contains_seq(t, "số thứ tự"@)
            || contains_seq(t, "no."@)
            || contains_seq(t, "id"@)
            || contains_seq(t, "item"@)
            || contains_seq(t, "tt"@)
            || contains_seq(t, "thứ tự"@)
            || contains_seq(t, "mã số"@)
            || contains_seq(t, "mã hiệu"@)),
{
    let w = stt_keywords();
    assert(w.len() == 10);
    assert(w[0] == "stt"@);
    assert(w[1] == "số tt"@);
    assert(w[2] == "số thứ tự"@);
    assert(w[3] == "no."@);
    assert(w[4] == "id"@);
    assert(w[5] == "item"@);
    assert(w[6] == "tt"@);
    assert(w[7] == "thứ tự"@);
    assert(w[8] == "mã số"@);
    assert(w[9] == "mã hiệu"@);
    if contains_any(t, w) {
        let k = choose|k: int| 0 <= k < w.len() && contains_seq(t, #[trigger] w[k]);
        if k == 0 {
        } else if k == 1 {
        } else if k == 2 {
        } else if k == 3 {
        } else if k == 4 {
        } else if k == 5 {
        } else if k == 6 {
        } else if k == 7 {
        } else if k == 8 {
        } else if k == 9 {
        }
    }
}

/// A cell is a quantity anchor exactly when its lower-case, trimmed text
/// holds one of the twelve quantity words.
pub proof fn law_quantity_anchor_words<Q>(row: Seq<CellView<Q>>, j: int)
    ensures
        is_qty_col(row, j) <==> (contains_seq(cell_key(row[j]), "khối lượng"@)
            || contains_seq(cell_key(row[j]), "khoi luong"@)
            || contains_seq(cell_key(row[j]), "sl"@)
            || contains_seq(cell_key(row[j]), "số lượng"@)
            || contains_seq(cell_key(row[j]), "kl"@)
            || contains_seq(cell_key(row[j]), "quyết toán"@)
            || contains_seq(cell_key(row[j]), "qt"@)
            || contains_seq(cell_key(row[j]), "khối lượng qt"@)
            || contains_seq(cell_key(row[j]), "khối lượng thực hiện"@)
            || contains_seq(cell_key(row[j]), "thanh toán"@)
            || contains_seq(cell_key(row[j]), "kltt"@)
            || contains_seq(cell_key(row[j]), "qty"@)),
{
    lemma_quantity_words(cell_key(row[j]));
}

/// A column left of an anchor can be the item-number column exactly when
/// its lower-case, trimmed text is not blank and holds one of the ten
/// item-number words.
pub proof fn law_item_number_label_words<Q>(row: Seq<CellView<Q>>, j: int)
    ensures
        stt_pred(row)(j) <==> cell_key(row[j]).len() > 0 && (contains_seq(cell_key(row[j]), "stt"@)
            || contains_seq(cell_key(row[j]), "số tt"@)
            || contains_seq(cell_key(row[j]), "số thứ tự"@)
            || contains_seq(cell_key(row[j]), "no."@)
            || contains_seq(cell_key(row[j]), "id"@)
            || contains_seq(cell_key(row[j]), "item"@)
            || contains_seq(cell_key(row[j]), "tt"@)
            || contains_seq(cell_key(row[j]), "thứ tự"@)
            || contains_seq(cell_key(row[j]), "mã số"@)
            || contains_seq(cell_key(row[j]), "mã hiệu"@)),
{
    lemma_item_number_words(cell_key(row[j]));
}

/// A column left of an anchor at `q` can be the name column exactly when
/// its lower-case, trimmed text is not blank, holds one of the twelve
/// item-name words, and was not taken as the item-number column.
pub proof fn law_name_label_words<Q>(row: Seq<CellView<Q>>, q: int, j: int)
    ensures
        name_pred(row, q)(j) <==> cell_key(row[j]).len() > 0 && stt_col(row, q) != Some(j) && (contains_seq(cell_key(row[j]), "hạng mục"@)
            || contains_seq(cell_key(row[j]), "hang muc"@)
            || contains_seq(cell_key(row[j]), "vật tư"@)
            || contains_seq(cell_key(row[j]), "tên"@)
            || contains_seq(cell_key(row[j]), "nội dung"@)
            || contains_seq(cell_key(row[j]), "tên công việc"@)
            || contains_seq(cell_key(row[j]), "diễn giải"@)
            || contains_seq(cell_key(row[j]), "tên vật tư"@)
            || contains_seq(cell_key(row[j]), "danh mục"@)
            || contains_seq(cell_key(row[j]), "công tác"@)
            || contains_seq(cell_key(row[j]), "vật liệu"@)
            || contains_seq(cell_key(row[j]), "thiết bị"@)),
{
    lemma_name_words(cell_key(row[j]));
}

/// A column left of an anchor at `q` can be the unit column exactly when its
/// lower-case, trimmed text is not blank, holds one of the five unit words,
/// and was taken neither as the item-number nor as the name column.
pub proof fn law_unit_label_words<Q>(row: Seq<CellView<Q>>, q: int, j: int)
    ensures
        unit_pred(row, q)(j) <==> cell_key(row[j]).len() > 0 && stt_col(row, q) != Some(j) && name_col(row, q) != Some(j) && (contains_seq(cell_key(row[j]), "đvt"@)
            || contains_seq(cell_key(row[j]), "đơn vị"@)
            || contains_seq(cell_key(row[j]), "don vi"@)
            || contains_seq(cell_key(row[j]), "đơn vị tính"@)
            || contains_seq(cell_key(row[j]), "vị tính"@)),
{
    lemma_unit_words(cell_key(row[j]));
}

// ---------------------------------------------------------------------------
// Lemmas
pub proof fn lemma_first_index_range(lo: int, hi: int, p: spec_fn(int) -> bool)
    ensures
        match first_index(lo, hi, p) {
            Some(j) => lo <= j < hi && p(j) && forall|k: int| lo <= k < j ==> !#[trigger] p(k),
            None => forall|k: int| lo <= k < hi ==> !#[trigger] p(k),
        },
    decreases hi - lo,
{
    if lo < hi && !p(lo) {
        lemma_first_index_range(lo + 1, hi, p);
    }
}

/// `first_index` on `lo..k+1` from `first_index` on `lo..k`.
pub proof fn lemma_first_index_step(lo: int, k: int, p: spec_fn(int) -> bool)
    requires
        lo <= k,
    ensures
        first_index(lo, k + 1, p) == (match first_index(lo, k, p) {
            Some(j) => Some(j),
            None => if p(k) {
                Some(k)
            } else {
                None
            },
        }),
    decreases k - lo,
{
    if lo == k {
        assert(first_index(k + 1, k + 1, p) is None);
    } else if !p(lo) {
        lemma_first_index_step(lo + 1, k, p);
    }
}

/// The first index in a whole window is `j` exactly when nothing before `j`
/// qualifies and `j` does.
pub proof fn lemma_first_index_at(lo: int, hi: int, j: int, p: spec_fn(int) -> bool)
    requires
        lo <= j < hi,
    ensures
        (first_index(lo, hi, p) == Some(j)) == (first_index(lo, j, p) is None && p(j)),
{
    lemma_first_index_range(lo, hi, p);
    lemma_first_index_range(lo, j, p);
    if first_index(lo, j, p) is None && p(j) {
        match first_index(lo, hi, p) {
            Some(x) => {
                assert(x >= j);
                if x > j {
                    assert(!p(j));
                }
            },
            None => {
                assert(!p(j));
            },
        }
    }
}

/// `first_index` on a prefix `lo..k` agrees with the whole window when the
/// whole-window answer lies before `k`, and is `None` otherwise.
pub proof fn lemma_first_index_prefix(lo: int, k: int, hi: int, p: spec_fn(int) -> bool)
    requires
        lo <= k <= hi,
    ensures
        first_index(lo, k, p) == (match first_index(lo, hi, p) {
            Some(j) => if j < k {
                Some(j)
            } else {
                None
            },
            None => None,
        }),
{
    lemma_first_index_range(lo, hi, p);
    lemma_first_index_range(lo, k, p);
}

pub proof fn lemma_row_score_bounds<Q>(row: Seq<CellView<Q>>, n: int)
    requires
        0 <= n <= row.len(),
    ensures
        0 <= row_score_upto(row, n) <= 7 * n,
        row_score_upto(row, n) > 0 ==> row_mappings_upto(row, n).len() > 0,
        row_mappings_upto(row, n).len() > 0 ==> row_score_upto(row, n) > 0,
    decreases n,
{
    if n > 0 {
        lemma_row_score_bounds(row, n - 1);
    }
}

pub proof fn lemma_field_keys_distinct()
    ensures
        "qty"@ != "stt"@,
        "qty"@ != "name"@,
        "qty"@ != "unit"@,
        "stt"@ != "name"@,
        "stt"@ != "unit"@,
        "name"@ != "unit"@,
{
    reveal_strlit("qty");
    reveal_strlit("stt");
    reveal_strlit("name");
    reveal_strlit("unit");
    assert("qty"@.len() != "name"@.len());
    assert("qty"@.len() != "unit"@.len());
    assert("stt"@.len() != "name"@.len());
    assert("stt"@.len() != "unit"@.len());
    assert("qty"@[0] != "stt"@[0]);
    assert("name"@[0] != "unit"@[0]);
}

// ---------------------------------------------------------------------------
// Detection

/// The mapping and the score of an anchor at column `q`.
fn anchor_mapping<Q: Copy>(
    row: &Vec<Cell<Q>>,
    keys: &Vec<Vec<char>>,
    kw: &Keywords,
    q: usize,
) -> (r: (ColumnMapping, i32))
    requires
        kw.wf(),
        keys@.len() == row@.len(),
        forall|j: int| 0 <= j < row@.len() ==> (#[trigger] keys@[j])@ == cell_key(row@[j]@),
        q < row@.len(),
    ensures
        r.0@ == mapping_for(row_view(*row), q as int),
        r.1 == anchor_score(row_view(*row), q as int),
{
    let ghost rv = row_view(*row);
    let ghost ws = window_start(q as int);
    let ghost ps = stt_pred(rv);
    let ghost pn = name_pred(rv, q as int);
    let ghost pu = unit_pred(rv, q as int);
    proof {
        lemma_field_keys_distinct();
    }
    let mut names = TextMap::new();
    names.insert("qty".to_owned(), cell_text(&row[q]));
    let start: usize = if q >= 7 {
        q - 7
    } else {
        0
    };
    let mut stt: Option<usize> = None;
    let mut name: Option<usize> = None;
    let mut unit: Option<usize> = None;
    let mut score: i32 = 3;
    let mut j: usize = start;
    assert(names@ =~= detected_map(text_or_empty(rv[q as int]), None, None, None));
    while j < q
        invariant
            kw.wf(),
            rv == row_view(*row),
            keys@.len() == row@.len(),
            forall|k: int| 0 <= k < row@.len() ==> (#[trigger] keys@[k])@ == cell_key(row@[k]@),
            q < row@.len(),
            ws == window_start(q as int),
            start == ws,
            ps == stt_pred(rv),
            pn == name_pred(rv, q as int),
            pu == unit_pred(rv, q as int),
            start <= j <= q,
            as_usize(first_index(ws, j as int, ps)) == stt,
            as_usize(first_index(ws, j as int, pn)) == name,
            as_usize(first_index(ws, j as int, pu)) == unit,
            score == 3 + (if stt is Some {
                1int
            } else {
                0
            }) + (if name is Some {
                2int
            } else {
                0
            }) + (if unit is Some {
                1int
            } else {
                0
            }),
            names@ == detected_map(
                text_or_empty(rv[q as int]),
                text_at(rv, first_index(ws, j as int, ps)),
                text_at(rv, first_index(ws, j as int, pn)),
                text_at(rv, first_index(ws, j as int, pu)),
            ),
            "qty"@ != "stt"@ && "qty"@ != "name"@ && "qty"@ != "unit"@ && "stt"@ != "name"@
                && "stt"@ != "unit"@ && "name"@ != "unit"@,
        decreases q - j,
    {
        proof {
            lemma_first_index_step(ws, j as int, ps);
            lemma_first_index_step(ws, j as int, pn);
            lemma_first_index_step(ws, j as int, pu);
            lemma_first_index_range(ws, j as int, ps);
            lemma_first_index_range(ws, j as int, pn);
            lemma_first_index_range(ws, j as int, pu);
            lemma_first_index_at(ws, q as int, j as int, ps);
            lemma_first_index_at(ws, q as int, j as int, pn);
            assert(rv[j as int] == row@[j as int]@);
        }
        let key = &keys[j];
        if key.len() > 0 {
            if stt.is_none() && contains_any_chars(key, &kw.stt) {
                assert(ps(j as int));
                stt = Some(j);
                score = score + 1;
                names.insert("stt".to_owned(), cell_text(&row[j]));
                assert(!pn(j as int));
                assert(!pu(j as int));
            } else if name.is_none() && contains_any_chars(key, &kw.name) {
                assert(pn(j as int));
                name = Some(j);
                score = score + 2;
                names.insert("name".to_owned(), cell_text(&row[j]));
                assert(!pu(j as int));
            } else if unit.is_none() && contains_any_chars(key, &kw.unit) {
                assert(pu(j as int));
                unit = Some(j);
                score = score + 1;
                names.insert("unit".to_owned(), cell_text(&row[j]));
            }
        }
        j = j + 1;
        assert(names@ =~= detected_map(
            text_or_empty(rv[q as int]),
            text_at(rv, first_index(ws, j as int, ps)),
            text_at(rv, first_index(ws, j as int, pn)),
            text_at(rv, first_index(ws, j as int, pu)),
        ));
    }
    if name.is_none() && q >= 2 {
        name = Some(q - 2);
        names.insert("name".to_owned(), "Neighbor(-2)".to_owned());
    }
    let m = ColumnMapping { stt, name, unit, qty: Some(q), detected_names: names };
    assert(m@.detected_names =~= mapping_for(rv, q as int).detected_names);
    (m, score)
}

/// The mappings of the kept anchors of a row, and the row's score.
fn row_candidates<Q: Copy>(row: &Vec<Cell<Q>>, kw: &Keywords) -> (r: (Vec<ColumnMapping>, i32))
    requires
        kw.wf(),
        7 * row@.len() <= i32::MAX,
    ensures
        mappings_view(r.0) == row_mappings(row_view(*row)),
        r.1 == row_score(row_view(*row)),
{
    let ghost rv = row_view(*row);
    let keys = row_keys(row);
    let mut mappings: Vec<ColumnMapping> = Vec::new();
    let mut score: i32 = 0;
    let mut j: usize = 0;
    while j < row.len()
        invariant
            kw.wf(),
            rv == row_view(*row),
            7 * row@.len() <= i32::MAX,
            keys@.len() == row@.len(),
            forall|k: int| 0 <= k < row@.len() ==> (#[trigger] keys@[k])@ == cell_key(row@[k]@),
            j <= row@.len(),
            mappings_view(mappings) == row_mappings_upto(rv, j as int),
            score == row_score_upto(rv, j as int),
        decreases row.len() - j,
    {
        proof {
            lemma_row_score_bounds(rv, j as int);
            assert(rv[j as int] == row@[j as int]@);
        }
        if contains_any_chars(&keys[j], &kw.qty) {
            let (m, sc) = anchor_mapping(row, &keys, kw, j);
            if m.name.is_some() {
                assert(sc <= 7);
                score = score + sc;
                let ghost before = mappings_view(mappings);
                mappings.push(m);
                assert(mappings_view(mappings) =~= before.push(mapping_for(rv, j as int)));
            }
        }
        j = j + 1;
    }
    (mappings, score)
}

impl ExcelParser {
    /// Finds the header row among all the rows of a block: its
    /// index, the mapping of each table side by side in it, and its score.
    pub fn find_header_and_cols<Q: Copy>(sheet: &Sheet<Q>) -> (r: Option<(usize, Vec<ColumnMapping>, i32)>)
        requires
            sheet_wf(sheet@),
        ensures
            match r {
                None => header_of(sheet@) is None,
                Some((i, m, sc)) => header_of(sheet@) == Some((i as int, mappings_view(m), sc as int)),
            },
    {
        let ghost rows = sheet@.rows;
        let kw = Keywords::new();
        let limit: usize = sheet.rows.len();
        let mut best: Option<(usize, Vec<ColumnMapping>, i32)> = None;
        let mut max_score: i32 = 0;
        let mut i: usize = 0;
        while i < limit
            invariant
                kw.wf(),
                sheet_wf(sheet@),
                rows == sheet@.rows,
                limit == rows.len(),
                i <= limit,
                match best {
                    None => best_row_upto(rows, i as int) is None && max_score == 0,
                    Some((b, m, sc)) => {
                        &&& best_row_upto(rows, i as int) == Some(b as int)
                        &&& b < i
                        &&& mappings_view(m) == row_mappings(rows[b as int])
                        &&& sc == row_score(rows[b as int])
                        &&& max_score == sc
                        &&& sc > 0
                    },
                },
            decreases limit - i,
        {
            assert(rows[i as int] == row_view(sheet.rows@[i as int]));
            assert(rows[i as int].len() == sheet_width(sheet@));
            let (mappings, score) = row_candidates(&sheet.rows[i], &kw);
            proof {
                lemma_row_score_bounds(rows[i as int], rows[i as int].len() as int);
            }
            if score > max_score && mappings.len() > 0 {
                max_score = score;
                best = Some((i, mappings, score));
            }
            i = i + 1;
        }
        best
    }
}

proof fn lemma_best_row_upto<Q>(rows: Seq<Seq<CellView<Q>>>, n: int)
    requires
        0 <= n <= rows.len(),
    ensures
        match best_row_upto(rows, n) {
            Some(i) => {
                &&& 0 <= i < n
                &&& row_score(rows[i]) > 0
                &&& forall|k: int| 0 <= k < n ==> row_score(#[trigger] rows[k]) <= row_score(rows[i])
                &&& forall|k: int| 0 <= k < i ==> row_score(#[trigger] rows[k]) < row_score(rows[i])
            },
            None => forall|k: int| 0 <= k < n ==> row_score(#[trigger] rows[k]) <= 0,
        },
    decreases n,
{
    if n > 0 {
        lemma_best_row_upto(rows, n - 1);
    }
}

/// The header row is a row of the block; its score is positive,
/// no searched row scores more, and every row before it scores less. When
/// no searched row scores above zero, no header is found.
pub proof fn law_header_row_is_first_best<Q>(rows: Seq<Seq<CellView<Q>>>)
    ensures
        match best_header_row(rows) {
            Some(i) => {
                &&& 0 <= i < rows.len()
                &&& row_score(rows[i]) > 0
                &&& forall|k: int|
                    0 <= k < rows.len() ==> row_score(#[trigger] rows[k]) <= row_score(
                        rows[i],
                    )
                &&& forall|k: int| 0 <= k < i ==> row_score(#[trigger] rows[k]) < row_score(rows[i])
            },
            None => forall|k: int|
                0 <= k < rows.len() ==> row_score(#[trigger] rows[k]) <= 0,
        },
{
    lemma_best_row_upto(rows, rows.len() as int);
}

proof fn lemma_row_mappings_complete<Q>(row: Seq<CellView<Q>>, n: int)
    ensures
        forall|k: int|
            0 <= k < row_mappings_upto(row, n).len() ==> (#[trigger] row_mappings_upto(row, n)[k]).name
                is Some && row_mappings_upto(row, n)[k].qty is Some,
    decreases n,
{
    if n > 0 {
        lemma_row_mappings_complete(row, n - 1);
    }
}

/// Every table mapping of a row names both a name column and a quantity
/// column.
pub proof fn law_mappings_have_name_and_quantity<Q>(row: Seq<CellView<Q>>)
    ensures
        forall|k: int|
            0 <= k < row_mappings(row).len() ==> (#[trigger] row_mappings(row)[k]).name is Some
                && row_mappings(row)[k].qty is Some,
{
    lemma_row_mappings_complete(row, row.len() as int);
}

} // verus!
