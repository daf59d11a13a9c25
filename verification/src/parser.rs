//! Extraction of line items from a block of cells: through a mapping the
//! user provides, through the columns of a detected header, or, when no
//! header is found, by looking next to name labels scattered in the sheet.
use vstd::prelude::*;

use crate::header::{
    best_header_row, cell_key, cell_text, first_index, header_of, lemma_first_index_range,
    lemma_first_index_step, mappings_view, text_or_empty,
};
use crate::models::{
    AnalysisView, Cell, CellView, ColumnMapping, ExcelRecord, FileAnalysis, MappingView,
    Quantity, RecordView, TextMap, record_near_zero,
};
use crate::sheet::{
    effective_view, row_view, sheet_wf, skip_allowed,
    Sheet, SheetView,
};
use crate::text::{chars_of, contains_any, contains_any_chars, contains_seq, string_from_chars, trim, trim_chars};

verus! {

/// The cell of `row` in column `col`, if the column is given and the row
/// reaches it.
pub open spec fn cell_at<Q>(row: Seq<CellView<Q>>, col: Option<usize>) -> Option<CellView<Q>> {
    match col {
        Some(j) => if j < row.len() {
            Some(row[j as int])
        } else {
            None
        },
        None => None,
    }
}

pub open spec fn text_in<Q>(row: Seq<CellView<Q>>, col: Option<usize>) -> Option<Seq<char>> {
    match cell_at(row, col) {
        Some(c) => c.text,
        None => None,
    }
}

pub open spec fn text_in_or_empty<Q>(row: Seq<CellView<Q>>, col: Option<usize>) -> Seq<char> {
    match text_in(row, col) {
        Some(t) => t,
        None => seq![],
    }
}

pub open spec fn number_in<Q>(row: Seq<CellView<Q>>, col: Option<usize>) -> Option<Quantity<Q>> {
    match cell_at(row, col) {
        Some(c) => c.number,
        None => None,
    }
}

/// The record that a row yields under a mapping: none when the name cell
/// is missing, holds no text, or holds only white space; otherwise the
/// trimmed name, the item-number and unit texts (empty when missing) and
/// the number of the quantity cell.
pub open spec fn extract_view<Q>(
    row: Seq<CellView<Q>>,
    m: MappingView,
    path: Seq<char>,
    sheet: Seq<char>,
) -> Option<RecordView<Q>> {
    match text_in(row, m.name) {
        None => None,
        Some(t) => if trim(t).len() == 0 {
            None
        } else {
            Some(
                RecordView {
                    stt: text_in_or_empty(row, m.stt),
                    ten_cong_viec: trim(t),
                    don_vi: text_in_or_empty(row, m.unit),
                    khoi_luong: number_in(row, m.qty),
                    source_file: path,
                    source_sheet: sheet,
                },
            )
        },
    }
}

/// A detected mapping with the columns the user gave put over it, and the
/// user's header texts added to it.
pub open spec fn overlay(base: MappingView, manual: Option<MappingView>) -> MappingView {
    match manual {
        None => base,
        Some(m) => MappingView {
            stt: if m.stt is Some {
                m.stt
            } else {
                base.stt
            },
            name: if m.name is Some {
                m.name
            } else {
                base.name
            },
            unit: if m.unit is Some {
                m.unit
            } else {
                base.unit
            },
            qty: if m.qty is Some {
                m.qty
            } else {
                base.qty
            },
            detected_names: base.detected_names.union_prefer_right(m.detected_names),
        },
    }
}

pub open spec fn records_view<Q>(r: Vec<ExcelRecord<Q>>) -> Seq<RecordView<Q>> {
    r@.map_values(|x: ExcelRecord<Q>| x@)
}

pub open spec fn option_mapping_view(m: Option<ColumnMapping>) -> Option<MappingView> {
    match m {
        Some(x) => Some(x@),
        None => None,
    }
}

/// The records of the rows from `from` up to `k` under one mapping.
pub open spec fn mapped_records<Q>(
    rows: Seq<Seq<CellView<Q>>>,
    m: MappingView,
    path: Seq<char>,
    sheet: Seq<char>,
    from: int,
    k: int,
) -> Seq<RecordView<Q>>
    decreases k - from,
{
    if k <= from {
        seq![]
    } else {
        match extract_view(rows[k - 1], m, path, sheet) {
            Some(r) => mapped_records(rows, m, path, sheet, from, k - 1).push(r),
            None => mapped_records(rows, m, path, sheet, from, k - 1),
        }
    }
}

/// A row where data starts under a mapping: it has a name that is not
/// blank and a numeric quantity.
pub open spec fn is_data_row<Q>(row: Seq<CellView<Q>>, m: MappingView) -> bool {
    match text_in(row, m.name) {
        Some(t) => trim(t).len() > 0 && number_in(row, m.qty) is Some,
        None => false,
    }
}

pub open spec fn data_row_pred<Q>(rows: Seq<Seq<CellView<Q>>>, m: MappingView) -> spec_fn(int) -> bool {
    |i: int| 0 <= i < rows.len() && is_data_row(rows[i], m)
}

/// The first row where data starts under a mapping.
pub open spec fn first_data_row<Q>(rows: Seq<Seq<CellView<Q>>>, m: MappingView) -> Option<int> {
    first_index(0, rows.len() as int, data_row_pred(rows, m))
}

/// The records that a block yields under one mapping: those of the rows
/// from the first row where data starts; none when no row has a name and a
/// numeric quantity.
pub open spec fn mapping_records<Q>(
    rows: Seq<Seq<CellView<Q>>>,
    m: MappingView,
    path: Seq<char>,
    sheet: Seq<char>,
) -> Seq<RecordView<Q>> {
    match first_data_row(rows, m) {
        Some(f) => mapped_records(rows, m, path, sheet, f, rows.len() as int),
        None => seq![],
    }
}

/// The records of one row under the first `t` table mappings, each with
/// the user's mapping put over it.
pub open spec fn row_records<Q>(
    row: Seq<CellView<Q>>,
    maps: Seq<MappingView>,
    manual: Option<MappingView>,
    path: Seq<char>,
    sheet: Seq<char>,
    t: int,
) -> Seq<RecordView<Q>>
    decreases t,
{
    if t <= 0 {
        seq![]
    } else {
        match extract_view(row, overlay(maps[t - 1], manual), path, sheet) {
            Some(r) => row_records(row, maps, manual, path, sheet, t - 1).push(r),
            None => row_records(row, maps, manual, path, sheet, t - 1),
        }
    }
}

/// The records of the rows from `from` up to `k`, each row read under
/// every table mapping in turn.
pub open spec fn table_records<Q>(
    rows: Seq<Seq<CellView<Q>>>,
    maps: Seq<MappingView>,
    manual: Option<MappingView>,
    path: Seq<char>,
    sheet: Seq<char>,
    from: int,
    k: int,
) -> Seq<RecordView<Q>>
    decreases k - from,
{
    if k <= from {
        seq![]
    } else {
        table_records(rows, maps, manual, path, sheet, from, k - 1) + row_records(
            rows[k - 1],
            maps,
            manual,
            path,
            sheet,
            maps.len() as int,
        )
    }
}

pub open spec fn some_near_zero<Q>(recs: Seq<RecordView<Q>>) -> bool {
    exists|i: int| 0 <= i < recs.len() && record_near_zero(#[trigger] recs[i])
}

pub open spec fn some_not_near_zero<Q>(recs: Seq<RecordView<Q>>) -> bool {
    exists|i: int| 0 <= i < recs.len() && !record_near_zero(#[trigger] recs[i])
}

pub struct ExcelParser;

impl ExcelParser {
    /// The mapping `base` with the columns that `manual` gives put over it
    /// and the header texts of `manual` added.
    pub fn apply_manual_overlay(base: &ColumnMapping, manual: &Option<ColumnMapping>) -> (r:
        ColumnMapping)
        ensures
            r@ == overlay(base@, option_mapping_view(*manual)),
            match manual {
                None => r@ == base@,
                Some(m) => {
                    &&& (m.stt is Some ==> r.stt == m.stt) && (m.stt is None ==> r.stt == base.stt)
                    &&& (m.name is Some ==> r.name == m.name) && (m.name is None ==> r.name == base.name)
                    &&& (m.unit is Some ==> r.unit == m.unit) && (m.unit is None ==> r.unit == base.unit)
                    &&& (m.qty is Some ==> r.qty == m.qty) && (m.qty is None ==> r.qty == base.qty)
                    &&& forall|k: Seq<char>| #[trigger] r@.detected_names.dom().contains(k) <==> (
                        base@.detected_names.dom().contains(k) || m@.detected_names.dom().contains(k))
                    &&& forall|k: Seq<char>| #[trigger] m@.detected_names.dom().contains(k)
                        ==> r@.detected_names[k] == m@.detected_names[k]
                    &&& forall|k: Seq<char>| #[trigger] base@.detected_names.dom().contains(k)
                        && !m@.detected_names.dom().contains(k) ==> r@.detected_names[k]
                        == base@.detected_names[k]
                },
            },
    {
        let mut effective = base.duplicate();
        if let Some(m) = manual {
            if m.stt.is_some() {
                effective.stt = m.stt;
            }
            if m.name.is_some() {
                effective.name = m.name;
            }
            if m.unit.is_some() {
                effective.unit = m.unit;
            }
            if m.qty.is_some() {
                effective.qty = m.qty;
            }
            effective.detected_names.extend(&m.detected_names);
        }
        effective
    }

    fn text_of<Q: Copy>(row: &Vec<Cell<Q>>, col: Option<usize>) -> (r: Option<String>)
        ensures
            crate::models::text_view(r) == text_in(row_view(*row), col),
    {
        match col {
            Some(j) => if j < row.len() {
                match &row[j].text {
                    Some(t) => Some(t.clone()),
                    None => None,
                }
            } else {
                None
            },
            None => None,
        }
    }

    fn text_or_default<Q: Copy>(row: &Vec<Cell<Q>>, col: Option<usize>) -> (r: String)
        ensures
            r@ == text_in_or_empty(row_view(*row), col),
    {
        match Self::text_of(row, col) {
            Some(t) => t,
            None => String::new(),
        }
    }

    /// The record that a row yields under a mapping.
    fn extract_record<Q: Copy>(
        row: &Vec<Cell<Q>>,
        mapping: &ColumnMapping,
        path: &str,
        sheet: &str,
    ) -> (r: Option<ExcelRecord<Q>>)
        ensures
            match r {
                Some(x) => extract_view(row_view(*row), mapping@, path@, sheet@) == Some(x@),
                None => extract_view(row_view(*row), mapping@, path@, sheet@) is None,
            },
    {
        let name = match Self::text_of(row, mapping.name) {
            Some(t) => trim_chars(&chars_of(t.as_str())),
            None => {
                return None;
            },
        };
        if name.len() == 0 {
            return None;
        }
        let stt = Self::text_or_default(row, mapping.stt);
        let unit = Self::text_or_default(row, mapping.unit);
        let volume = match mapping.qty {
            Some(j) => if j < row.len() {
                row[j].number
            } else {
                None
            },
            None => None,
        };
        Some(
            ExcelRecord {
                stt,
                ten_cong_viec: string_from_chars(&name),
                don_vi: unit,
                khoi_luong: volume,
                source_file: path.to_owned(),
                source_sheet: sheet.to_owned(),
            },
        )
    }
}

impl ExcelParser {
    fn push_record<Q: Copy>(out: &mut Vec<ExcelRecord<Q>>, r: ExcelRecord<Q>)
        ensures
            records_view(*final(out)) == records_view(*old(out)).push(r@),
    {
        out.push(r);
        assert(records_view(*out) =~= records_view(*old(out)).push(r@));
    }

    /// Is `row` one where data starts under `mapping`?
    fn data_row<Q: Copy>(row: &Vec<Cell<Q>>, mapping: &ColumnMapping) -> (r: bool)
        ensures
            r == is_data_row(row_view(*row), mapping@),
    {
        match Self::text_of(row, mapping.name) {
            Some(t) => {
                let name = trim_chars(&chars_of(t.as_str()));
                let numeric = match mapping.qty {
                    Some(j) => j < row.len() && row[j].number.is_some(),
                    None => false,
                };
                name.len() > 0 && numeric
            },
            None => false,
        }
    }

    /// The records of a block under one mapping, from the first row where
    /// data starts.
    fn manual_pass<Q: Copy>(
        sheet: &Sheet<Q>,
        mapping: &ColumnMapping,
        path: &str,
        sheet_name: &str,
    ) -> (r: Vec<ExcelRecord<Q>>)
        ensures
            records_view(r) == mapping_records(sheet@.rows, mapping@, path@, sheet_name@),
    {
        let ghost rows = sheet@.rows;
        let ghost p = data_row_pred(rows, mapping@);
        let mut start: usize = 0;
        while start < sheet.rows.len()
            invariant
                start <= sheet.rows.len(),
                rows == sheet@.rows,
                p == data_row_pred(rows, mapping@),
                first_index(0, start as int, p) is None,
            ensures
                start < sheet.rows.len() ==> p(start as int),
            decreases sheet.rows.len() - start,
        {
            assert(rows[start as int] == row_view(sheet.rows@[start as int]));
            proof {
                lemma_first_index_step(0, start as int, p);
            }
            if Self::data_row(&sheet.rows[start], mapping) {
                break;
            }
            start = start + 1;
        }
        proof {
            lemma_first_index_range(0, rows.len() as int, p);
            if start < rows.len() {
                lemma_first_index_step(0, start as int, p);
                crate::header::lemma_first_index_prefix(0, start as int + 1, rows.len() as int, p);
            }
        }
        let mut out: Vec<ExcelRecord<Q>> = Vec::new();
        let mut i: usize = start;
        while i < sheet.rows.len()
            invariant
                start <= i <= sheet.rows.len(),
                records_view(out) == mapped_records(
                    sheet@.rows,
                    mapping@,
                    path@,
                    sheet_name@,
                    start as int,
                    i as int,
                ),
            decreases sheet.rows.len() - i,
        {
            assert(sheet@.rows[i as int] == row_view(sheet.rows@[i as int]));
            if let Some(record) = Self::extract_record(&sheet.rows[i], mapping, path, sheet_name) {
                Self::push_record(&mut out, record);
            }
            i = i + 1;
        }
        out
    }

    /// The records of the rows from `from` on, each row read under every
    /// table mapping (with the user's mapping put over it) in turn.
    fn table_pass<Q: Copy>(
        sheet: &Sheet<Q>,
        maps: &Vec<ColumnMapping>,
        manual: &Option<ColumnMapping>,
        from: usize,
        path: &str,
        sheet_name: &str,
    ) -> (r: Vec<ExcelRecord<Q>>)
        requires
            from <= sheet@.rows.len(),
        ensures
            records_view(r) == table_records(
                sheet@.rows,
                mappings_view(*maps),
                option_mapping_view(*manual),
                path@,
                sheet_name@,
                from as int,
                sheet@.rows.len() as int,
            ),
    {
        let ghost mv = mappings_view(*maps);
        let ghost man = option_mapping_view(*manual);
        let mut out: Vec<ExcelRecord<Q>> = Vec::new();
        let mut i: usize = from;
        while i < sheet.rows.len()
            invariant
                from <= i <= sheet.rows.len(),
                mv == mappings_view(*maps),
                man == option_mapping_view(*manual),
                records_view(out) == table_records(
                    sheet@.rows,
                    mv,
                    man,
                    path@,
                    sheet_name@,
                    from as int,
                    i as int,
                ),
            decreases sheet.rows.len() - i,
        {
            let ghost before = records_view(out);
            let ghost row = sheet@.rows[i as int];
            assert(row == row_view(sheet.rows@[i as int]));
            let mut t: usize = 0;
            while t < maps.len()
                invariant
                    t <= maps.len(),
                    i < sheet.rows.len(),
                    row == row_view(sheet.rows@[i as int]),
                    mv == mappings_view(*maps),
                    man == option_mapping_view(*manual),
                    records_view(out) == before + row_records(
                        row,
                        mv,
                        man,
                        path@,
                        sheet_name@,
                        t as int,
                    ),
                decreases maps.len() - t,
            {
                let mapping = Self::apply_manual_overlay(&maps[t], manual);
                assert(mv[t as int] == maps@[t as int]@);
                if let Some(record) = Self::extract_record(
                    &sheet.rows[i],
                    &mapping,
                    path,
                    sheet_name,
                ) {
                    Self::push_record(&mut out, record);
                    assert(records_view(out) =~= before + row_records(
                        row,
                        mv,
                        man,
                        path@,
                        sheet_name@,
                        t + 1,
                    ));
                }
                t = t + 1;
            }
            i = i + 1;
        }
        out
    }

    /// Whether some record has a quantity near zero, and whether some has
    /// not.
    fn data_flags<Q: Copy>(recs: &Vec<ExcelRecord<Q>>) -> (r: (bool, bool))
        ensures
            r.0 == some_near_zero(records_view(*recs)),
            r.1 == some_not_near_zero(records_view(*recs)),
    {
        let ghost rv = records_view(*recs);
        let mut zero = false;
        let mut valid = false;
        let mut i: usize = 0;
        while i < recs.len()
            invariant
                i <= recs.len(),
                rv == records_view(*recs),
                zero == exists|k: int| 0 <= k < i && record_near_zero(#[trigger] rv[k]),
                valid == exists|k: int| 0 <= k < i && !record_near_zero(#[trigger] rv[k]),
            decreases recs.len() - i,
        {
            assert(rv[i as int] == recs@[i as int]@);
            let near = match recs[i].khoi_luong {
                Some(q) => q.near_zero,
                None => true,
            };
            if near {
                zero = true;
            } else {
                valid = true;
            }
            i = i + 1;
        }
        (zero, valid)
    }
}

pub open spec fn scattered_name_keywords() -> Seq<Seq<char>> {
    seq!["hạng mục"@, "vật tư"@, "tên"@, "nội dung"@, "diễn giải"@, "tên vật tư"@]
}

/// The name next to a label at (`i`, `j`) of the block: the text of the
/// cell to its right, or else the text of the cell directly below it,
/// trimmed.
pub open spec fn scattered_name<Q>(v: SheetView<Q>, i: int, j: int) -> Seq<char> {
    let row = v.rows[i];
    let right = if j + 1 < row.len() {
        row[j + 1].text
    } else {
        None
    };
    trim(
        match right {
            Some(t) => t,
            None => if i + 1 < v.rows.len() && j < v.rows[i + 1].len() {
                text_or_empty(v.rows[i + 1][j])
            } else {
                seq![]
            },
        },
    )
}

/// The cell holds a positive number.
pub open spec fn is_positive_cell<Q>(c: CellView<Q>) -> bool {
    match c.number {
        Some(q) => q.positive,
        None => false,
    }
}

pub open spec fn positive_pred<Q>(row: Seq<CellView<Q>>) -> spec_fn(int) -> bool {
    |k: int|
        0 <= k < row.len() && match row[k].number {
            Some(q) => q.positive,
            None => false,
        }
}

/// The first positive number among the fourteen cells right of column `j`.
pub open spec fn scattered_qty<Q>(row: Seq<CellView<Q>>, j: int) -> Option<Quantity<Q>> {
    match first_index(j + 1, j + 15, positive_pred(row)) {
        Some(k) => row[k].number,
        None => None,
    }
}

/// The record found at a name label in cell (`i`, `j`): its name and the
/// first positive number to its right.
pub open spec fn scattered_record<Q>(
    v: SheetView<Q>,
    i: int,
    j: int,
    path: Seq<char>,
    sheet: Seq<char>,
) -> Option<RecordView<Q>> {
    if !contains_any(cell_key(v.rows[i][j]), scattered_name_keywords()) {
        None
    } else if scattered_name(v, i, j).len() == 0 {
        None
    } else {
        match scattered_qty(v.rows[i], j) {
            Some(q) => Some(
                RecordView {
                    stt: seq![],
                    ten_cong_viec: scattered_name(v, i, j),
                    don_vi: seq![],
                    khoi_luong: Some(q),
                    source_file: path,
                    source_sheet: sheet,
                },
            ),
            None => None,
        }
    }
}

pub open spec fn scattered_in_row<Q>(
    v: SheetView<Q>,
    i: int,
    k: int,
    path: Seq<char>,
    sheet: Seq<char>,
) -> Seq<RecordView<Q>>
    decreases k,
{
    if k <= 0 {
        seq![]
    } else {
        match scattered_record(v, i, k - 1, path, sheet) {
            Some(r) => scattered_in_row(v, i, k - 1, path, sheet).push(r),
            None => scattered_in_row(v, i, k - 1, path, sheet),
        }
    }
}

pub open spec fn scattered_upto<Q>(v: SheetView<Q>, k: int, path: Seq<char>, sheet: Seq<char>) -> Seq<
    RecordView<Q>,
>
    decreases k,
{
    if k <= 0 {
        seq![]
    } else {
        scattered_upto(v, k - 1, path, sheet) + scattered_in_row(
            v,
            k - 1,
            v.rows[k - 1].len() as int,
            path,
            sheet,
        )
    }
}

/// The records found next to name labels anywhere in the block.
pub open spec fn scattered_records<Q>(v: SheetView<Q>, path: Seq<char>, sheet: Seq<char>) -> Seq<
    RecordView<Q>,
> {
    scattered_upto(v, v.rows.len() as int, path, sheet)
}

impl ExcelParser {
    fn scattered_keywords() -> (r: Vec<Vec<char>>)
        ensures
            crate::header::words_view(r) == scattered_name_keywords(),
    {
        let mut out: Vec<Vec<char>> = Vec::new();
        out.push(chars_of("hạng mục"));
        out.push(chars_of("vật tư"));
        out.push(chars_of("tên"));
        out.push(chars_of("nội dung"));
        out.push(chars_of("diễn giải"));
        out.push(chars_of("tên vật tư"));
        assert(crate::header::words_view(out) =~= scattered_name_keywords());
        out
    }

    /// The first positive number among the fourteen cells right of `j`.
    fn first_positive_right<Q: Copy>(row: &Vec<Cell<Q>>, j: usize) -> (r: Option<Quantity<Q>>)
        requires
            j < row@.len(),
        ensures
            r == scattered_qty(row_view(*row), j as int),
    {
        let ghost rv = row_view(*row);
        let ghost p = positive_pred(rv);
        let mut offset: usize = 1;
        while offset < 15
            invariant
                1 <= offset <= 15,
                j < row@.len(),
                rv == row_view(*row),
                p == positive_pred(rv),
                first_index(j + 1, j + offset, p) is None,
            decreases 15 - offset,
        {
            proof {
                lemma_first_index_step(j + 1, j + offset, p);
            }
            if offset < row.len() - j {
                let k = j + offset;
                assert(rv[k as int] == row@[k as int]@);
                if let Some(q) = row[k].number {
                    if q.positive {
                        proof {
                            lemma_first_index_range(j + 1, j + 15, p);
                            crate::header::lemma_first_index_prefix(j + 1, j + offset, j + 15, p);
                        }
                        return Some(q);
                    }
                }
            }
            offset = offset + 1;
        }
        None
    }

    /// The name next to a label at (`i`, `j`).
    fn name_near<Q: Copy>(sheet: &Sheet<Q>, i: usize, j: usize) -> (r: Vec<char>)
        requires
            sheet_wf(sheet@),
            i < sheet@.rows.len(),
            j < sheet@.rows[i as int].len(),
        ensures
            r@ == scattered_name(sheet@, i as int, j as int),
    {
        let row = &sheet.rows[i];
        assert(sheet@.rows[i as int] == row_view(*row));
        let right = if j + 1 < row.len() {
            assert(sheet@.rows[i as int][j + 1] == row@[j + 1]@);
            match &row[j + 1].text {
                Some(t) => Some(t.clone()),
                None => None,
            }
        } else {
            None
        };
        let text = match right {
            Some(t) => t,
            None => {
                if i + 1 < sheet.rows.len() && j < sheet.rows[i + 1].len() {
                    assert(sheet@.rows[i + 1] == row_view(sheet.rows@[i + 1]));
                    cell_text(&sheet.rows[i + 1][j])
                } else {
                    String::new()
                }
            },
        };
        trim_chars(&chars_of(text.as_str()))
    }

    /// The records found next to name labels anywhere in the block.
    pub fn parse_scattered<Q: Copy>(sheet: &Sheet<Q>, path: &str, sheet_name: &str) -> (r: Vec<
        ExcelRecord<Q>,
    >)
        requires
            sheet_wf(sheet@),
        ensures
            records_view(r) == scattered_records(sheet@, path@, sheet_name@),
    {
        let kw = Self::scattered_keywords();
        let mut out: Vec<ExcelRecord<Q>> = Vec::new();
        let mut i: usize = 0;
        while i < sheet.rows.len()
            invariant
                sheet_wf(sheet@),
                i <= sheet.rows.len(),
                crate::header::words_view(kw) == scattered_name_keywords(),
                records_view(out) == scattered_upto(sheet@, i as int, path@, sheet_name@),
            decreases sheet.rows.len() - i,
        {
            let ghost before = records_view(out);
            let row = &sheet.rows[i];
            assert(sheet@.rows[i as int] == row_view(*row));
            let mut j: usize = 0;
            while j < row.len()
                invariant
                    sheet_wf(sheet@),
                    i < sheet.rows.len(),
                    row == &sheet.rows[i as int],
                    sheet@.rows[i as int] == row_view(*row),
                    j <= row.len(),
                    crate::header::words_view(kw) == scattered_name_keywords(),
                    records_view(out) == before + scattered_in_row(
                        sheet@,
                        i as int,
                        j as int,
                        path@,
                        sheet_name@,
                    ),
                decreases row.len() - j,
            {
                assert(sheet@.rows[i as int][j as int] == row@[j as int]@);
                let key = crate::header::cell_key_chars(&row[j]);
                if contains_any_chars(&key, &kw) {
                    let name = Self::name_near(sheet, i, j);
                    if name.len() > 0 {
                        if let Some(q) = Self::first_positive_right(row, j) {
                            let record = ExcelRecord {
                                stt: String::new(),
                                ten_cong_viec: string_from_chars(&name),
                                don_vi: String::new(),
                                khoi_luong: Some(q),
                                source_file: path.to_owned(),
                                source_sheet: sheet_name.to_owned(),
                            };
                            Self::push_record(&mut out, record);
                            assert(records_view(out) =~= before + scattered_in_row(
                                sheet@,
                                i as int,
                                j + 1,
                                path@,
                                sheet_name@,
                            ));
                        }
                    }
                }
                j = j + 1;
            }
            i = i + 1;
        }
        out
    }
}

/// A fresh analysis: no confidence, no flags, no header.
pub open spec fn fresh_analysis(reason: Seq<char>) -> AnalysisView {
    AnalysisView {
        confidence_sixths: 0,
        is_deviant: false,
        has_zero_data: false,
        has_valid_data: false,
        reason,
        header_row: None,
        detected_columns: Map::empty(),
    }
}

/// The user's mapping names at least a name and a quantity column.
pub open spec fn manual_usable(manual: Option<MappingView>) -> bool {
    match manual {
        Some(m) => m.name is Some && m.qty is Some,
        None => false,
    }
}

/// The records read through the user's mapping, if it is usable.
pub open spec fn manual_records<Q>(
    v: SheetView<Q>,
    manual: Option<MappingView>,
    path: Seq<char>,
    sheet: Seq<char>,
) -> Seq<RecordView<Q>> {
    match manual {
        Some(m) => if manual_usable(manual) {
            mapping_records(v.rows, m, path, sheet)
        } else {
            seq![]
        },
        None => seq![],
    }
}

/// What parsing a block yields. The user's mapping is used when it is
/// usable and yields records, read from the first row with a name and a
/// numeric quantity on (full confidence). Otherwise the detected
/// header is used: every later row is read under each table mapping with the
/// user's columns put over it; the confidence is the score in sixths, at
/// most six, and below five the table is deviant. With no header, records
/// are looked for next to name labels (half confidence).
pub open spec fn sheet_outcome<Q>(
    v: SheetView<Q>,
    manual: Option<MappingView>,
    path: Seq<char>,
    sheet: Seq<char>,
) -> (Seq<RecordView<Q>>, AnalysisView) {
    let from_manual = manual_records(v, manual, path, sheet);
    if from_manual.len() > 0 {
        (
            from_manual,
            AnalysisView {
                confidence_sixths: 6,
                is_deviant: false,
                has_zero_data: some_near_zero(from_manual),
                has_valid_data: some_not_near_zero(from_manual),
                reason: "Parsed using provided mapping/template"@,
                header_row: None,
                detected_columns: Map::empty(),
            },
        )
    } else {
        match header_of(v) {
            Some((h, maps, score)) => {
                let recs = table_records(v.rows, maps, manual, path, sheet, h + 1, v.rows.len() as int);
                let conf = if score < 6 {
                    score
                } else {
                    6
                };
                let deviant = conf < 5;
                (
                    recs,
                    AnalysisView {
                        confidence_sixths: conf as u8,
                        is_deviant: deviant,
                        has_zero_data: some_near_zero(recs),
                        has_valid_data: some_not_near_zero(recs),
                        reason: if recs.len() == 0 {
                            "Header found but no data rows match filters"@
                        } else if deviant {
                            "Table found but structure is non-standard (low confidence)"@
                        } else {
                            "Successfully parsed with standard structure"@
                        },
                        header_row: Some(h as usize),
                        detected_columns: if maps.len() > 0 {
                            maps[0].detected_names
                        } else {
                            Map::empty()
                        },
                    },
                )
            },
            None => {
                let found = scattered_records(v, path, sheet);
                if found.len() > 0 {
                    (
                        found,
                        AnalysisView {
                            confidence_sixths: 3,
                            is_deviant: false,
                            has_zero_data: false,
                            has_valid_data: true,
                            reason: "Parsed using scattered data discovery"@,
                            header_row: None,
                            detected_columns: Map::empty(),
                        },
                    )
                } else {
                    (found, fresh_analysis("Sheet processed"@))
                }
            },
        }
    }
}

impl ExcelParser {
    /// Parses one worksheet block after skipping `skip_rows` rows.
    pub fn parse_sheet<Q: Copy>(
        sheet: &Sheet<Q>,
        manual_mapping: &Option<ColumnMapping>,
        skip_rows: usize,
        path: &str,
        sheet_name: &str,
    ) -> (r: (Vec<ExcelRecord<Q>>, FileAnalysis))
        requires
            sheet_wf(sheet@),
            skip_allowed(sheet@, skip_rows as int),
        ensures
            (records_view(r.0), r.1@) == sheet_outcome(
                effective_view(sheet@, skip_rows as int),
                option_mapping_view(*manual_mapping),
                path@,
                sheet_name@,
            ),
    {
        let effective = sheet.effective(skip_rows);
        let ghost v = effective@;
        let ghost man = option_mapping_view(*manual_mapping);
        if let Some(m) = manual_mapping {
            if m.name.is_some() && m.qty.is_some() {
                let results = Self::manual_pass(&effective, m, path, sheet_name);
                if results.len() > 0 {
                    let (zero, valid) = Self::data_flags(&results);
                    let analysis = FileAnalysis {
                        confidence_sixths: 6,
                        is_deviant: false,
                        has_zero_data: zero,
                        has_valid_data: valid,
                        reason: "Parsed using provided mapping/template".to_owned(),
                        header_row: None,
                        detected_columns: TextMap::new(),
                    };
                    return (results, analysis);
                }
            }
        }
        assert(manual_records(v, man, path@, sheet_name@).len() == 0);
        match Self::find_header_and_cols(&effective) {
            Some((header_idx, multi_col_maps, score)) => {
                proof {
                    crate::header::law_header_row_is_first_best(v.rows);
                }
                let results = Self::table_pass(
                    &effective,
                    &multi_col_maps,
                    manual_mapping,
                    header_idx + 1,
                    path,
                    sheet_name,
                );
                let (zero, valid) = Self::data_flags(&results);
                let conf: u8 = if score < 6 {
                    score as u8
                } else {
                    6
                };
                let deviant = conf < 5;
                let reason = if results.len() == 0 {
                    "Header found but no data rows match filters".to_owned()
                } else if deviant {
                    "Table found but structure is non-standard (low confidence)".to_owned()
                } else {
                    "Successfully parsed with standard structure".to_owned()
                };
                let detected = if multi_col_maps.len() > 0 {
                    assert(mappings_view(multi_col_maps)[0] == multi_col_maps@[0]@);
                    multi_col_maps[0].detected_names.duplicate()
                } else {
                    TextMap::new()
                };
                let analysis = FileAnalysis {
                    confidence_sixths: conf,
                    is_deviant: deviant,
                    has_zero_data: zero,
                    has_valid_data: valid,
                    reason,
                    header_row: Some(header_idx),
                    detected_columns: detected,
                };
                (results, analysis)
            },
            None => {
                let found = Self::parse_scattered(&effective, path, sheet_name);
                if found.len() > 0 {
                    let analysis = FileAnalysis {
                        confidence_sixths: 3,
                        is_deviant: false,
                        has_zero_data: false,
                        has_valid_data: true,
                        reason: "Parsed using scattered data discovery".to_owned(),
                        header_row: None,
                        detected_columns: TextMap::new(),
                    };
                    (found, analysis)
                } else {
                    let analysis = FileAnalysis {
                        confidence_sixths: 0,
                        is_deviant: false,
                        has_zero_data: false,
                        has_valid_data: false,
                        reason: "Sheet processed".to_owned(),
                        header_row: None,
                        detected_columns: TextMap::new(),
                    };
                    (found, analysis)
                }
            },
        }
    }
}

pub open spec fn sheets_view<Q>(s: Vec<(String, Sheet<Q>)>) -> Seq<(Seq<char>, SheetView<Q>)> {
    s@.map_values(|p: (String, Sheet<Q>)| (p.0@, p.1@))
}

/// Every block is well formed and allows skipping `skip` rows.
pub open spec fn sheets_ready<Q>(sheets: Seq<(Seq<char>, SheetView<Q>)>, skip: int) -> bool {
    forall|i: int|
        0 <= i < sheets.len() ==> sheet_wf(#[trigger] sheets[i].1) && skip_allowed(
            sheets[i].1,
            skip,
        )
}

/// The records of the first `k` sheets, and the analysis of highest
/// confidence among them (the earliest on ties).
pub open spec fn workbook_upto<Q>(
    sheets: Seq<(Seq<char>, SheetView<Q>)>,
    manual: Option<MappingView>,
    skip: int,
    path: Seq<char>,
    k: int,
) -> (Seq<RecordView<Q>>, AnalysisView)
    decreases k,
{
    if k <= 0 {
        (seq![], fresh_analysis("No sheets processed"@))
    } else {
        let (recs, best) = workbook_upto(sheets, manual, skip, path, k - 1);
        let (r, a) = sheet_outcome(
            effective_view(sheets[k - 1].1, skip),
            manual,
            path,
            sheets[k - 1].0,
        );
        (recs + r, if a.confidence_sixths > best.confidence_sixths {
            a
        } else {
            best
        })
    }
}

/// What parsing a workbook yields: the records of all its sheets, in
/// order, and the analysis of the most confident sheet; with no record and
/// no confidence anywhere the reason says that nothing was identified, and
/// with records the file has valid data.
pub open spec fn workbook_outcome<Q>(
    sheets: Seq<(Seq<char>, SheetView<Q>)>,
    manual: Option<MappingView>,
    skip: int,
    path: Seq<char>,
) -> (Seq<RecordView<Q>>, AnalysisView) {
    let (recs, best) = workbook_upto(sheets, manual, skip, path, sheets.len() as int);
    let marked = if recs.len() == 0 && best.confidence_sixths == 0 {
        AnalysisView { reason: "Could not identify any valid data in any sheet"@, ..best }
    } else {
        best
    };
    (recs, if recs.len() > 0 {
        AnalysisView { has_valid_data: true, ..marked }
    } else {
        marked
    })
}

/// The header texts of a block: the texts of its header row, or nothing.
pub open spec fn header_texts<Q>(v: SheetView<Q>) -> Seq<Seq<char>> {
    match best_header_row(v.rows) {
        Some(h) => v.rows[h].map_values(|c: CellView<Q>| text_or_empty(c)),
        None => seq![],
    }
}

/// The mapping of the first table under the header of a block.
pub open spec fn template_of<Q>(v: SheetView<Q>) -> Option<MappingView> {
    match header_of(v) {
        Some((_, maps, _)) => if maps.len() > 0 {
            Some(maps[0])
        } else {
            None
        },
        None => None,
    }
}

impl ExcelParser {
    /// Parses every readable sheet of a workbook: `sheets` holds the name
    /// and the cells of each, in workbook order.
    pub fn parse<Q: Copy>(
        path: &str,
        sheets: &Vec<(String, Sheet<Q>)>,
        manual_mapping: &Option<ColumnMapping>,
        skip_rows: usize,
    ) -> (r: (Vec<ExcelRecord<Q>>, FileAnalysis))
        requires
            sheets_ready(sheets_view(*sheets), skip_rows as int),
        ensures
            (records_view(r.0), r.1@) == workbook_outcome(
                sheets_view(*sheets),
                option_mapping_view(*manual_mapping),
                skip_rows as int,
                path@,
            ),
    {
        let ghost sv = sheets_view(*sheets);
        let ghost man = option_mapping_view(*manual_mapping);
        let mut results: Vec<ExcelRecord<Q>> = Vec::new();
        let mut final_analysis = FileAnalysis {
            confidence_sixths: 0,
            is_deviant: false,
            has_zero_data: false,
            has_valid_data: false,
            reason: "No sheets processed".to_owned(),
            header_row: None,
            detected_columns: TextMap::new(),
        };
        let mut k: usize = 0;
        while k < sheets.len()
            invariant
                k <= sheets.len(),
                sv == sheets_view(*sheets),
                man == option_mapping_view(*manual_mapping),
                sheets_ready(sv, skip_rows as int),
                (records_view(results), final_analysis@) == workbook_upto(
                    sv,
                    man,
                    skip_rows as int,
                    path@,
                    k as int,
                ),
            decreases sheets.len() - k,
        {
            assert(sv[k as int] == (sheets@[k as int].0@, sheets@[k as int].1@));
            assert(sheet_wf(sv[k as int].1));
            let (mut sheet_records, sheet_analysis) = Self::parse_sheet(
                &sheets[k].1,
                manual_mapping,
                skip_rows,
                path,
                sheets[k].0.as_str(),
            );
            let ghost before = records_view(results);
            let ghost added = records_view(sheet_records);
            results.append(&mut sheet_records);
            assert(records_view(results) =~= before + added);
            if sheet_analysis.confidence_sixths > final_analysis.confidence_sixths {
                final_analysis = sheet_analysis;
            }
            k = k + 1;
        }
        if results.len() == 0 && final_analysis.confidence_sixths == 0 {
            final_analysis.reason = "Could not identify any valid data in any sheet".to_owned();
        }
        if results.len() > 0 {
            final_analysis.has_valid_data = true;
        }
        (results, final_analysis)
    }

    /// The header texts of the first sheet, after skipping `skip_rows`
    /// rows; nothing when there is no readable first sheet or no header.
    pub fn get_headers<Q: Copy>(first_sheet: &Option<Sheet<Q>>, skip_rows: usize) -> (r: Vec<
        String,
    >)
        requires
            match first_sheet {
                Some(s) => sheet_wf(s@) && skip_allowed(s@, skip_rows as int),
                None => true,
            },
        ensures
            r@.map_values(|t: String| t@) == match first_sheet {
                Some(s) => header_texts(effective_view(s@, skip_rows as int)),
                None => seq![],
            },
    {
        let mut out: Vec<String> = Vec::new();
        if let Some(sheet) = first_sheet {
            let effective = sheet.effective(skip_rows);
            if let Some((header_idx, _, _)) = Self::find_header_and_cols(&effective) {
                proof {
                    crate::header::law_header_row_is_first_best(effective@.rows);
                }
                let row = &effective.rows[header_idx];
                let ghost target = effective@.rows[header_idx as int].map_values(
                    |c: CellView<Q>| text_or_empty(c),
                );
                assert(effective@.rows[header_idx as int] == row_view(*row));
                let mut j: usize = 0;
                while j < row.len()
                    invariant
                        j <= row.len(),
                        target == row_view(*row).map_values(|c: CellView<Q>| text_or_empty(c)),
                        out@.len() == j,
                        forall|k: int| 0 <= k < j ==> (#[trigger] out@[k])@ == target[k],
                    decreases row.len() - j,
                {
                    out.push(cell_text(&row[j]));
                    j = j + 1;
                }
                assert(out@.map_values(|t: String| t@) =~= target);
                return out;
            }
        }
        assert(out@.map_values(|t: String| t@) =~= Seq::<Seq<char>>::empty());
        out
    }

    /// The mapping of the first table under the header of the first sheet,
    /// after skipping `skip_rows` rows.
    pub fn get_template_mapping<Q: Copy>(first_sheet: &Option<Sheet<Q>>, skip_rows: usize) -> (r:
        Option<ColumnMapping>)
        requires
            match first_sheet {
                Some(s) => sheet_wf(s@) && skip_allowed(s@, skip_rows as int),
                None => true,
            },
        ensures
            option_mapping_view(r) == match first_sheet {
                Some(s) => template_of(effective_view(s@, skip_rows as int)),
                None => None,
            },
    {
        match first_sheet {
            Some(sheet) => {
                let effective = sheet.effective(skip_rows);
                match Self::find_header_and_cols(&effective) {
                    Some((_, mappings, _)) => if mappings.len() > 0 {
                        assert(mappings_view(mappings)[0] == mappings@[0]@);
                        Some(mappings[0].duplicate())
                    } else {
                        None
                    },
                    None => None,
                }
            },
            None => None,
        }
    }
}

// ---------------------------------------------------------------------------
// Laws

proof fn lemma_scattered_label_words(t: Seq<char>)
    ensures
        contains_any(t, scattered_name_keywords()) <==> (contains_seq(t, "hạng mục"@)
            || contains_seq(t, "vật tư"@)
            || contains_seq(t, "tên"@)
            || contains_seq(t, "nội dung"@)
            || contains_seq(t, "diễn giải"@)
            || contains_seq(t, "tên vật tư"@)),
{
    let w = scattered_name_keywords();
    assert(w.len() == 6);
    assert(w[0] == "hạng mục"@);
    assert(w[1] == "vật tư"@);
    assert(w[2] == "tên"@);
    assert(w[3] == "nội dung"@);
    assert(w[4] == "diễn giải"@);
    assert(w[5] == "tên vật tư"@);
    if contains_any(t, w) {
        let k = choose|k: int| 0 <= k < w.len() && contains_seq(t, #[trigger] w[k]);
        if k == 0 {
        } else if k == 1 {
        } else if k == 2 {
        } else if k == 3 {
        } else if k == 4 {
        } else if k == 5 {
        }
    }
}

/// A cell yields a scattered record exactly when its lower-case, trimmed
/// text holds one of the six label words ("hạng mục", "vật tư", "tên",
/// "nội dung", "diễn giải", "tên vật tư"), the cell to its right (or else
/// below it) holds a name that is not blank, and a positive number stands
/// within the fourteen cells to its right; the record has that name and
/// the first such number, no item number, no unit, and names `path` and
/// `sheet`.
pub proof fn law_scattered_label_words<Q>(
    v: SheetView<Q>,
    i: int,
    j: int,
    path: Seq<char>,
    sheet: Seq<char>,
)
    requires
        0 <= i < v.rows.len(),
        0 <= j < v.rows[i].len(),
    ensures
        scattered_record(v, i, j, path, sheet) is Some <==> (
            (contains_seq(cell_key(v.rows[i][j]), "hạng mục"@)
                || contains_seq(cell_key(v.rows[i][j]), "vật tư"@)
                || contains_seq(cell_key(v.rows[i][j]), "tên"@)
                || contains_seq(cell_key(v.rows[i][j]), "nội dung"@)
                || contains_seq(cell_key(v.rows[i][j]), "diễn giải"@)
                || contains_seq(cell_key(v.rows[i][j]), "tên vật tư"@))
            && scattered_name(v, i, j).len() > 0
            && scattered_qty(v.rows[i], j) is Some),
        match scattered_record(v, i, j, path, sheet) {
            Some(r) => r.ten_cong_viec == scattered_name(v, i, j) && r.khoi_luong == scattered_qty(v.rows[i], j)
                && r.stt.len() == 0 && r.don_vi.len() == 0 && r.source_file == path && r.source_sheet == sheet,
            None => true,
        },
        match scattered_qty(v.rows[i], j) {
            Some(q) => q.positive && exists|k: int|
                j < k <= j + 14 && k < v.rows[i].len() && (#[trigger] v.rows[i][k]).number == Some(q)
                    && forall|m: int| j < m < k ==> !is_positive_cell(#[trigger] v.rows[i][m]),
            None => forall|k: int|
                j < k <= j + 14 && k < v.rows[i].len() ==> !is_positive_cell(#[trigger] v.rows[i][k]),
        },
{
    lemma_scattered_label_words(cell_key(v.rows[i][j]));
    let row = v.rows[i];
    lemma_first_index_range(j + 1, j + 15, positive_pred(row));
    match first_index(j + 1, j + 15, positive_pred(row)) {
        Some(k) => {
            assert forall|m: int| j < m < k implies !is_positive_cell(#[trigger] row[m]) by {
                assert(!positive_pred(row)(m));
            }
        },
        None => {
            assert forall|k: int| j < k <= j + 14 && k < row.len() implies !is_positive_cell(#[trigger] row[k]) by {
                assert(!positive_pred(row)(k));
            }
        },
    }
}


/// Every record of `recs` has a name that is not blank, and comes from
/// `path` and `sheet`.
pub open spec fn well_named<Q>(recs: Seq<RecordView<Q>>, path: Seq<char>, sheet: Seq<char>) -> bool {
    forall|i: int|
        0 <= i < recs.len() ==> (#[trigger] recs[i]).ten_cong_viec.len() > 0 && recs[i].source_file
            == path && recs[i].source_sheet == sheet
}

proof fn lemma_mapped_well_named<Q>(
    rows: Seq<Seq<CellView<Q>>>,
    m: MappingView,
    path: Seq<char>,
    sheet: Seq<char>,
    from: int,
    k: int,
)
    ensures
        well_named(mapped_records(rows, m, path, sheet, from, k), path, sheet),
    decreases k - from,
{
    if k > from {
        lemma_mapped_well_named(rows, m, path, sheet, from, k - 1);
    }
}

proof fn lemma_row_well_named<Q>(
    row: Seq<CellView<Q>>,
    maps: Seq<MappingView>,
    manual: Option<MappingView>,
    path: Seq<char>,
    sheet: Seq<char>,
    t: int,
)
    ensures
        well_named(row_records(row, maps, manual, path, sheet, t), path, sheet),
    decreases t,
{
    if t > 0 {
        lemma_row_well_named(row, maps, manual, path, sheet, t - 1);
    }
}

proof fn lemma_table_well_named<Q>(
    rows: Seq<Seq<CellView<Q>>>,
    maps: Seq<MappingView>,
    manual: Option<MappingView>,
    path: Seq<char>,
    sheet: Seq<char>,
    from: int,
    k: int,
)
    ensures
        well_named(table_records(rows, maps, manual, path, sheet, from, k), path, sheet),
    decreases k - from,
{
    if k > from {
        lemma_table_well_named(rows, maps, manual, path, sheet, from, k - 1);
        lemma_row_well_named(rows[k - 1], maps, manual, path, sheet, maps.len() as int);
        let a = table_records(rows, maps, manual, path, sheet, from, k - 1);
        let b = row_records(rows[k - 1], maps, manual, path, sheet, maps.len() as int);
        assert forall|i: int| 0 <= i < (a + b).len() implies (#[trigger] (a + b)[i]).ten_cong_viec.len() > 0
            && (a + b)[i].source_file == path && (a + b)[i].source_sheet == sheet by {
            if i < a.len() {
                assert((a + b)[i] == a[i]);
            } else {
                assert((a + b)[i] == b[i - a.len()]);
            }
        }
    }
}

proof fn lemma_scattered_row_well_named<Q>(
    v: SheetView<Q>,
    i: int,
    k: int,
    path: Seq<char>,
    sheet: Seq<char>,
)
    ensures
        well_named(scattered_in_row(v, i, k, path, sheet), path, sheet),
    decreases k,
{
    if k > 0 {
        lemma_scattered_row_well_named(v, i, k - 1, path, sheet);
    }
}

proof fn lemma_scattered_well_named<Q>(v: SheetView<Q>, k: int, path: Seq<char>, sheet: Seq<char>)
    ensures
        well_named(scattered_upto(v, k, path, sheet), path, sheet),
    decreases k,
{
    if k > 0 {
        lemma_scattered_well_named(v, k - 1, path, sheet);
        lemma_scattered_row_well_named(v, k - 1, v.rows[k - 1].len() as int, path, sheet);
        let a = scattered_upto(v, k - 1, path, sheet);
        let b = scattered_in_row(v, k - 1, v.rows[k - 1].len() as int, path, sheet);
        assert forall|j: int| 0 <= j < (a + b).len() implies (#[trigger] (a + b)[j]).ten_cong_viec.len() > 0
            && (a + b)[j].source_file == path && (a + b)[j].source_sheet == sheet by {
            if j < a.len() {
                assert((a + b)[j] == a[j]);
            } else {
                assert((a + b)[j] == b[j - a.len()]);
            }
        }
    }
}

/// Parsing a block never yields a record with a blank name; every record
/// names the file and sheet it came from; the confidence is at most full,
/// and a table counts as deviant only below five sixths.
pub proof fn law_sheet_records_are_named<Q>(
    v: SheetView<Q>,
    manual: Option<MappingView>,
    path: Seq<char>,
    sheet: Seq<char>,
)
    ensures
        well_named(sheet_outcome(v, manual, path, sheet).0, path, sheet),
        sheet_outcome(v, manual, path, sheet).1.confidence_sixths <= 6,
        sheet_outcome(v, manual, path, sheet).1.is_deviant ==> sheet_outcome(
            v,
            manual,
            path,
            sheet,
        ).1.confidence_sixths < 5,
{
    match manual {
        Some(m) => match first_data_row(v.rows, m) {
            Some(f) => lemma_mapped_well_named(v.rows, m, path, sheet, f, v.rows.len() as int),
            None => {},
        },
        None => {},
    }
    match header_of(v) {
        Some((h, maps, score)) => {
            crate::header::law_header_row_is_first_best(v.rows);
            crate::header::lemma_row_score_bounds(v.rows[h], v.rows[h].len() as int);
            lemma_table_well_named(v.rows, maps, manual, path, sheet, h + 1, v.rows.len() as int);
        },
        None => {},
    }
    lemma_scattered_well_named(v, v.rows.len() as int, path, sheet);
}

/// A workbook that yields records has valid data.
pub proof fn law_records_mean_valid_data<Q>(
    sheets: Seq<(Seq<char>, SheetView<Q>)>,
    manual: Option<MappingView>,
    skip: int,
    path: Seq<char>,
)
    ensures
        workbook_outcome(sheets, manual, skip, path).0.len() > 0 ==> workbook_outcome(
            sheets,
            manual,
            skip,
            path,
        ).1.has_valid_data,
{
}

} // verus!
