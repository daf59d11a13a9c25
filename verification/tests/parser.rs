use excel_engine::models::{Cell, ColumnMapping, Quantity, TextMap};
use excel_engine::parser::ExcelParser;
use excel_engine::sheet::{decimal_text, Sheet};

fn text(s: &str) -> Cell<f64> {
    Cell { text: Some(s.to_string()), number: None }
}

fn num(v: f64) -> Cell<f64> {
    Cell {
        text: Some(v.to_string()),
        number: Some(Quantity { value: v, near_zero: v.abs() < 1e-3, positive: v > 0.0 }),
    }
}

fn empty() -> Cell<f64> {
    Cell { text: None, number: None }
}

fn sheet(rows: Vec<Vec<Cell<f64>>>) -> Sheet<f64> {
    Sheet { first_row: 0, first_col: 0, rows }
}

fn table() -> Sheet<f64> {
    sheet(vec![
        vec![text("STT"), text("Tên công việc"), text("Đơn vị"), text("Khối lượng")],
        vec![text("1"), text("  Cáp đồng "), text("m"), num(12.5)],
        vec![text("2"), text("   "), text("m"), num(3.0)],
        vec![text("3"), text("Ống nhựa"), text("cái"), num(0.0)],
        vec![text("4"), text("Dây"), empty(), empty()],
    ])
}

#[test]
fn parse_sheet_with_detected_header() {
    let (records, analysis) = ExcelParser::parse_sheet(&table(), &None, 0, "a.xlsx", "Sheet1");
    assert_eq!(records.len(), 3);
    assert_eq!(records[0].stt, "1");
    assert_eq!(records[0].ten_cong_viec, "Cáp đồng");
    assert_eq!(records[0].don_vi, "m");
    assert_eq!(records[0].khoi_luong.map(|q| q.value), Some(12.5));
    assert_eq!(records[0].source_file, "a.xlsx");
    assert_eq!(records[0].source_sheet, "Sheet1");
    assert_eq!(records[1].ten_cong_viec, "Ống nhựa");
    assert_eq!(records[2].don_vi, "");
    assert!(records[2].khoi_luong.is_none());
    assert_eq!(analysis.confidence_sixths, 6);
    assert!(!analysis.is_deviant);
    assert!(analysis.has_zero_data);
    assert!(analysis.has_valid_data);
    assert_eq!(analysis.header_row, Some(0));
    assert_eq!(analysis.reason, "Successfully parsed with standard structure");
}

#[test]
fn parse_sheet_low_confidence_is_deviant() {
    let s = sheet(vec![
        vec![text("x"), text("y"), text("KL")],
        vec![text("Cáp"), text("z"), num(2.0)],
    ]);
    let (records, analysis) = ExcelParser::parse_sheet(&s, &None, 0, "f", "S");
    assert_eq!(records.len(), 1);
    assert_eq!(records[0].ten_cong_viec, "Cáp");
    assert_eq!(analysis.confidence_sixths, 3);
    assert!(analysis.is_deviant);
    assert_eq!(analysis.reason, "Table found but structure is non-standard (low confidence)");
}

#[test]
fn parse_sheet_header_without_rows() {
    let s = sheet(vec![vec![text("STT"), text("Tên"), text("ĐVT"), text("Khối lượng")]]);
    let (records, analysis) = ExcelParser::parse_sheet(&s, &None, 0, "f", "S");
    assert!(records.is_empty());
    assert_eq!(analysis.reason, "Header found but no data rows match filters");
    assert_eq!(analysis.confidence_sixths, 6);
    assert!(!analysis.has_valid_data);
}

#[test]
fn parse_sheet_with_manual_mapping() {
    let mut m = ColumnMapping::new();
    m.name = Some(1);
    m.qty = Some(3);
    let (records, analysis) = ExcelParser::parse_sheet(&table(), &Some(m), 0, "f", "S");
    // Data starts at the first row with a name and a numeric quantity, so
    // the header row yields nothing.
    assert_eq!(records.len(), 3);
    assert_eq!(records[0].ten_cong_viec, "Cáp đồng");
    assert_eq!(records[0].stt, "");
    assert_eq!(records[1].ten_cong_viec, "Ống nhựa");
    assert_eq!(records[2].ten_cong_viec, "Dây");
    assert!(records[2].khoi_luong.is_none());
    assert_eq!(analysis.confidence_sixths, 6);
    assert_eq!(analysis.reason, "Parsed using provided mapping/template");
    assert_eq!(analysis.header_row, None);
}

#[test]
fn manual_mapping_skips_header_row() {
    let s = sheet(vec![vec![text("Tên"), text("Khối lượng")], vec![text("Cáp đồng"), num(2.0)]]);
    let mut m = ColumnMapping::new();
    m.name = Some(0);
    m.qty = Some(1);
    let (records, analysis) = ExcelParser::parse_sheet(&s, &Some(m), 0, "a.xlsx", "S1");
    assert_eq!(records.len(), 1);
    assert_eq!(records[0].stt, "");
    assert_eq!(records[0].ten_cong_viec, "Cáp đồng");
    assert_eq!(records[0].don_vi, "");
    assert_eq!(records[0].khoi_luong.map(|q| q.value), Some(2.0));
    assert_eq!(records[0].source_file, "a.xlsx");
    assert_eq!(records[0].source_sheet, "S1");
    assert_eq!(analysis.confidence_sixths, 6);
    assert_eq!(analysis.reason, "Parsed using provided mapping/template");
    assert!(!analysis.has_zero_data);
    assert!(analysis.has_valid_data);
}

#[test]
fn manual_mapping_without_data_rows_falls_back_to_header() {
    let s = sheet(vec![
        vec![text("Tên"), text("ĐVT"), text("Khối lượng")],
        vec![text("Cáp"), text("m"), empty()],
    ]);
    let mut m = ColumnMapping::new();
    m.name = Some(0);
    m.qty = Some(2);
    let (records, analysis) = ExcelParser::parse_sheet(&s, &Some(m), 0, "f", "S");
    assert_eq!(records.len(), 1);
    assert_eq!(records[0].ten_cong_viec, "Cáp");
    assert_eq!(analysis.header_row, Some(0));
}

#[test]
fn parse_sheet_manual_overlay_moves_columns() {
    let mut m = ColumnMapping::new();
    m.unit = Some(0);
    let (records, _) = ExcelParser::parse_sheet(&table(), &Some(m), 0, "f", "S");
    assert_eq!(records[0].don_vi, "1");
}

#[test]
fn parse_sheet_scattered() {
    let s = sheet(vec![
        vec![text("Báo cáo"), empty(), empty(), empty()],
        vec![text("Nội dung:"), text("Lắp đặt cột"), text("x"), num(7.0)],
        vec![text("Tên"), empty(), empty(), num(-1.0)],
        vec![text("Đèn"), empty(), empty(), empty()],
    ]);
    let (records, analysis) = ExcelParser::parse_sheet(&s, &None, 0, "f", "S");
    assert_eq!(records.len(), 1);
    assert_eq!(records[0].ten_cong_viec, "Lắp đặt cột");
    assert_eq!(records[0].khoi_luong.map(|q| q.value), Some(7.0));
    assert_eq!(analysis.confidence_sixths, 3);
    assert_eq!(analysis.reason, "Parsed using scattered data discovery");
    assert!(analysis.has_valid_data);
}

#[test]
fn scattered_name_below_label_in_offset_block() {
    let s = Sheet {
        first_row: 3,
        first_col: 0,
        rows: vec![vec![text("Tên"), empty(), num(5.0)], vec![text("Cáp đồng"), empty(), empty()]],
    };
    let records = ExcelParser::parse_scattered(&s, "f", "S");
    assert_eq!(records.len(), 1);
    assert_eq!(records[0].stt, "");
    assert_eq!(records[0].ten_cong_viec, "Cáp đồng");
    assert_eq!(records[0].don_vi, "");
    assert_eq!(records[0].khoi_luong.map(|q| q.value), Some(5.0));
}

#[test]
fn parse_sheet_nothing_found() {
    let s = sheet(vec![vec![text("a"), text("b")]]);
    let (records, analysis) = ExcelParser::parse_sheet(&s, &None, 0, "f", "S");
    assert!(records.is_empty());
    assert_eq!(analysis.reason, "Sheet processed");
    assert_eq!(analysis.confidence_sixths, 0);
}

#[test]
fn parse_sheet_skips_rows_by_absolute_position() {
    let s = sheet(vec![
        vec![text("Tiêu đề"), empty(), empty()],
        vec![text("Tên"), text("ĐVT"), text("Khối lượng")],
        vec![text("Cáp"), text("m"), num(4.0)],
    ]);
    let (records, analysis) = ExcelParser::parse_sheet(&s, &None, 1, "f", "S");
    assert_eq!(records.len(), 1);
    assert_eq!(analysis.header_row, Some(0));
}

#[test]
fn parse_workbook_takes_most_confident_sheet() {
    let low = sheet(vec![vec![text("x"), text("y"), text("KL")], vec![text("A"), text("b"), num(1.0)]]);
    let sheets = vec![("Low".to_string(), low), ("Full".to_string(), table())];
    let (records, analysis) = ExcelParser::parse("book.xlsx", &sheets, &None, 0);
    assert_eq!(records.len(), 4);
    assert_eq!(records[0].source_sheet, "Low");
    assert_eq!(records[1].source_sheet, "Full");
    assert_eq!(analysis.confidence_sixths, 6);
    assert!(analysis.has_valid_data);
}

#[test]
fn parse_workbook_without_data() {
    let sheets: Vec<(String, Sheet<f64>)> = vec![];
    let (records, analysis) = ExcelParser::parse("book.xlsx", &sheets, &None, 0);
    assert!(records.is_empty());
    assert_eq!(analysis.reason, "Could not identify any valid data in any sheet");
}

#[test]
fn headers_and_template_of_first_sheet() {
    let headers = ExcelParser::get_headers(&Some(table()), 0);
    assert_eq!(headers, vec!["STT", "Tên công việc", "Đơn vị", "Khối lượng"]);
    let none: Option<Sheet<f64>> = None;
    assert!(ExcelParser::get_headers(&none, 0).is_empty());
    let m = ExcelParser::get_template_mapping(&Some(table()), 0).unwrap();
    assert_eq!((m.stt, m.name, m.unit, m.qty), (Some(0), Some(1), Some(2), Some(3)));
}

#[test]
fn apply_manual_overlay_prefers_user_columns() {
    let mut base = ColumnMapping::new();
    base.name = Some(1);
    base.qty = Some(3);
    base.detected_names.insert("qty".to_string(), "KL".to_string());
    let mut user = ColumnMapping::new();
    user.qty = Some(5);
    user.detected_names = TextMap::from_pairs(vec![("qty".to_string(), "Số lượng".to_string())]);
    let m = ExcelParser::apply_manual_overlay(&base, &Some(user));
    assert_eq!((m.name, m.qty), (Some(1), Some(5)));
    assert_eq!(m.detected_names.pairs().len(), 1);
    assert_eq!(m.detected_names.pairs()[0].1, "Số lượng");
}

#[test]
fn decimal_text_conventions() {
    assert_eq!(decimal_text("1.234.567,89"), Some("1234567.89".to_string()));
    assert_eq!(decimal_text("1,234,567.89"), Some("1234567.89".to_string()));
    assert_eq!(decimal_text("1.234,5"), Some("1234.5".to_string()));
    assert_eq!(decimal_text("1,234.5"), Some("1234.5".to_string()));
    assert_eq!(decimal_text(" 1,5 "), Some("1.5".to_string()));
    assert_eq!(decimal_text("1,000"), Some("1000".to_string()));
    assert_eq!(decimal_text("1,00"), Some("1.00".to_string()));
    assert_eq!(decimal_text("1,000,000"), Some("1.000.000".to_string()));
    assert_eq!(decimal_text("12.5"), Some("12.5".to_string()));
    assert_eq!(decimal_text("   "), None);
}
