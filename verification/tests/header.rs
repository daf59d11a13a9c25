use excel_engine::models::Cell;
use excel_engine::parser::ExcelParser;
use excel_engine::sheet::Sheet;

fn text(s: &str) -> Cell<f64> {
    Cell { text: Some(s.to_string()), number: None }
}

fn empty() -> Cell<f64> {
    Cell { text: None, number: None }
}

#[test]
fn test_find_multi_columns() {
    // STT | Name | Unit | Qty | STT | Name | Unit | Qty, over two rows
    let first = vec![
        text("STT"),
        text("Tên"),
        text("ĐVT"),
        text("Khối lượng"),
        text("STT"),
        text("Tên"),
        text("ĐVT"),
        text("Khối lượng"),
    ];
    let second = (0..8).map(|_| empty()).collect::<Vec<_>>();
    let range = Sheet { first_row: 0, first_col: 0, rows: vec![first, second] };
    assert!(range.is_well_formed());

    let result = ExcelParser::find_header_and_cols(&range);
    assert!(result.is_some());
    let (_, mappings, _) = result.unwrap();
    assert_eq!(mappings.len(), 2);
    assert_eq!(mappings[0].qty, Some(3));
    assert_eq!(mappings[1].qty, Some(7));
}

#[test]
fn header_columns_and_score() {
    let rows = vec![
        vec![text("Bảng tổng hợp"), empty(), empty(), empty()],
        vec![text("STT"), text("Tên công việc"), text("Đơn vị"), text("Khối lượng")],
    ];
    let sheet = Sheet { first_row: 0, first_col: 0, rows };
    let (row, mappings, score) = ExcelParser::find_header_and_cols(&sheet).unwrap();
    assert_eq!(row, 1);
    assert_eq!(score, 7);
    assert_eq!(mappings.len(), 1);
    let m = &mappings[0];
    assert_eq!((m.stt, m.name, m.unit, m.qty), (Some(0), Some(1), Some(2), Some(3)));
    let names = m.detected_names.pairs();
    let get = |k: &str| names.iter().find(|(a, _)| a == k).map(|(_, b)| b.clone());
    assert_eq!(get("qty"), Some("Khối lượng".to_string()));
    assert_eq!(get("stt"), Some("STT".to_string()));
    assert_eq!(get("name"), Some("Tên công việc".to_string()));
    assert_eq!(get("unit"), Some("Đơn vị".to_string()));
}

#[test]
fn header_falls_back_to_neighbour_name() {
    let rows = vec![vec![text("x"), text("y"), text("z"), text("SL")]];
    let sheet = Sheet { first_row: 0, first_col: 0, rows };
    let (row, mappings, score) = ExcelParser::find_header_and_cols(&sheet).unwrap();
    assert_eq!(row, 0);
    assert_eq!(score, 3);
    assert_eq!(mappings[0].name, Some(1));
    let names = mappings[0].detected_names.pairs();
    assert!(names.iter().any(|(k, v)| k == "name" && v == "Neighbor(-2)"));
}

#[test]
fn header_drops_anchor_without_name() {
    let rows = vec![vec![text("SL"), text("x")]];
    let sheet = Sheet { first_row: 0, first_col: 0, rows };
    assert!(ExcelParser::find_header_and_cols(&sheet).is_none());
}

#[test]
fn header_prefers_first_best_row() {
    let rows = vec![
        vec![text("a"), text("b"), text("KL")],
        vec![text("Tên"), text("ĐVT"), text("Khối lượng")],
        vec![text("Tên"), text("ĐVT"), text("Khối lượng")],
    ];
    let sheet = Sheet { first_row: 0, first_col: 0, rows };
    let (row, _, score) = ExcelParser::find_header_and_cols(&sheet).unwrap();
    assert_eq!(row, 1);
    assert_eq!(score, 6);
}

#[test]
fn header_found_anywhere_in_the_block() {
    let mut rows = Vec::new();
    for _ in 0..150 {
        rows.push(vec![empty(), empty(), empty()]);
    }
    rows.push(vec![text("Tên"), text("ĐVT"), text("Khối lượng")]);
    let sheet = Sheet { first_row: 0, first_col: 0, rows };
    let (row, mappings, score) = ExcelParser::find_header_and_cols(&sheet).unwrap();
    assert_eq!(row, 150);
    assert_eq!(score, 6);
    assert_eq!(mappings.len(), 1);
    assert_eq!(mappings[0].stt, None);
    assert_eq!(mappings[0].name, Some(0));
    assert_eq!(mappings[0].unit, Some(1));
    assert_eq!(mappings[0].qty, Some(2));
}

#[test]
fn header_prefers_better_row_far_below() {
    let mut rows = Vec::new();
    rows.push(vec![empty(), empty(), empty(), text("Tên"), empty(), text("Khối lượng")]);
    for _ in 0..120 {
        rows.push(vec![empty(), empty(), empty(), empty(), empty(), empty()]);
    }
    rows.push(vec![empty(), empty(), text("STT"), text("Tên"), text("ĐVT"), text("Khối lượng")]);
    let sheet = Sheet { first_row: 0, first_col: 0, rows };
    let (row, _, score) = ExcelParser::find_header_and_cols(&sheet).unwrap();
    assert_eq!(row, 121);
    assert_eq!(score, 7);
}
