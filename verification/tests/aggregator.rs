use excel_engine::aggregator::Aggregator;
use excel_engine::models::{ExcelRecord, Quantity};

fn record(stt: &str, name: &str, unit: &str, qty: Option<f64>, file: &str) -> ExcelRecord<f64> {
    ExcelRecord {
        stt: stt.to_string(),
        ten_cong_viec: name.to_string(),
        don_vi: unit.to_string(),
        khoi_luong: qty.map(|v| Quantity { value: v, near_zero: v.abs() < 1e-3, positive: v > 0.0 }),
        source_file: file.to_string(),
        source_sheet: "S".to_string(),
    }
}

fn total(q: &[Option<f64>]) -> f64 {
    q.iter().fold(0.0, |acc, v| acc + v.unwrap_or(0.0))
}

#[test]
fn aggregator_groups_by_normalized_name_and_unit() {
    let mut agg = Aggregator::new();
    agg.add_records(vec![
        record("1", "Cáp đồng", "m", Some(2.0), "a.xlsx"),
        record("7", "1.1  CÁP ĐỒNG", " M ", Some(3.0), "b.xlsx"),
        record("2", "Ống nhựa", "m", Some(1.5), "a.xlsx"),
        record("9", "cáp đồng", "m", None, "a.xlsx"),
    ]);
    let items = agg.get_final_results();
    assert_eq!(items.len(), 2);
    let cap = &items[0];
    assert_eq!(cap.stt, "1");
    assert_eq!(cap.ten_cong_viec, "Cáp đồng");
    assert_eq!(cap.don_vi, "m");
    assert_eq!(cap.quantities, vec![Some(2.0), Some(3.0), None]);
    assert_eq!(total(&cap.quantities), 5.0);
    assert_eq!(cap.sources.len(), 2);
    assert_eq!(cap.sources[0].file, "a.xlsx");
    assert_eq!(cap.sources[0].quantities, vec![Some(2.0), None]);
    assert_eq!(cap.sources[1].file, "b.xlsx");
    assert_eq!(items[1].ten_cong_viec, "Ống nhựa");
}

#[test]
fn aggregator_batches_agree_with_single_pass() {
    let recs = || {
        vec![
            record("1", "A", "m", Some(1.0), "x"),
            record("2", "B", "kg", Some(2.0), "y"),
            record("3", "a", "M", Some(4.0), "y"),
        ]
    };
    let mut once = Aggregator::new();
    once.add_records(recs());
    let mut twice = Aggregator::new();
    let mut all = recs();
    let tail = all.split_off(1);
    twice.add_records(all);
    twice.add_records(tail);
    let a = once.get_final_results();
    let b = twice.get_final_results();
    assert_eq!(a.len(), b.len());
    for (x, y) in a.iter().zip(b.iter()) {
        assert_eq!(x.key_name, y.key_name);
        assert_eq!(x.key_unit, y.key_unit);
        assert_eq!(x.quantities, y.quantities);
        assert_eq!(x.sources.len(), y.sources.len());
    }
}

#[test]
fn aggregator_starts_empty() {
    let agg: Aggregator<f64> = Aggregator::new();
    assert!(agg.get_final_results().is_empty());
}
