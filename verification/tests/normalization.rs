use excel_engine::normalization::Normalizer;

#[test]
fn test_normalization() {
    let norm = Normalizer::new(true);

    // Case and Trim
    assert_eq!(norm.normalize("  CÁP ĐỒNG  "), "cáp đồng");

    // Number stripping
    assert_eq!(norm.normalize("1.1 Cáp đồng"), "cáp đồng");
    assert_eq!(norm.normalize("a. Cáp đồng"), "cáp đồng");
    assert_eq!(norm.normalize("IV. Cáp đồng"), "cáp đồng");

    // Vietnamese NFC: decomposed and precomposed forms agree
    let v1 = "Bo\u{0301}ng \u{0111}e\u{0300}n";
    let v2 = "B\u{00f3}ng \u{0111}\u{00e8}n";
    assert_eq!(norm.normalize(v1), norm.normalize(v2));

    // Whitespace cleanup
    assert_eq!(norm.normalize("Cáp   \n   đồng"), "cáp đồng");
}

#[test]
fn normalization_keeps_markers_when_not_stripping() {
    let norm = Normalizer::new(false);
    assert_eq!(norm.normalize("  1.1   Cáp\u{00a0}ĐỒNG "), "1.1 cáp đồng");
}

#[test]
fn normalization_strips_parenthesised_letter_marker() {
    let norm = Normalizer::new(true);
    assert_eq!(norm.normalize("b) Ống nhựa"), "ống nhựa");
    assert_eq!(norm.normalize("12.3.4   Dây điện"), "dây điện");
}

#[test]
fn normalization_of_blank_text_is_empty() {
    let norm = Normalizer::new(true);
    assert_eq!(norm.normalize(" \t\n "), "");
}
