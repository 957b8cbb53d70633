use khawrizm::grid::{CellValue, XcvSheet};

#[test]
fn new_sheet_reads_empty() {
    let sheet = XcvSheet::new("Live_Sheet");
    assert_eq!(sheet.name, "Live_Sheet");
    assert_eq!(sheet.get_cell("A1"), CellValue::Empty);
}

#[test]
fn read_after_write_is_case_insensitive() {
    let mut sheet = XcvSheet::new("S");
    sheet.set_cell("a1", CellValue::Text("hello".to_string()));
    assert_eq!(sheet.get_cell("A1"), CellValue::Text("hello".to_string()));
    assert_eq!(sheet.get_cell("a1"), CellValue::Text("hello".to_string()));
    assert_eq!(sheet.get_cell("B1"), CellValue::Empty);
}

#[test]
fn last_write_wins() {
    let mut sheet = XcvSheet::new("S");
    sheet.set_cell("B2", CellValue::Formula("=A1+1".to_string()));
    sheet.set_cell("b2", CellValue::Number(2.5f64.to_bits()));
    assert_eq!(sheet.get_cell("B2"), CellValue::Number(2.5f64.to_bits()));
    sheet.set_cell("C3", CellValue::Empty);
    assert_eq!(sheet.get_cell("B2"), CellValue::Number(2.5f64.to_bits()));
    assert_eq!(sheet.get_cell("c3"), CellValue::Empty);
    assert_eq!(sheet.name, "S");
}

#[test]
fn uppercase_keys_beyond_ascii() {
    let mut sheet = XcvSheet::new("S");
    sheet.set_cell("straße", CellValue::Text("x".to_string()));
    assert_eq!(sheet.get_cell("STRASSE"), CellValue::Text("x".to_string()));
}

#[test]
fn duplicate_copies_value() {
    let v = CellValue::Formula("=SUM(A1,A2)".to_string());
    assert_eq!(v.duplicate(), v);
}

#[test]
fn ascii_references_ignore_case() {
    let mut sheet = XcvSheet::new("S");
    sheet.set_cell("ab12", CellValue::Text("v".to_string()));
    assert_eq!(sheet.get_cell("AB12"), CellValue::Text("v".to_string()));
    assert_eq!(sheet.get_cell("aB12"), CellValue::Text("v".to_string()));
}

#[test]
fn sheet_name_is_the_given_name() {
    let mut sheet = XcvSheet::new("Quarterly");
    assert_eq!(sheet.sheet_name(), "Quarterly");
    sheet.set_cell("b2", CellValue::Text("x".to_string()));
    assert_eq!(sheet.sheet_name(), "Quarterly");
}
