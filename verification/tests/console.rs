use khawrizm::console::{console_step, ConsoleAction};
use khawrizm::grid::{CellValue, XcvSheet};

fn shown(a: ConsoleAction) -> String {
    match a {
        ConsoleAction::Show(s) => s,
        _ => panic!("expected a message"),
    }
}

#[test]
fn set_eval_exit() {
    let mut sheet = XcvSheet::new("Live_Sheet");
    assert!(matches!(console_step(&mut sheet, "   "), ConsoleAction::Skip));
    assert_eq!(shown(console_step(&mut sheet, "set a1 =SUM( B1 )")), "[+] Cell A1 updated.");
    assert_eq!(sheet.get_cell("A1"), CellValue::Formula("=SUM( B1 )".to_string()));
    assert_eq!(shown(console_step(&mut sheet, "SET b2 hello   world")), "[+] Cell B2 updated.");
    assert_eq!(sheet.get_cell("b2"), CellValue::Text("hello world".to_string()));
    match console_step(&mut sheet, "eval a1") {
        ConsoleAction::Evaluate(f) => assert_eq!(f, "=SUM( B1 )"),
        _ => panic!("expected a formula"),
    }
    assert!(matches!(console_step(&mut sheet, "EVAL b2"), ConsoleAction::Skip));
    assert!(matches!(console_step(&mut sheet, "exit now"), ConsoleAction::Exit));
}

#[test]
fn malformed_commands_are_unknown() {
    let mut sheet = XcvSheet::new("S");
    assert_eq!(shown(console_step(&mut sheet, "SET a1")), "[!] Unknown command.");
    assert_eq!(shown(console_step(&mut sheet, "EVAL")), "[!] Unknown command.");
    assert_eq!(shown(console_step(&mut sheet, "EVAL a1 b1")), "[!] Unknown command.");
    assert_eq!(shown(console_step(&mut sheet, "PRINT")), "[!] Unknown command.");
    assert_eq!(sheet.get_cell("A1"), CellValue::Empty);
}

#[test]
fn words_split_at_any_unicode_white_space() {
    let mut sheet = XcvSheet::new("S");
    assert_eq!(shown(console_step(&mut sheet, "\u{3000}set\u{A0}c3\u{2003}a\tb ")), "[+] Cell C3 updated.");
    assert_eq!(sheet.get_cell("C3"), CellValue::Text("a b".to_string()));
}
