use khawrizm::desktop::evaluate_xcv;
use khawrizm::desktop_ipc;

#[test]
fn evaluates_sum_sqrt_pi_and_matrix() {
    assert_eq!(evaluate_xcv("=sum(A1:A3)".to_string()), "TACO_EVAL: Math [SUM/∑] Processed");
    assert_eq!(evaluate_xcv(" ∑ x".to_string()), "TACO_EVAL: Math [SUM/∑] Processed");
    assert_eq!(evaluate_xcv("=Sqrt(9)".to_string()), "TACO_EVAL: Math [SQRT/√] Processed");
    assert_eq!(evaluate_xcv("√2".to_string()), "TACO_EVAL: Math [SQRT/√] Processed");
    assert_eq!(evaluate_xcv("2*pi".to_string()), "3.14159265359");
    assert_eq!(evaluate_xcv("  =matrix(2,2)".to_string()), "TACO_EVAL: Array/Matrix Processed");
}

#[test]
fn sum_wins_over_later_checks() {
    assert_eq!(evaluate_xcv("SQRT(SUM(PI))".to_string()), "TACO_EVAL: Math [SUM/∑] Processed");
}

#[test]
fn other_formulas_are_echoed_untrimmed() {
    assert_eq!(evaluate_xcv("  A1+B2 ".to_string()), "Evaluated:   A1+B2 ");
    assert_eq!(evaluate_xcv("x=MATRIX".to_string()), "Evaluated: x=MATRIX");
    assert_eq!(evaluate_xcv(String::new()), "Evaluated: ");
}

#[test]
fn ipc_entry_acknowledges() {
    assert_eq!(
        desktop_ipc::evaluate_xcv("=A1".to_string()),
        "XCV_RESULT: Processed '=A1' via Ring-0 Engine"
    );
}

#[test]
fn ascii_formulas_are_matched_in_uppercase() {
    assert_eq!(evaluate_xcv("=sqrt(pi)".to_string()), "TACO_EVAL: Math [SQRT/√] Processed");
    assert_eq!(evaluate_xcv("=pi".to_string()), "3.14159265359");
}
