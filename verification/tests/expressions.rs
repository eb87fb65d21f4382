use grapher::expressions::{is_alphabetic, is_number, is_numeric, is_operational, is_variable_id};

#[test]
fn alphabetic_runs_of_the_alphabet() {
    assert!(is_alphabetic("a"));
    assert!(is_alphabetic("ab"));
    assert!(is_alphabetic("zA"));
    assert!(is_alphabetic("Z"));
    assert!(!is_alphabetic("ba"));
    assert!(!is_alphabetic("1"));
}

#[test]
fn alphabetic_marks_and_empty() {
    assert!(is_alphabetic("_"));
    assert!(is_alphabetic("_{"));
    assert!(is_alphabetic("}"));
    assert!(!is_alphabetic("}_"));
    assert!(is_alphabetic(""));
}

#[test]
fn numeric_runs() {
    assert!(is_numeric("1"));
    assert!(is_numeric("12"));
    assert!(is_numeric("9i."));
    assert!(is_numeric("."));
    assert!(!is_numeric("21"));
    assert!(!is_numeric("x"));
    assert!(is_numeric(""));
}

#[test]
fn operational_runs() {
    assert!(is_operational("+"));
    assert!(is_operational("+-"));
    assert!(is_operational("^()"));
    assert!(!is_operational("-+"));
    assert!(!is_operational("="));
}

#[test]
fn variable_names() {
    assert!(is_variable_id(""));
    assert!(is_variable_id("x"));
    assert!(is_variable_id("xy"));
    assert!(is_variable_id("x_"));
    assert!(is_variable_id("x_{"));
    assert!(is_variable_id("x_{ab1"));
    assert!(is_variable_id("x_{1}"));
    assert!(!is_variable_id("_x"));
    assert!(!is_variable_id("x_1"));
    assert!(!is_variable_id("x_{1}a"));
    assert!(!is_variable_id("x_{_"));
    assert!(!is_variable_id("1"));
    assert!(!is_variable_id("x+"));
}

#[test]
fn number_shapes() {
    assert!(is_number(""));
    assert!(is_number("12"));
    assert!(is_number("12.5"));
    assert!(is_number(".5"));
    assert!(is_number("3i"));
    assert!(is_number("3ixx"));
    assert!(is_number("i"));
    assert!(!is_number("1.2.3"));
    assert!(!is_number("1..2"));
    assert!(!is_number("a"));
    assert!(!is_number("1a"));
}
