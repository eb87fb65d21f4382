use grapher::lexer::scan;

fn lexemes(input: &str) -> Vec<String> {
    scan(input.to_string())
}

#[test]
fn empty_line_gives_signs() {
    assert_eq!(lexemes(""), vec!["", "+", "-"]);
}

#[test]
fn product_and_sum() {
    assert_eq!(lexemes("2x+1"), vec!["2", "x", "+", "1"]);
}

#[test]
fn function_call() {
    assert_eq!(lexemes("sin(x)"), vec!["sin", "(", "x", ")"]);
}

#[test]
fn spaces_are_dropped() {
    assert_eq!(lexemes("x y"), vec!["xy"]);
    assert_eq!(lexemes("  "), vec![""]);
    assert_eq!(lexemes(" 1 + 2 "), vec!["1", "+", "2"]);
}

#[test]
fn imaginary_number_is_one_lexeme() {
    assert_eq!(lexemes("3.5i"), vec!["3.5i"]);
}

#[test]
fn leading_minus() {
    assert_eq!(lexemes("-3"), vec!["-", "3"]);
}

#[test]
fn subscripted_name() {
    assert_eq!(lexemes("x_{1}*2"), vec!["x_{", "1", "}", "*", "2"]);
    assert_eq!(lexemes("x_{a}"), vec!["x_{a}"]);
}

#[test]
fn lexemes_keep_the_text() {
    for line in ["2x+1", "sin(x) * 3.5i", "a_{b} ^ (c-d)", "1 2 3"] {
        let joined: String = lexemes(line).concat();
        let expected: String = line.chars().filter(|c| *c != ' ').collect();
        assert_eq!(joined, expected);
    }
}
