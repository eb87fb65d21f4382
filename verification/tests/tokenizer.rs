use grapher::abstract_syntax_tree::AbstractSyntaxTree;
use grapher::op_vec::OpVec;
use grapher::operator::Operator;
use grapher::scanner;
use grapher::token::Token;
use grapher::tokenizer::{apply_partial_grammar, to_tokens, tokenize, TokenizeError};
use grapher::value::{Numeral, Value};

fn strings(items: &[&str]) -> Vec<String> {
    items.iter().map(|s| s.to_string()).collect()
}

fn kinds(ops: &OpVec) -> Vec<Token> {
    ops.0.iter().map(|o| o.token_type).collect()
}

fn real_num(text: &str) -> Operator {
    Operator::from_value(Value::Real(Numeral { negative: false, text: text.to_string() }))
}

fn imag_num(text: &str) -> Operator {
    Operator::from_value(Value::Imag(Numeral { negative: false, text: text.to_string() }))
}

#[test]
fn lexemes_become_tokens() {
    let ts = to_tokens(strings(&["x_{1}", "+", "sin", "(", "2.5", ")", "3i", "?"])).unwrap();
    assert_eq!(
        kinds(&ts),
        vec![Token::ID, Token::Add, Token::Sin, Token::OpenPar, Token::Num, Token::ClosePar, Token::Num]
    );
    assert_eq!(ts.0[0].symbol, "x_{1}");
    assert_eq!(ts.0[4].symbol, "2.5");
    match &ts.0[4].values {
        Value::Real(n) => assert_eq!(n.text, "2.5"),
        _ => panic!("a real number"),
    }
    match &ts.0[6].values {
        Value::Imag(n) => assert_eq!(n.text, "3"),
        _ => panic!("an imaginary number"),
    }
}

#[test]
fn unreadable_digits_are_refused() {
    assert_eq!(to_tokens(strings(&["1", "\u{0663}"])).err(), Some(TokenizeError::Numeral));
}

#[test]
fn grammar_negates_and_joins() {
    let mut inp = OpVec::new();
    inp.push(Operator::from_token(Token::Sub));
    inp.push(real_num("2"));
    inp.push(Operator::from_token(Token::Add));
    inp.push(imag_num("3"));
    let out = apply_partial_grammar(inp).unwrap();
    assert_eq!(kinds(&out), vec![Token::Num, Token::END]);
    match &out.0[0].values {
        Value::Number(c) => {
            assert!(c.re.negative);
            assert_eq!(c.re.text, "2");
            assert!(!c.im.negative);
            assert_eq!(c.im.text, "3");
        }
        _ => panic!("a complex number"),
    }
}

#[test]
fn grammar_merges_the_negated_number() {
    let mut inp = OpVec::new();
    inp.push(Operator::from_token(Token::Sub));
    inp.push(real_num("2"));
    inp.push(Operator::from_token(Token::Sub));
    inp.push(imag_num("3"));
    let out = apply_partial_grammar(inp).unwrap();
    assert_eq!(kinds(&out), vec![Token::Num, Token::END]);
    match &out.0[0].values {
        Value::Number(c) => {
            assert!(c.re.negative);
            assert_eq!(c.re.text, "2");
            assert!(c.im.negative);
            assert_eq!(c.im.text, "3");
        }
        _ => panic!("a complex number"),
    }
}

#[test]
fn grammar_inserts_products() {
    let mut inp = OpVec::new();
    inp.push(real_num("2"));
    inp.push(Operator::from_token(Token::ID));
    inp.push(Operator::from_token(Token::OpenPar));
    inp.push(Operator::from_token(Token::ClosePar));
    let out = apply_partial_grammar(inp).unwrap();
    assert_eq!(
        kinds(&out),
        vec![Token::Num, Token::Mult, Token::ID, Token::Mult, Token::OpenPar, Token::ClosePar, Token::END]
    );
}

#[test]
fn grammar_minus_before_parenthesis() {
    let mut inp = OpVec::new();
    inp.push(Operator::from_token(Token::Mult));
    inp.push(Operator::from_token(Token::Sub));
    inp.push(Operator::from_token(Token::OpenPar));
    let out = apply_partial_grammar(inp).unwrap();
    assert_eq!(
        kinds(&out),
        vec![Token::Mult, Token::Num, Token::Mult, Token::OpenPar, Token::END]
    );
}

#[test]
fn grammar_refuses_a_complex_beside_a_number() {
    let mut inp = OpVec::new();
    inp.push(real_num("1"));
    inp.push(Operator::from_token(Token::Add));
    inp.push(real_num("2"));
    inp.push(Operator::from_token(Token::Sub));
    inp.push(imag_num("3"));
    assert!(apply_partial_grammar(inp).is_none());
}

#[test]
fn tokenize_ends_with_end() {
    let ts = tokenize(strings(&["1", "+", "x"])).unwrap();
    assert_eq!(kinds(&ts), vec![Token::Num, Token::Add, Token::ID, Token::END]);
    let empty = tokenize(Vec::new()).unwrap();
    assert_eq!(kinds(&empty), vec![Token::END]);
}

#[test]
fn tokenize_reports_grammar() {
    assert_eq!(
        tokenize(strings(&["1", "+", "2", "-", "3i"])).err(),
        Some(TokenizeError::Grammar)
    );
}

#[test]
fn parser_reads_a_stream() {
    let ts = tokenize(strings(&["x", "^", "2"])).unwrap();
    let mut tree = AbstractSyntaxTree::default();
    let t = tree.from_shunting_yard(ts).unwrap();
    assert_eq!(t.token_type, Token::Pow);
    assert_eq!(tree.value.token_type, Token::Pow);
    assert_eq!(tree.value().token_type, Token::Pow);
}

#[test]
fn parser_needs_more_than_one_token() {
    let mut tree = AbstractSyntaxTree::default();
    let mut one = OpVec::new();
    one.push(Operator::from_token(Token::END));
    assert!(tree.from_shunting_yard(one).is_none());
}

#[test]
fn short_stream_leaves_a_used_parser_as_it_was() {
    let ts = tokenize(strings(&["x", "+", "1"])).unwrap();
    let mut tree = AbstractSyntaxTree::default();
    assert!(tree.from_shunting_yard(ts).is_some());
    assert!(tree.from_shunting_yard(OpVec::new()).is_none());
    assert_eq!(tree.value().token_type, Token::Add);
}

#[test]
fn a_used_parser_reads_a_new_stream_from_its_start() {
    let mut tree = AbstractSyntaxTree::default();
    assert!(tree.from_shunting_yard(tokenize(strings(&["(", "x"])).unwrap()).is_none());
    let t = tree.from_shunting_yard(tokenize(strings(&["x", "*", "2"])).unwrap()).unwrap();
    assert_eq!(t.token_type, Token::Mult);
    let u = tree.from_shunting_yard(tokenize(strings(&["y"])).unwrap()).unwrap();
    assert_eq!(u.token_type, Token::ID);
    assert_eq!(u.symbol, "y");
}

#[test]
fn parser_refuses_unclosed_parenthesis() {
    let ts = tokenize(strings(&["(", "x"])).unwrap();
    let mut tree = AbstractSyntaxTree::default();
    assert!(tree.from_shunting_yard(ts).is_none());
}

#[test]
fn pattern_scanner_splits() {
    let got = scanner::scan("2x+1".to_string()).unwrap();
    assert_eq!(got, vec!["2", "x", "+", "1"]);
    let spaced = scanner::scan("a  b".to_string()).unwrap();
    assert_eq!(spaced, vec!["ab"]);
    assert_eq!(scanner::scan(String::new()).unwrap(), vec![""]);
}

#[test]
fn pattern_classes() {
    assert_eq!(scanner::char_type("7"), Some(6));
    assert_eq!(scanner::char_type("x"), Some(2));
    assert_eq!(scanner::char_type("+"), Some(1));
    assert_eq!(scanner::char_type("i"), Some(6));
    assert_eq!(scanner::string_type("12.5i"), Some(4));
    assert_eq!(scanner::string_type("x_{a}"), Some(2));
    assert_eq!(scanner::string_type("*"), Some(1));
    assert_eq!(scanner::string_type("x+"), Some(8));
}

#[test]
fn pattern_scanner_keeps_the_text() {
    for line in ["sin(2x) + 3.5i*y_{1}", "  a\tb\n", "(1-2)^x"] {
        let got = scanner::scan(line.to_string()).unwrap();
        let kept: String = line.chars().filter(|c| !c.is_whitespace()).collect();
        assert_eq!(got.concat(), kept, "{}", line);
    }
}

#[test]
fn class_answers_to_bits() {
    assert_eq!(scanner::class_bits(true, true, false), 6);
    assert_eq!(scanner::class_bits(false, false, true), 1);
    assert_eq!(scanner::lexeme_class(false, false, false), 8);
    assert_eq!(scanner::lexeme_class(true, false, false), 4);
    assert!(scanner::joins_lexeme(2, 6, false));
    assert!(!scanner::joins_lexeme(4, 2, false));
    assert!(scanner::joins_lexeme(4, 2, true));
}
