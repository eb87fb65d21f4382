use grapher::evaluator::string_to_operator;
use grapher::operator::Operator;
use grapher::token::Token;
use grapher::tokenizer::TokenizeError;
use grapher::value::{Numeral, Value};

fn numeral(n: &Numeral) -> String {
    format!("{}{}", if n.negative { "-" } else { "" }, n.text)
}

/// A compact rendering of a tree: numbers as `re|im`, names by their symbol,
/// operators as `symbol(operands)`.
fn render(op: &Operator) -> String {
    match &op.values {
        Value::Number(c) => format!("{}|{}", numeral(&c.re), numeral(&c.im)),
        Value::Real(n) => format!("R{}", numeral(n)),
        Value::Imag(n) => format!("I{}", numeral(n)),
        Value::Op(ops) => {
            if op.token_type == Token::ID {
                op.symbol.clone()
            } else {
                let parts: Vec<String> = ops.0.iter().map(render).collect();
                format!("{}({})", op.symbol, parts.join(","))
            }
        }
    }
}

fn read(input: &str) -> Result<Option<String>, TokenizeError> {
    string_to_operator(input.to_string()).map(|t| t.map(|op| render(&op)))
}

#[test]
fn sum_of_numbers() {
    assert_eq!(read("1+2"), Ok(Some("+(1|0,2|0)".to_string())));
}

#[test]
fn product_binds_tighter() {
    assert_eq!(read("1+2*3"), Ok(Some("+(1|0,*(2|0,3|0))".to_string())));
    assert_eq!(read("1*2+3"), Ok(Some("+(*(1|0,2|0),3|0)".to_string())));
}

#[test]
fn equal_precedence_groups_to_the_left() {
    assert_eq!(read("1-2-3"), Ok(Some("-(-(1|0,2|0),3|0)".to_string())));
    assert_eq!(read("8-4-2"), Ok(Some("-(-(8|0,4|0),2|0)".to_string())));
    assert_eq!(read("8/4/2"), Ok(Some("/(/(8|0,4|0),2|0)".to_string())));
    assert_eq!(read("1-2+3"), Ok(Some("+(-(1|0,2|0),3|0)".to_string())));
    assert_eq!(read("1*2/3"), Ok(Some("/(*(1|0,2|0),3|0)".to_string())));
}

#[test]
fn powers_group_to_the_right() {
    assert_eq!(read("2^3^2"), Ok(Some("^(2|0,^(3|0,2|0))".to_string())));
}

#[test]
fn parentheses_group() {
    assert_eq!(read("(1+2)*3"), Ok(Some("*(+(1|0,2|0),3|0)".to_string())));
}

#[test]
fn function_of_a_name() {
    assert_eq!(read("sin(x)"), Ok(Some("sin(x)".to_string())));
    assert_eq!(read("sqrt(x)"), Ok(Some("sqrt(x)".to_string())));
    assert_eq!(read("sqrt x"), Ok(Some("sqrtx".to_string())));
}

#[test]
fn implicit_products() {
    assert_eq!(read("2x"), Ok(Some("*(2|0,x)".to_string())));
    assert_eq!(read("2(x)"), Ok(Some("*(2|0,x)".to_string())));
    assert_eq!(read("x(y)"), Ok(Some("*(x,y)".to_string())));
}

#[test]
fn leading_minus_negates() {
    assert_eq!(read("-3"), Ok(Some("-3|0".to_string())));
    assert_eq!(read("-x"), Ok(Some("*(-1|0,x)".to_string())));
    assert_eq!(read("-(x)"), Ok(Some("*(-1|0,x)".to_string())));
}

#[test]
fn complex_numbers_join() {
    assert_eq!(read("1+2i"), Ok(Some("1|2".to_string())));
    assert_eq!(read("2i+1"), Ok(Some("1|2".to_string())));
    assert_eq!(read("1-2i"), Ok(Some("1|-2".to_string())));
    assert_eq!(read("3i"), Ok(Some("0|3".to_string())));
    assert_eq!(read("x*(1+2i)"), Ok(Some("*(x,1|2)".to_string())));
}

#[test]
fn minus_joins_keep_the_leading_sign() {
    assert_eq!(read("-2-3i"), Ok(Some("-2|-3".to_string())));
    assert_eq!(read("-2i-3"), Ok(Some("-3|-2".to_string())));
    assert_eq!(read("2i-3"), Ok(Some("-3|2".to_string())));
    assert_eq!(read("2-3i-4"), Ok(Some("-(2|-3,4|0)".to_string())));
}

#[test]
fn complex_literal_symbol_is_left_to_the_printer() {
    let op = string_to_operator("1+2i".to_string()).unwrap().unwrap();
    assert_eq!(op.token_type, Token::Num);
    assert!(op.symbol_from_value);
    assert_eq!(op.symbol, "");
}

#[test]
fn rejected_joins_report_grammar() {
    assert_eq!(read("1+2-3i"), Err(TokenizeError::Grammar));
}

#[test]
fn unreadable_number_reports_numeral() {
    assert_eq!(read("\u{0661}"), Err(TokenizeError::Numeral));
}

#[test]
fn malformed_lines_give_no_tree() {
    assert_eq!(read(""), Ok(None));
    assert_eq!(read("1+"), Ok(None));
    assert_eq!(read("(1"), Ok(None));
    assert_eq!(read("1)"), Ok(None));
    assert_eq!(read("x1"), Ok(None));
    assert_eq!(read("1 2"), Ok(Some("12|0".to_string())));
}

#[test]
fn single_number() {
    assert_eq!(read("42"), Ok(Some("42|0".to_string())));
}

#[test]
fn constant_names_stay_names_until_flattened() {
    assert_eq!(read("pi"), Ok(Some("pi".to_string())));
}
