use grapher::arity::Arities;
use grapher::evaluator::{analyse_parsed, string_to_operator};
use grapher::function::Function;
use grapher::op_vec::OpVec;
use grapher::operator::{constant, Operator};
use grapher::token::{operator_token, Token};
use grapher::value::{Complex, Numeral, Value};
use grapher::var_map::VarMap;

fn tree(input: &str) -> Operator {
    string_to_operator(input.to_string()).unwrap().unwrap()
}

fn operand_count(op: &Operator) -> Option<usize> {
    match &op.values {
        Value::Op(ops) => Some(ops.0.len()),
        _ => None,
    }
}

#[test]
fn fresh_operators_for_tokens() {
    let add = Operator::from_token(Token::Add);
    assert_eq!(add.arity, Arities::BINARY);
    assert_eq!(add.precedence, 4);
    assert_eq!(add.symbol, "+");
    assert_eq!(operand_count(&add), Some(2));

    let sin = Operator::from_token(Token::Sin);
    assert_eq!(sin.arity, Arities::UNARY);
    assert_eq!(sin.precedence, 2);
    assert_eq!(sin.symbol, "sin");
    assert_eq!(operand_count(&sin), Some(1));

    let pow = Operator::from_token(Token::Pow);
    assert_eq!(pow.precedence, 1);
    let mult = Operator::from_token(Token::Mult);
    assert_eq!(mult.precedence, 3);

    let open = Operator::from_token(Token::OpenPar);
    assert_eq!(open.arity, Arities::NULLARY);
    assert_eq!(open.precedence, 0);
    assert_eq!(operand_count(&open), Some(0));

    let end = Operator::from_token(Token::END);
    assert_eq!(end.symbol, "END");
    assert_eq!(end.precedence, 255);

    let num = Operator::from_token(Token::Num);
    assert_eq!(num.arity, Arities::UNARY);
    assert_eq!(num.symbol, "");
    match &num.values {
        Value::Number(c) => {
            assert_eq!(c.re.text, "0");
            assert_eq!(c.im.text, "0");
        }
        _ => panic!("a number token holds a number"),
    }
}

#[test]
fn default_operator_is_null() {
    let d = Operator::default();
    assert_eq!(d.token_type, Token::Null);
    assert_eq!(d.arity, Arities::NULLARY);
    assert_eq!(d.precedence, 255);
    assert_eq!(operand_count(&d), Some(0));
}

#[test]
fn from_value_makes_a_number() {
    let v = Value::Real(Numeral { negative: true, text: "2.5".to_string() });
    let op = Operator::from_value(v);
    assert_eq!(op.token_type, Token::Num);
    assert_eq!(op.values.get_type(), 1);
}

#[test]
fn constant_and_dependencies() {
    let t = tree("x*y+sin(z)");
    assert!(t.is_well_formed());
    assert!(!t.is_constant());
    assert_eq!(t.dependencies(), vec!["x", "y", "z"]);
    let c = tree("2*(3+4i)");
    assert!(c.is_constant());
    assert!(c.dependencies().is_empty());
    let repeated = tree("x+x");
    assert_eq!(repeated.dependencies(), vec!["x", "x"]);
}

#[test]
fn constant_exactly_when_no_dependencies() {
    for line in ["1", "x", "1+2", "x+1", "sin(2)", "sqrt(y)", "2(3)", "pi"] {
        let t = tree(line);
        assert_eq!(t.is_constant(), t.dependencies().is_empty(), "{}", line);
    }
}

#[test]
fn flatten_puts_in_variables_and_constants() {
    let mut vars = VarMap::new();
    vars.insert("x".to_string(), tree("2"));
    let t = tree("x+pi*y");
    let f = t.flatten(&vars);
    assert!(!f.is_constant());
    assert_eq!(f.dependencies(), vec!["y"]);
    vars.insert("y".to_string(), tree("3"));
    let g = t.flatten(&vars);
    assert!(g.is_constant());
}

#[test]
fn later_entries_hide_earlier_ones() {
    let mut vars = VarMap::new();
    vars.insert("x".to_string(), tree("2"));
    vars.insert("x".to_string(), tree("y"));
    let f = tree("x").flatten(&vars);
    assert_eq!(f.token_type, Token::ID);
    assert_eq!(f.symbol, "y");
    assert!(vars.get(&"z".to_string()).is_none());
}

#[test]
fn flatten_leaves_constant_trees() {
    let t = tree("1+2*3");
    let f = t.flatten(&VarMap::new());
    assert_eq!(f.dependencies(), t.dependencies());
    assert!(f.is_constant());
}

#[test]
fn predefined_constants() {
    let pi = constant(&"pi".to_string()).unwrap();
    match &pi.values {
        Value::Number(c) => {
            assert_eq!(c.re.text, "3.141592653589793");
            assert_eq!(c.im.text, "0");
        }
        _ => panic!("pi is a number"),
    }
    let i = constant(&"i".to_string()).unwrap();
    match &i.values {
        Value::Number(c) => {
            assert_eq!(c.re.text, "0");
            assert_eq!(c.im.text, "1");
        }
        _ => panic!("i is a number"),
    }
    assert!(constant(&"e".to_string()).is_some());
    assert!(constant(&"phi".to_string()).is_some());
    assert!(constant(&"tau".to_string()).is_none());
    assert_eq!(tree("e").flatten(&VarMap::new()).token_type, Token::Num);
}

#[test]
fn malformed_trees_are_detected() {
    let mut add = Operator::from_token(Token::Add);
    assert!(add.is_well_formed());
    add.values = Value::Op(OpVec::new());
    assert!(!add.is_well_formed());
    let mut sin = Operator::from_token(Token::Sin);
    sin.values = Value::Real(Numeral { negative: false, text: "1".to_string() });
    assert!(!sin.is_well_formed());
}

#[test]
fn analysis_of_an_entered_line() {
    let mut vars = VarMap::new();
    vars.insert("a".to_string(), tree("2"));
    let parsed = tree("a*x");
    let analysis = analyse_parsed(&parsed, &vars);
    assert_eq!(analysis.dependencies, Some(vec!["a".to_string(), "x".to_string()]));
    assert_eq!(analysis.constant, Some(false));
    let number = tree("5");
    let analysis = analyse_parsed(&number, &vars);
    assert_eq!(analysis.dependencies, None);
    assert_eq!(analysis.constant, Some(true));
    vars.insert("x".to_string(), Operator::from_token(Token::Add));
    let broken = analyse_parsed(&parsed, &vars);
    assert_eq!(broken.constant, Some(true));
    vars.insert("x".to_string(), Operator::from_value(Value::Op(OpVec::new())));
    let analysis = analyse_parsed(&parsed, &vars);
    assert_eq!(analysis.constant, Some(true));
}

#[test]
fn unwalkable_substitution_is_reported() {
    let mut bad = Operator::from_token(Token::Mult);
    bad.values = Value::Op(OpVec::new());
    let mut vars = VarMap::new();
    vars.insert("x".to_string(), bad);
    let analysis = analyse_parsed(&tree("x+1"), &vars);
    assert_eq!(analysis.constant, None);
}

#[test]
fn functions_flatten_only_their_tree() {
    let mut vars = VarMap::new();
    vars.insert("x".to_string(), tree("1"));
    let f = Function::Variable(tree("x+y"));
    let flat = f.flatten(&vars).unwrap();
    assert_eq!(flat.dependencies(), vec!["y"]);
    let c = Function::Constant(Value::Real(Numeral { negative: false, text: "1".to_string() }));
    assert!(c.flatten(&vars).is_none());
    let p = Function::Point(
        Value::Real(Numeral { negative: false, text: "1".to_string() }),
        Value::Imag(Numeral { negative: false, text: "2".to_string() }),
    );
    assert!(p.flatten(&vars).is_none());
}

#[test]
fn value_accessors() {
    let v = Value::Op(OpVec::new());
    assert_eq!(v.get_type(), 4);
    assert!(v.get_index(0).is_none());
    assert!(v.get_complex().is_none());
    assert!(v.get_num().is_none());
    let mut add = Operator::from_token(Token::Add);
    add.values.set_index(1, Operator::from_token(Token::ID));
    assert_eq!(add.values.get_index(1).unwrap().token_type, Token::ID);
    assert_eq!(add.values.get_index(0).unwrap().token_type, Token::Null);
    let n = Value::Number(Complex::new(Numeral::one(), Numeral::zero()));
    assert_eq!(n.get_type(), 3);
    assert_eq!(n.get_complex().unwrap().re.text, "1");
    let r = Value::Imag(Numeral::one().negated());
    assert_eq!(r.get_type(), 2);
    let got = r.get_num().unwrap();
    assert!(got.negative);
    assert_eq!(got.text, "1");
}

#[test]
fn op_vec_as_a_stack() {
    let mut s = OpVec::new();
    assert!(s.is_empty());
    assert!(s.pop().is_none());
    s.push(Operator::from_token(Token::Add));
    s.push(Operator::from_token(Token::Sub));
    assert_eq!(s.len(), 2);
    assert_eq!(s.get(0).unwrap().token_type, Token::Add);
    assert!(s.get(2).is_none());
    s.set(0, Operator::from_token(Token::Div));
    assert_eq!(s.get(0).unwrap().token_type, Token::Div);
    assert_eq!(s.pop().unwrap().token_type, Token::Sub);
    assert_eq!(s.len(), 1);
    let copy = s.clone();
    assert_eq!(copy.get(0).unwrap().token_type, Token::Div);
}

#[test]
fn token_names() {
    assert_eq!(Token::Add.to_string(), "+");
    assert_eq!(Token::Sqrt.to_string(), "sqrt");
    assert_eq!(Token::SENTINEL.to_string(), "SENTINEL");
    assert_eq!(Token::Null.to_string(), "Null");
    assert_eq!(Token::default(), Token::END);
    assert_eq!(Arities::default(), Arities::BINARY);
}

#[test]
fn op_vec_insert_remove_and_change_in_place() {
    let mut s = OpVec::new();
    s.push(Operator::from_token(Token::Add));
    s.push(Operator::from_token(Token::Sub));
    s.insert(1, Operator::from_token(Token::Mult));
    assert_eq!(s.0.iter().map(|o| o.token_type).collect::<Vec<_>>(), vec![Token::Add, Token::Mult, Token::Sub]);
    s.insert(7, Operator::from_token(Token::Div));
    assert_eq!(s.len(), 4);
    assert_eq!(s.get(3).unwrap().token_type, Token::Div);
    let removed = s.remove(0);
    assert_eq!(removed.token_type, Token::Add);
    assert_eq!(s.0.iter().map(|o| o.token_type).collect::<Vec<_>>(), vec![Token::Mult, Token::Sub, Token::Div]);
    if let Some(op) = s.get_mut(1) {
        op.precedence = 9;
    }
    assert_eq!(s.get(1).unwrap().precedence, 9);
    assert!(s.get_mut(3).is_none());
}

#[test]
fn names_read_in_written_order() {
    let t = tree("b*a+sin(c)-a");
    assert_eq!(t.dependencies(), vec!["b", "a", "c", "a"]);
    let u = tree("2x(y+1)");
    assert_eq!(u.dependencies(), vec!["x", "y"]);
}

#[test]
fn operator_names_and_token_names_agree() {
    for t in [
        Token::Add, Token::Sub, Token::Mult, Token::Div, Token::Sqrt, Token::Pow, Token::Sin,
        Token::Cos, Token::Tan, Token::Log, Token::Ln, Token::OpenPar, Token::ClosePar,
    ] {
        let name: Vec<char> = t.to_string().chars().collect();
        assert_eq!(operator_token(&name), Some(t));
    }
    let end: Vec<char> = Token::END.to_string().chars().collect();
    assert_eq!(operator_token(&end), None);
}

#[test]
fn read_after_insert() {
    let mut m = VarMap::new();
    m.insert("a".to_string(), Operator::from_token(Token::Add));
    m.insert("b".to_string(), Operator::from_token(Token::Sub));
    assert_eq!(m.get(&"a".to_string()).unwrap().token_type, Token::Add);
    m.insert("a".to_string(), Operator::from_token(Token::Div));
    assert_eq!(m.get(&"a".to_string()).unwrap().token_type, Token::Div);
    assert_eq!(m.get(&"b".to_string()).unwrap().token_type, Token::Sub);
    assert!(m.get(&"c".to_string()).is_none());
}

#[test]
fn flattening_leaves_the_unbound_names() {
    let t = tree("a*x+pi-y*a");
    let mut vars = VarMap::new();
    vars.insert("a".to_string(), tree("2"));
    let f = t.flatten(&vars);
    assert_eq!(f.dependencies(), vec!["x", "y"]);
}
