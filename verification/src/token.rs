//! The kinds of tokens and the operator names of the input language.
use vstd::prelude::*;

verus! {

/// The kind of a token, or of the node of an operator tree.
#[derive(Clone, Copy, PartialEq, Eq, Structural, Debug, Hash)]
pub enum Token {
    END,
    SENTINEL,
    Null,
    Num,
    ID,
    Add,
    Sub,
    Mult,
    Div,
    Sqrt,
    Pow,
    Sin,
    Cos,
    Tan,
    Log,
    Ln,
    OpenPar,
    ClosePar,
}

impl Default for Token {
    fn default() -> (t: Token)
        ensures
            t == Token::END,
    {
        Token::END
    }
}

/// The token that an operator name stands for: the signs `+ - * / ^ ( )` and
/// the function names `sqrt sin cos tan log ln`.
pub open spec fn operator_named(s: Seq<char>) -> Option<Token> {
    if s == "+"@ {
        Some(Token::Add)
    } else if s == "-"@ {
        Some(Token::Sub)
    } else if s == "*"@ {
        Some(Token::Mult)
    } else if s == "/"@ {
        Some(Token::Div)
    } else if s == "sqrt"@ {
        Some(Token::Sqrt)
    } else if s == "sin"@ {
        Some(Token::Sin)
    } else if s == "cos"@ {
        Some(Token::Cos)
    } else if s == "tan"@ {
        Some(Token::Tan)
    } else if s == "log"@ {
        Some(Token::Log)
    } else if s == "ln"@ {
        Some(Token::Ln)
    } else if s == "^"@ {
        Some(Token::Pow)
    } else if s == "("@ {
        Some(Token::OpenPar)
    } else if s == ")"@ {
        Some(Token::ClosePar)
    } else {
        None
    }
}

/// Whether two character vectors hold the same characters.
pub fn same_chars(a: &Vec<char>, b: &Vec<char>) -> (r: bool)
    ensures
        r == (a@ == b@),
{
    if a.len() != b.len() {
        return false;
    }
    let mut i: usize = 0;
    while i < a.len()
        invariant
            i <= a.len(),
            a.len() == b.len(),
            forall|k: int| 0 <= k < i ==> a@[k] == b@[k],
        decreases a.len() - i,
    {
        if a[i] != b[i] {
            return false;
        }
        i += 1;
    }
    assert(a@ =~= b@);
    true
}

/// Whether `a` holds exactly the characters of `name`.
pub fn is_named(a: &Vec<char>, name: &str) -> (r: bool)
    ensures
        r == (a@ == name@),
{
    let b = crate::text::chars_of(name);
    same_chars(a, &b)
}

/// The token that the operator name `s` stands for, if any.
pub fn operator_token(s: &Vec<char>) -> (r: Option<Token>)
    ensures
        r == operator_named(s@),
{
    if is_named(s, "+") {
        Some(Token::Add)
    } else if is_named(s, "-") {
        Some(Token::Sub)
    } else if is_named(s, "*") {
        Some(Token::Mult)
    } else if is_named(s, "/") {
        Some(Token::Div)
    } else if is_named(s, "sqrt") {
        Some(Token::Sqrt)
    } else if is_named(s, "sin") {
        Some(Token::Sin)
    } else if is_named(s, "cos") {
        Some(Token::Cos)
    } else if is_named(s, "tan") {
        Some(Token::Tan)
    } else if is_named(s, "log") {
        Some(Token::Log)
    } else if is_named(s, "ln") {
        Some(Token::Ln)
    } else if is_named(s, "^") {
        Some(Token::Pow)
    } else if is_named(s, "(") {
        Some(Token::OpenPar)
    } else if is_named(s, ")") {
        Some(Token::ClosePar)
    } else {
        None
    }
}


/// The name a token is printed with.
pub open spec fn token_name(t: Token) -> Seq<char> {
    match t {
        Token::Add => "+"@,
        Token::Sub => "-"@,
        Token::Mult => "*"@,
        Token::Div => "/"@,
        Token::Sqrt => "sqrt"@,
        Token::Pow => "^"@,
        Token::Sin => "sin"@,
        Token::Cos => "cos"@,
        Token::Tan => "tan"@,
        Token::Log => "log"@,
        Token::Ln => "ln"@,
        Token::OpenPar => "("@,
        Token::ClosePar => ")"@,
        Token::END => "END"@,
        Token::SENTINEL => "SENTINEL"@,
        Token::Num => "Num"@,
        Token::ID => "ID"@,
        Token::Null => "Null"@,
    }
}

impl Token {
    /// The name this token is printed with (see `token_name`).
    pub fn to_string(&self) -> (r: String)
        ensures
            r@ == token_name(*self),
    {
        let name: &str = match self {
            Token::Add => "+",
            Token::Sub => "-",
            Token::Mult => "*",
            Token::Div => "/",
            Token::Sqrt => "sqrt",
            Token::Pow => "^",
            Token::Sin => "sin",
            Token::Cos => "cos",
            Token::Tan => "tan",
            Token::Log => "log",
            Token::Ln => "ln",
            Token::OpenPar => "(",
            Token::ClosePar => ")",
            Token::END => "END",
            Token::SENTINEL => "SENTINEL",
            Token::Num => "Num",
            Token::ID => "ID",
            Token::Null => "Null",
        };
        String::from_str(name)
    }
}


/// Operator names and token names undo each other: a name that stands for a
/// token is the name the token is printed with, and the printed name of each
/// sign or function token stands for that token again.
pub proof fn lemma_operator_names_round_trip(s: Seq<char>, t: Token)
    ensures
        operator_named(s) == Some(t) ==> token_name(t) == s,
        t != Token::END && t != Token::SENTINEL && t != Token::Num && t != Token::ID && t
            != Token::Null ==> operator_named(token_name(t)) == Some(t),
{
    reveal_strlit("+");
    reveal_strlit("-");
    reveal_strlit("*");
    reveal_strlit("/");
    reveal_strlit("sqrt");
    reveal_strlit("sin");
    reveal_strlit("cos");
    reveal_strlit("tan");
    reveal_strlit("log");
    reveal_strlit("ln");
    reveal_strlit("^");
    reveal_strlit("(");
    reveal_strlit(")");
    assert("+"@[0] == '+' && "-"@[0] == '-' && "*"@[0] == '*' && "/"@[0] == '/');
    assert("^"@[0] == '^' && "("@[0] == '(' && ")"@[0] == ')');
    assert("sqrt"@.len() == 4 && "ln"@.len() == 2 && "sin"@.len() == 3);
    assert("sin"@[0] == 's' && "cos"@[0] == 'c' && "tan"@[0] == 't' && "log"@[0] == 'l');
}

} // verus!
