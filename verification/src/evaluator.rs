//! Reading an input line into an operator tree.
use vstd::prelude::*;
use crate::abstract_syntax_tree::{AbstractSyntaxTree, parse_tree};
use crate::lexer::{lex, scan};
use crate::operator::{
    Operator, OperatorView, dependencies_of, flatten_of, is_constant_of, strings_view, well_formed,
};
use crate::token::Token;
use crate::var_map::VarMap;
use crate::token_laws::lemma_tokenize_readable;
use crate::tokenizer::{TokenizeError, tokenize, tokenize_of};

verus! {

/// The tree read from an input line: its lexemes are made into a token
/// stream, which is parsed; `Ok(None)` where the stream is no single
/// expression.
pub open spec fn read_line(input: Seq<char>) -> Result<Option<OperatorView>, TokenizeError> {
    match tokenize_of(lex(input)) {
        Err(e) => Err(e),
        Ok(ts) => Ok(parse_tree(ts)),
    }
}

/// Reads an input line into an operator tree (see `read_line`).
pub fn string_to_operator(input: String) -> (r: Result<Option<Operator>, TokenizeError>)
    ensures
        match r {
            Ok(Some(op)) => read_line(input@) == Ok::<Option<OperatorView>, TokenizeError>(Some(op@)),
            Ok(None) => read_line(input@) == Ok::<Option<OperatorView>, TokenizeError>(None),
            Err(e) => read_line(input@) == Err::<Option<OperatorView>, TokenizeError>(e),
        },
{
    let ghost line = input@;
    let lexemes = scan(input);
    assert(lexemes@.map_values(|l: String| l@) =~= lex(line));
    let tokens = tokenize(lexemes)?;
    proof { lemma_tokenize_readable(lex(line)); }
    let mut abstract_tree = AbstractSyntaxTree::default();
    Ok(abstract_tree.from_shunting_yard(tokens))
}


/// What an entered expression comes to before it is evaluated.
pub struct Analysis {
    /// The names the expression reads, unless it is a single number.
    pub dependencies: Option<Vec<String>>,
    /// The expression with the known variables and constants put in.
    pub flattened: Operator,
    /// Whether the flattened expression reads no name; `None` where it
    /// cannot be walked, because a value put in for a variable lacks operands.
    pub constant: Option<bool>,
}

/// Analyses a parsed expression against the known variables: the names it
/// reads (unless it is a single number), the expression with the variables
/// put in, and whether that reads no name any more.
pub fn analyse_parsed(parsed: &Operator, vars: &VarMap) -> (r: Analysis)
    requires
        well_formed(parsed@),
    ensures
        match r.dependencies {
            Some(d) => parsed@.token_type != Token::Num && strings_view(d@) == dependencies_of(parsed@),
            None => parsed@.token_type == Token::Num,
        },
        r.flattened@ == flatten_of(parsed@, vars@),
        match r.constant {
            Some(c) => well_formed(r.flattened@) && c == is_constant_of(r.flattened@),
            None => !well_formed(r.flattened@),
        },
{
    let dependencies = if parsed.token_type != Token::Num {
        Some(parsed.dependencies())
    } else {
        None
    };
    let flattened = parsed.flatten(vars);
    let constant = if flattened.is_well_formed() {
        Some(flattened.is_constant())
    } else {
        None
    };
    Analysis { dependencies, flattened, constant }
}

} // verus!
