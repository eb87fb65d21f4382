//! Parsing of mathematical expressions over complex numbers: character classes,
//! a lexer, a tokenizer and a shunting-yard parser that builds operator trees.
use vstd::prelude::*;

pub mod text;
pub mod expressions;
pub mod lexer;
pub mod arity;
pub mod token;
pub mod value;
pub mod op_vec;
pub mod operator;
pub mod var_map;
pub mod tree_laws;
pub mod pattern;
pub mod scanner;
pub mod float_literal;
pub mod tokenizer;
pub mod abstract_syntax_tree;
pub mod token_laws;
pub mod evaluator;
pub mod parse_laws;
pub mod function;
pub mod json_map;
pub mod constant_laws;
