pub mod tokens;
pub mod text_util;
pub mod char_stream;
pub mod lex_simple;
pub mod errors;
pub mod lex_strings;
pub mod lex_numbers;
pub mod lexer;
pub mod ast;
pub mod parser_core;
pub mod parse_expr;
pub mod parse_type;
pub mod stmts;
pub mod parse_stmt;
pub mod stringpool;
pub mod text;
pub mod cli;
