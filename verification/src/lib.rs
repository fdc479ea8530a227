//! A library for Azure Resource Manager (ARM) style infrastructure templates.
//!
//! The core of the library is a total, bounded-recursion parser for the ARM
//! expression micro-language that such templates embed inside JSON string
//! values (for example `[parameters('x')]` or `[concat('a', variables('b'))]`).
//! Around it sit the expression AST, a plain-value model of a JSON document,
//! and a decoder that maps such a document into a typed template model,
//! routing every expression-typed string field through the parser.

mod ast;
mod json;
mod parser;
mod template;

pub use ast::ArmExpression;
pub use ast::ExprView;
pub use ast::FunctionExpression;
pub use ast::FunctionName;
pub use ast::LiteralValue;
pub use ast::LiteralView;
pub use ast::ReferenceExpression;
pub use ast::expr_view;
pub use ast::exprs_view;
pub use json::JsonValue;
pub use json::JsonView;
pub use json::json_view;
pub use parser::parse;
pub use parser::parse_call_spec;
pub use parser::parse_atom_spec;
pub use parser::starts_with_spec;
pub use parser::quote_spec;
pub use parser::escape_spec;
pub use parser::render_string_literal;
pub use parser::lemma_string_literal_round_trip;
pub use parser::lemma_reference_bracket_wrapping;
pub use template::ArmTemplate;
pub use template::ArmParameter;
pub use template::ArmResource;
pub use template::ArmOutput;
pub use template::DecodeError;
pub use template::DecodeErrorView;
pub use template::TemplateView;
pub use template::ParameterView;
pub use template::ResourceView;
pub use template::OutputView;
pub use template::template_view;
pub use template::template_result_view;
pub use template::decode_template_spec;
pub use template::decode_template;
pub use template::upsert_spec;
pub use template::keys_unique;
pub use template::lemma_decoded_maps_have_unique_keys;
pub use parser::expr_result_view;
pub use parser::parse_spec;
pub use parser::ParseError;
pub use parser::ParseErrorView;
pub use parser::MAX_DEPTH;
