//! A typed mapping layer between rows and the tables of a wide-column store.
//!
//! Before a program runs, a table's schema is read from the catalog ([`schema`]), the
//! entity definitions of the table are generated from it ([`generator`], [`render`]),
//! and hand-written query templates are validated against it ([`lexer`], [`parser`],
//! [`validator`]). At run time, rows are written and read through the generated
//! definitions ([`values`], [`entity`], [`binding`], [`crud`]), validated queries are
//! retrieved through a cursor ([`cursor`]), and prepared statements are kept in a bounded
//! cache ([`cache`]).
//!
//! Nothing here talks to the store. Every operation is a statement with bound values
//! that the caller hands to its session, and a function that says what the session's
//! answer means. What is taken for granted of the store is written down in [`model`].
//!
//! Two modules hold proofs only: [`placeholders`] shows that the placeholders of a parsed
//! statement are the `?` of its template, and [`agreement`] that the generated statements
//! pass validation.
pub mod agreement;
pub mod binding;
pub mod cache;
pub mod crud;
pub mod cursor;
pub mod entity;
pub mod error;
pub mod generator;
pub mod lexer;
pub mod model;
pub mod naming;
pub mod parser;
pub mod placeholders;
pub mod render;
pub mod schema;
pub mod text;
pub mod validator;
pub mod values;
