//! Parsing of the `#[events(...)]` schema of a component: a parenthesised
//! list of `fn`-like event declarations, each with at most one marker
//! attribute, a parameter list, an optional return type and a closing `;`.
pub mod token;
pub mod syntax;
pub mod error;
pub mod scan;
pub mod event;
pub mod events;
