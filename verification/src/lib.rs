//! # Parcos
//!
//! Simple, minimal parser combinator library.
//!
//! A parser is built by combining primitive matchers ([`combinators::just`],
//! [`combinators::pred`]) with transform, choice and repetition combinators
//! ([`combinators::map`], [`combinators::to`], [`combinators::or`],
//! [`combinators::repeat`]), and is then run once against a [`stream::Stream`]
//! of tokens through the entry points of the [`parser::Parser`] trait.
//!
//! Every combinator's behaviour is pinned down by the specification relation
//! [`parser::Parser::obeys`]: a step's outcome reports how many tokens it
//! consumed, and on failure a zero count signals that no commitment was made,
//! so a sibling alternative may still be tried, while a positive count marks a
//! commit point past which no alternative may take over.

/// Combinator definitions and implementations.
pub mod combinators;
/// Error definitions and implementations.
pub mod error;
/// Parser definitions and implementations.
pub mod parser;
/// Standalone string parsing helpers.
pub mod parsers;
/// Stream definitions and implementations.
pub mod stream;
