//! The token data model: a classified, contiguous span of the input.

use vstd::prelude::*;

verus! {

/// Emphasis styles the token vocabulary reserves for future transition logic.
#[derive(Clone, Copy, Debug, PartialEq, Eq, Structural)]
pub enum TextEmphasis {
    Bold,
    Italic,
    BoldItalic,
}

/// List flavours the token vocabulary reserves for future transition logic.
#[derive(Clone, Copy, Debug, PartialEq, Eq, Structural)]
pub enum ListType {
    Ordered,
    Unordered,
}

/// The fixed, extensible set of token kinds. Only `Text`, `WhiteSpace`,
/// `Header` and `Paragraph` are reachable from the current state machine;
/// the remaining variants keep the data model extensible.
#[derive(Clone, Copy, Debug, PartialEq, Eq, Structural)]
pub enum TokenType {
    Text,
    WhiteSpace,
    Header,
    Paragraph,
    LineBreak,
    Emphasis(TextEmphasis),
    BlockQuote,
    List(ListType),
    Code,
    Hr,
    Link,
    Image,
    Escape,
}

/// A token: a kind together with the exact substring of the input assigned
/// to it (order-preserving, no normalization).
#[derive(Debug)]
pub struct Token {
    pub token_type: TokenType,
    pub content: String,
}

/// Mathematical model of a token: its kind and its content as a character
/// sequence.
#[verifier::ext_equal]
pub ghost struct SpecToken {
    pub token_type: TokenType,
    pub content: Seq<char>,
}

impl View for Token {
    type V = SpecToken;

    open spec fn view(&self) -> SpecToken {
        SpecToken { token_type: self.token_type, content: self.content@ }
    }
}

impl PartialEq for Token {
    fn eq(&self, other: &Token) -> (r: bool) {
        self.token_type == other.token_type && self.content == other.content
    }
}

impl vstd::std_specs::cmp::PartialEqSpecImpl for Token {
    open spec fn obeys_eq_spec() -> bool {
        true
    }

    open spec fn eq_spec(&self, other: &Token) -> bool {
        self.token_type == other.token_type && self.content@ == other.content@
    }
}

} // verus!
