use vstd::prelude::*;
use crate::diagnostic::Span;

verus! {

/// What a token is.
#[derive(Clone, Copy, Debug, PartialEq, Eq, Structural)]
pub enum TokenKind {
    /// A name: of a variable, a recipe, a parameter or a dependency.
    Identifier,
    /// A string; `raw` for one in single quotes, whose text is taken as it stands.
    StringLiteral { raw: bool },
    /// A command between backticks.
    Backtick,
    Equals,
    Colon,
    Plus,
    At,
    /// A `#` and what follows it on its line.
    Comment,
    /// The end of a line.
    Eol,
    /// The start of a recipe body.
    Indent,
    /// The end of a recipe body.
    Dedent,
    /// Literal text of a body line.
    Text,
    /// `{{` in a body line.
    InterpolationStart,
    /// `}}` in a body line.
    InterpolationEnd,
    /// The end of the source.
    Eof,
}

/// A token: its kind, its text and the place it was read from.
///
/// The text of a string is its value (with escapes resolved unless it is raw),
/// that of a backtick is the command between the delimiters; every other token
/// has the characters it was read from as its text.
#[derive(Clone, Debug, PartialEq, Eq)]
pub struct Token {
    pub kind: TokenKind,
    pub text: String,
    pub span: Span,
}

/// The mathematical value of a [`Token`].
pub struct TokenView {
    pub kind: TokenKind,
    pub text: Seq<char>,
    pub span: Span,
}

impl View for Token {
    type V = TokenView;

    open spec fn view(&self) -> TokenView {
        TokenView { kind: self.kind, text: self.text@, span: self.span }
    }
}

/// The values of the tokens of `tokens`, in order.
pub open spec fn token_views(tokens: Seq<Token>) -> Seq<TokenView> {
    tokens.map_values(|t: Token| t@)
}

} // verus!
