//! The tokens of a metadata block and the attributes attached to a
//! declaration, as the declaration's parser hands them over.

use crate::data::Span;
use vstd::prelude::*;

verus! {

/// One token of a metadata block.
#[derive(Clone, Debug, PartialEq, Eq)]
pub enum Token {
    /// An identifier or a keyword.
    Ident { name: String, span: Span },
    /// One punctuation character.
    Punct { ch: char, span: Span },
    /// A string literal, with the text that it denotes.
    Str { value: String, span: Span },
    /// An integer literal, with its digits in base ten.
    Int { digits: String, span: Span },
    /// Anything else: another literal, a group in brackets.
    Other { span: Span },
}

pub enum TokenView {
    Ident { name: Seq<char>, span: Span },
    Punct { ch: char, span: Span },
    Str { value: Seq<char>, span: Span },
    Int { digits: Seq<char>, span: Span },
    Other { span: Span },
}

impl View for Token {
    type V = TokenView;

    open spec fn view(&self) -> TokenView {
        match self {
            Token::Ident { name, span } => TokenView::Ident { name: name@, span: *span },
            Token::Punct { ch, span } => TokenView::Punct { ch: *ch, span: *span },
            Token::Str { value, span } => TokenView::Str { value: value@, span: *span },
            Token::Int { digits, span } => TokenView::Int { digits: digits@, span: *span },
            Token::Other { span } => TokenView::Other { span: *span },
        }
    }
}

impl TokenView {
    /// Where the token stands.
    pub open spec fn span(self) -> Span {
        match self {
            TokenView::Ident { span, .. } => span,
            TokenView::Punct { span, .. } => span,
            TokenView::Str { span, .. } => span,
            TokenView::Int { span, .. } => span,
            TokenView::Other { span } => span,
        }
    }
}

impl Token {
    /// Where the token stands.
    pub fn span(&self) -> (r: Span)
        ensures
            r == self@.span(),
    {
        match self {
            Token::Ident { span, .. } => *span,
            Token::Punct { span, .. } => *span,
            Token::Str { span, .. } => *span,
            Token::Int { span, .. } => *span,
            Token::Other { span } => *span,
        }
    }
}

/// The views of a list of tokens.
pub open spec fn token_views(v: Seq<Token>) -> Seq<TokenView> {
    Seq::new(v.len(), |i: int| v[i]@)
}

/// The text that the Rust string literal `text` denotes, if `text` is one.
pub uninterp spec fn string_literal_value(text: Seq<char>) -> Option<Seq<char>>;

/// The digits in base ten of the Rust integer literal `text`, if `text` is
/// one.
pub uninterp spec fn integer_literal_digits(text: Seq<char>) -> Option<Seq<char>>;

/// Reads `text` as a string literal with `syn::parse_str::<syn::LitStr>` and
/// takes its content with `syn::LitStr::value`. Nothing is proved of the
/// result: it is whatever `syn` makes of `text`, and `None` where `syn` does
/// not take `text` for a string literal.
#[verifier::external_body]
fn string_literal(text: &str) -> (r: Option<String>)
    ensures
        match r {
            Some(value) => string_literal_value(text@) == Some(value@),
            None => string_literal_value(text@) is None,
        },
{
    match syn::parse_str::<syn::LitStr>(text) {
        Ok(lit) => Some(lit.value()),
        Err(_) => None,
    }
}

/// Reads `text` as an integer literal with `syn::parse_str::<syn::LitInt>` and
/// takes its digits with `syn::LitInt::base10_digits`. Nothing is proved of
/// the result: it is whatever `syn` makes of `text`, and `None` where `syn`
/// does not take `text` for an integer literal.
#[verifier::external_body]
fn integer_literal(text: &str) -> (r: Option<String>)
    ensures
        match r {
            Some(digits) => integer_literal_digits(text@) == Some(digits@),
            None => integer_literal_digits(text@) is None,
        },
{
    match syn::parse_str::<syn::LitInt>(text) {
        Ok(lit) => Some(lit.base10_digits().to_string()),
        Err(_) => None,
    }
}

/// The token that a literal with the source text `text` is, given what its
/// text denotes as a string and as an integer.
pub open spec fn classified_literal(
    string: Option<Seq<char>>,
    integer: Option<Seq<char>>,
    span: Span,
) -> TokenView {
    match string {
        Some(value) => TokenView::Str { value, span },
        None => match integer {
            Some(digits) => TokenView::Int { digits, span },
            None => TokenView::Other { span },
        },
    }
}

/// The token for a literal, from what was read of it as a string and as an
/// integer: a string where it is one, else an integer where it is one, else
/// something that the grammar has no use for.
pub fn classify_literal(string: Option<String>, integer: Option<String>, span: Span) -> (r: Token)
    ensures
        r@ == classified_literal(
            match string {
                Some(s) => Some(s@),
                None => None,
            },
            match integer {
                Some(s) => Some(s@),
                None => None,
            },
            span,
        ),
{
    match string {
        Some(value) => Token::Str { value, span },
        None => match integer {
            Some(digits) => Token::Int { digits, span },
            None => Token::Other { span },
        },
    }
}

/// The token for the literal whose source text is `text`.
pub fn literal_token(text: &str, span: Span) -> (r: Token)
    ensures
        r@ == classified_literal(
            string_literal_value(text@),
            integer_literal_digits(text@),
            span,
        ),
{
    let string = string_literal(text);
    let integer = integer_literal(text);
    classify_literal(string, integer, span)
}

/// What follows the name of an attribute.
#[derive(Clone, Debug, PartialEq, Eq)]
pub enum Meta {
    /// Nothing: `#[name]`.
    Path,
    /// A value: `#[name = value]`. The token is the value where it is one
    /// literal, and `Token::Other` where it is any other expression.
    NameValue(Token),
    /// A list in parentheses: `#[name(...)]`, with the tokens inside.
    List(Vec<Token>),
}

pub enum MetaView {
    Path,
    NameValue(TokenView),
    List(Seq<TokenView>),
}

impl View for Meta {
    type V = MetaView;

    open spec fn view(&self) -> MetaView {
        match self {
            Meta::Path => MetaView::Path,
            Meta::NameValue(t) => MetaView::NameValue(t@),
            Meta::List(tokens) => MetaView::List(token_views(tokens@)),
        }
    }
}

/// One attribute attached to a declaration or to a member. A documentation
/// comment is the attribute `doc = "text"`.
#[derive(Clone, Debug, PartialEq, Eq)]
pub struct Attribute {
    pub span: Span,
    /// The attribute's name where it is a single identifier, and empty where
    /// it is a longer path.
    pub name: String,
    pub meta: Meta,
}

pub struct AttributeView {
    pub span: Span,
    pub name: Seq<char>,
    pub meta: MetaView,
}

impl View for Attribute {
    type V = AttributeView;

    open spec fn view(&self) -> AttributeView {
        AttributeView { span: self.span, name: self.name@, meta: self.meta@ }
    }
}

/// The views of a list of attributes.
pub open spec fn attribute_views(v: Seq<Attribute>) -> Seq<AttributeView> {
    Seq::new(v.len(), |i: int| v[i]@)
}

} // verus!
