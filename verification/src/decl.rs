//! A declaration as its parser describes it: what the modelers read.

use crate::data::Span;
use crate::token::{Attribute, Token};
use vstd::prelude::*;

verus! {

/// An identifier and where it stands.
#[derive(Clone, Debug, PartialEq, Eq)]
pub struct Ident {
    pub name: String,
    pub span: Span,
}

/// The shape of a declared type, as far as type guessing looks at it.
#[derive(Debug)]
pub enum TypeShape {
    /// A path such as `String`, `Option<T>` or `std::vec::Vec<T>`. Of a path
    /// behind a qualified self type, the path alone.
    Path { leading_colon: bool, segments: Vec<Segment> },
    /// Any other type: a reference, a tuple, an array, and so on.
    Other,
}

/// One segment of a path.
#[derive(Debug)]
pub struct Segment {
    pub ident: String,
    pub arguments: Arguments,
}

/// The arguments of a path segment.
#[derive(Debug)]
pub enum Arguments {
    /// None, as in `String`.
    Absent,
    /// In angle brackets, as in `Option<T>`.
    Angle(Vec<Argument>),
    /// In parentheses, as in `Fn(A) -> B`.
    Parenthesized,
}

/// One argument in angle brackets.
#[derive(Debug)]
pub enum Argument {
    /// A type.
    Type(TypeShape),
    /// A lifetime, a constant, a binding.
    Other,
}

/// An explicit discriminant of an enum member.
#[derive(Debug)]
pub enum Expr {
    /// A literal.
    Lit(Token),
    /// The negation of an expression.
    Neg { span: Span, operand: Box<Expr> },
    /// Any other expression.
    Other(Span),
}

/// One member of a record.
#[derive(Debug)]
pub struct FieldDecl {
    pub span: Span,
    pub attrs: Vec<Attribute>,
    /// The member's name; a positional member has none.
    pub ident: Option<Ident>,
    pub ty: TypeShape,
}

/// One member of an enumeration.
#[derive(Debug)]
pub struct VariantDecl {
    pub span: Span,
    pub attrs: Vec<Attribute>,
    pub ident: Ident,
    /// Whether the member carries no data.
    pub unit: bool,
    pub discriminant: Option<Expr>,
}

/// What a declaration declares.
#[derive(Debug)]
pub enum Body {
    Struct(Vec<FieldDecl>),
    Enum(Vec<VariantDecl>),
    Union,
}

/// A declaration with its documentation and metadata.
#[derive(Debug)]
pub struct Declaration {
    pub span: Span,
    pub attrs: Vec<Attribute>,
    pub ident: Ident,
    pub body: Body,
}

} // verus!
