//! From a declaration to its descriptor.

use crate::data::{Type, TypeView};
use crate::decl::{Body, Declaration};
use crate::enums::modeled_enum;
use crate::error::{Error, ErrorView, Report};
use crate::structs::modeled_class;
use vstd::prelude::*;

verus! {

/// The descriptor of the declaration `input`: a class for a record, an enum
/// for an enumeration. A union has none.
pub open spec fn modeled(input: Declaration) -> Result<TypeView, Seq<ErrorView>> {
    match input.body {
        Body::Struct(fields) => match modeled_class(input, fields@) {
            Ok(class) => Ok(TypeView::Class(class)),
            Err(report) => Err(report),
        },
        Body::Enum(variants) => match modeled_enum(input, variants@) {
            Ok(e) => Ok(TypeView::Enum(e)),
            Err(report) => Err(report),
        },
        Body::Union => Err(seq![ErrorView::Union(input.span)]),
    }
}

/// What modeling a declaration gives, seen as plain values.
pub open spec fn outcome(r: Result<Type, Report>) -> Result<TypeView, Seq<ErrorView>> {
    match r {
        Ok(ty) => Ok(ty@),
        Err(report) => Err(report@),
    }
}

/// Whether the members of `input` can be numbered with the machine's
/// integers.
pub open spec fn countable(input: Declaration) -> bool {
    input.body matches Body::Enum(variants) ==> variants@.len() <= isize::MAX
}

/// Models the declaration `input`: the descriptor to render, or everything
/// that is wrong with the declaration.
pub fn anno(input: &Declaration) -> (r: Result<Type, Report>)
    requires
        countable(*input),
    ensures
        outcome(r) == modeled(*input),
        r matches Err(report) ==> report.wf(),
        r matches Ok(ty) ==> ty@.wf(),
{
    match &input.body {
        Body::Struct(fields) => match crate::structs::parse(input, fields) {
            Ok(class) => Ok(Type::Class(class)),
            Err(report) => Err(report),
        },
        Body::Enum(variants) => match crate::enums::parse(input, variants) {
            Ok(e) => Ok(Type::Enum(e)),
            Err(report) => Err(report),
        },
        Body::Union => Err(Report::single(Error::Union(input.span))),
    }
}

} // verus!
