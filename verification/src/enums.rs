//! Modeling of enumerations: enum metadata, discriminants, and the members.

use crate::attrs::{
    allowed_view, find_anno, first_named, key_at, next_item_at, parse_attrs, parsed_attrs,
    read_key, read_separator, read_value, value_at, Attr, AttrView, Kind,
};
use crate::data::{
    variant_names_differ, variant_views, Discriminant, DiscriminantView, Enum, EnumView, Span,
    Variant, VariantView,
};
use crate::decl::{Declaration, Expr, Ident, VariantDecl};
use crate::docs::{collect_docs, collected_docs};
use crate::error::{all_wf, combine, keep, report, report_views, Error, ErrorView, Report};
use crate::laws::law_variant_names_unique;
use crate::structs::{concluded, nothing_gathered, placed, reported, Gathered};
use crate::text::{blank, is_blank, isize_value, parse_integer, same_text};
use crate::token::{
    attribute_views, token_views, AttributeView, Meta, MetaView, Token, TokenView,
};
use crate::unique::Seen;
use vstd::prelude::*;

verus! {

/// What the metadata of an enumeration says of the enum.
#[derive(Clone, Debug, PartialEq, Eq)]
pub struct EnumMeta {
    /// Whether every member has the enum itself for its value.
    pub use_self: bool,
    pub name: String,
    /// The other name that every member has for its value, if one is given.
    pub alias: Option<Attr>,
}

pub struct EnumMetaView {
    pub use_self: bool,
    pub name: Seq<char>,
    pub alias: Option<AttrView>,
}

impl View for EnumMeta {
    type V = EnumMetaView;

    open spec fn view(&self) -> EnumMetaView {
        EnumMetaView {
            use_self: self.use_self,
            name: self.name@,
            alias: match self.alias {
                Some(a) => Some(a@),
                None => None,
            },
        }
    }
}

/// What the tokens from `pos` on add to `m`, where an item starts at `pos`.
///
/// `name = "value"` renames the enum: a second one is an error at its key,
/// and a value of white space alone an error at the value. `self` asks for
/// the enum itself as the value of every member, and `alias = "value"` for
/// another name: asking for both is an error at whichever key comes second,
/// a second alias an error that refers to the first, and an alias of white
/// space alone an error at the value. Any other key is passed over. The
/// first error ends the reading.
pub open spec fn enum_meta_from(
    tokens: Seq<TokenView>,
    pos: int,
    m: EnumMetaView,
    end: Span,
) -> Result<EnumMetaView, ErrorView>
    decreases tokens.len() - pos,
{
    if pos < 0 || pos >= tokens.len() {
        Ok(m)
    } else {
        match key_at(tokens, pos, end) {
            Err(e) => Err(e),
            Ok((key, key_span)) => if key == "name"@ {
                if m.name.len() > 0 {
                    Err(ErrorView::DuplicateName(key_span))
                } else {
                    match value_at(tokens, pos + 1, end) {
                        Err(e) => Err(e),
                        Ok((text, value_span)) => if blank(text) {
                            Err(ErrorView::EmptyName(value_span))
                        } else {
                            match next_item_at(tokens, pos + 3) {
                                Err(e) => Err(e),
                                Ok(next) => enum_meta_from(
                                    tokens,
                                    next,
                                    EnumMetaView { name: text, ..m },
                                    end,
                                ),
                            }
                        },
                    }
                }
            } else if key == "alias"@ {
                if m.use_self {
                    Err(ErrorView::SelfAndAlias(key_span))
                } else if m.alias is Some {
                    Err(ErrorView::DuplicateKey { span: key_span, previous: m.alias->0.key })
                } else {
                    match value_at(tokens, pos + 1, end) {
                        Err(e) => Err(e),
                        Ok((text, value_span)) => if blank(text) {
                            Err(ErrorView::EmptyValue(value_span))
                        } else {
                            match next_item_at(tokens, pos + 3) {
                                Err(e) => Err(e),
                                Ok(next) => enum_meta_from(
                                    tokens,
                                    next,
                                    EnumMetaView {
                                        alias: Some(
                                            AttrView {
                                                key: key_span,
                                                value: value_span,
                                                data: text,
                                            },
                                        ),
                                        ..m
                                    },
                                    end,
                                ),
                            }
                        },
                    }
                }
            } else if key == "self"@ && m.alias is Some {
                Err(ErrorView::SelfAndAlias(key_span))
            } else {
                match next_item_at(tokens, pos + 1) {
                    Err(e) => Err(e),
                    Ok(next) => enum_meta_from(
                        tokens,
                        next,
                        EnumMetaView { use_self: m.use_self || key == "self"@, ..m },
                        end,
                    ),
                }
            },
        }
    }
}

/// What the attributes `attrs` of the enumeration named `ident` say of the
/// enum: without metadata, the enumeration's own name and nothing else; else
/// what the block of the first `anno` attribute says, with the enumeration's
/// own name where the block gives none.
pub open spec fn enum_meta(attrs: Seq<AttributeView>, ident: Seq<char>) -> Result<
    EnumMetaView,
    ErrorView,
> {
    let i = first_named(attrs, "anno"@);
    if i >= attrs.len() {
        Ok(EnumMetaView { use_self: false, name: ident, alias: None })
    } else {
        match attrs[i].meta {
            MetaView::List(tokens) => match enum_meta_from(
                tokens,
                0,
                EnumMetaView { use_self: false, name: Seq::empty(), alias: None },
                attrs[i].span,
            ) {
                Ok(m) => Ok(
                    if m.name.len() == 0 {
                        EnumMetaView { name: ident, ..m }
                    } else {
                        m
                    },
                ),
                Err(e) => Err(e),
            },
            _ => Err(ErrorView::Syntax(attrs[i].span)),
        }
    }
}

/// What reading enum metadata gives, seen as plain values.
pub open spec fn enum_meta_outcome(r: Result<EnumMeta, Error>) -> Result<EnumMetaView, ErrorView> {
    match r {
        Ok(m) => Ok(m@),
        Err(e) => Err(e@),
    }
}

impl EnumMeta {
    /// Reads the metadata of the enumeration `input`.
    pub fn parse(input: &Declaration) -> (r: Result<EnumMeta, Error>)
        ensures
            enum_meta_outcome(r) == enum_meta(attribute_views(input.attrs@), input.ident.name@),
    {
        let i = match find_anno(&input.attrs) {
            Some(i) => i,
            None => {
                return Ok(
                    EnumMeta { use_self: false, name: input.ident.name.clone(), alias: None },
                );
            },
        };
        let end = input.attrs[i].span;
        let tokens = match &input.attrs[i].meta {
            Meta::List(tokens) => tokens,
            _ => {
                return Err(Error::Syntax(end));
            },
        };
        let ghost all = token_views(tokens@);
        let ghost start = EnumMetaView { use_self: false, name: Seq::empty(), alias: None };
        let ghost goal = enum_meta(attribute_views(input.attrs@), input.ident.name@);
        let mut this = EnumMeta { use_self: false, name: String::new(), alias: None };
        let mut pos: usize = 0;
        while pos < tokens.len()
            invariant
                pos <= tokens.len(),
                all == token_views(tokens@),
                goal == enum_meta(attribute_views(input.attrs@), input.ident.name@),
                goal is Err <==> enum_meta_from(all, 0, start, end) is Err,
                goal is Err ==> goal->Err_0 == enum_meta_from(all, 0, start, end)->Err_0,
                enum_meta_from(all, 0, start, end) == enum_meta_from(all, pos as int, this@, end),
            decreases tokens.len() - pos,
        {
            let (key, key_span) = match read_key(tokens, pos, end) {
                Ok(found) => found,
                Err(e) => {
                    return Err(e);
                },
            };
            if same_text(key, "name") {
                if this.name.as_str().unicode_len() > 0 {
                    return Err(Error::DuplicateName(key_span));
                }
                let (text, value_span) = match read_value(tokens, pos + 1, end) {
                    Ok(found) => found,
                    Err(e) => {
                        return Err(e);
                    },
                };
                if is_blank(text) {
                    return Err(Error::EmptyName(value_span));
                }
                let next = match read_separator(tokens, pos + 3) {
                    Ok(next) => next,
                    Err(e) => {
                        return Err(e);
                    },
                };
                this.name = text.to_owned();
                pos = next;
            } else if same_text(key, "alias") {
                if this.use_self {
                    return Err(Error::SelfAndAlias(key_span));
                }
                match &this.alias {
                    Some(earlier) => {
                        return Err(Error::DuplicateKey { span: key_span, previous: earlier.key });
                    },
                    None => {},
                }
                let (text, value_span) = match read_value(tokens, pos + 1, end) {
                    Ok(found) => found,
                    Err(e) => {
                        return Err(e);
                    },
                };
                if is_blank(text) {
                    return Err(Error::EmptyValue(value_span));
                }
                let next = match read_separator(tokens, pos + 3) {
                    Ok(next) => next,
                    Err(e) => {
                        return Err(e);
                    },
                };
                this.alias = Some(Attr { key: key_span, value: value_span, data: text.to_owned() });
                pos = next;
            } else {
                let is_self = same_text(key, "self");
                if is_self && this.alias.is_some() {
                    return Err(Error::SelfAndAlias(key_span));
                }
                let next = match read_separator(tokens, pos + 1) {
                    Ok(next) => next,
                    Err(e) => {
                        return Err(e);
                    },
                };
                if is_self {
                    this.use_self = true;
                }
                pos = next;
            }
        }
        if this.name.as_str().unicode_len() == 0 {
            this.name = input.ident.name.clone();
        }
        Ok(this)
    }
}

/// Where the expression `e` stands.
pub open spec fn expr_span(e: Expr) -> Span {
    match e {
        Expr::Lit(token) => token@.span(),
        Expr::Neg { span, .. } => span,
        Expr::Other(span) => span,
    }
}

/// The number that the literal `token` writes: that of the digits of an
/// integer literal, where it fits; any other literal is no number.
pub open spec fn literal_number(token: TokenView) -> Result<int, ErrorView> {
    match token {
        TokenView::Int { digits, span } => match isize_value(digits) {
            Some(n) => Ok(n),
            None => Err(ErrorView::NumberTooLarge(span)),
        },
        other => Err(ErrorView::ExpectedNumber(other.span())),
    }
}

/// The value of the explicit discriminant `e`: that of an integer literal,
/// or the opposite of that of a negated integer literal, where it fits. Any
/// other expression is an error.
pub open spec fn evaluated(e: Expr) -> Result<int, ErrorView> {
    match e {
        Expr::Lit(token) => literal_number(token@),
        Expr::Neg { operand, .. } => match *operand {
            Expr::Lit(token) => match literal_number(token@) {
                Ok(n) => if -n <= isize::MAX {
                    Ok(-n)
                } else {
                    Err(ErrorView::NumberTooLarge(token@.span()))
                },
                Err(e) => Err(e),
            },
            other => Err(ErrorView::ExpectedNumber(expr_span(other))),
        },
        Expr::Other(span) => Err(ErrorView::ExpectedNumber(span)),
    }
}

/// The number that the literal `token` writes.
fn number_of(token: &Token) -> (r: Result<isize, Error>)
    ensures
        match r {
            Ok(n) => literal_number(token@) == Ok::<int, ErrorView>(n as int),
            Err(e) => literal_number(token@) == Err::<int, ErrorView>(e@),
        },
{
    match token {
        Token::Int { digits, span } => match parse_integer(digits.as_str()) {
            Some(n) => Ok(n),
            None => Err(Error::NumberTooLarge(*span)),
        },
        other => Err(Error::ExpectedNumber(other.span())),
    }
}

/// Where the expression `e` stands.
fn span_of(e: &Expr) -> (r: Span)
    ensures
        r == expr_span(*e),
{
    match e {
        Expr::Lit(token) => token.span(),
        Expr::Neg { span, .. } => *span,
        Expr::Other(span) => *span,
    }
}

/// The value of the explicit discriminant `expr`, or the error that it is.
pub fn evaluate(expr: &Expr) -> (r: Result<isize, Error>)
    ensures
        match r {
            Ok(n) => evaluated(*expr) == Ok::<int, ErrorView>(n as int),
            Err(e) => evaluated(*expr) == Err::<int, ErrorView>(e@),
        },
{
    match expr {
        Expr::Lit(token) => number_of(token),
        Expr::Neg { operand, .. } => match &**operand {
            Expr::Lit(token) => match number_of(token) {
                Ok(n) => if n == isize::MIN {
                    Err(Error::NumberTooLarge(token.span()))
                } else {
                    Ok(-n)
                },
                Err(e) => Err(e),
            },
            other => Err(Error::ExpectedNumber(span_of(other))),
        },
        Expr::Other(span) => Err(Error::ExpectedNumber(*span)),
    }
}

/// The value of the explicit discriminant `expr`; where it has none, the
/// error is added to `errors`.
pub fn eval_expr(expr: &Expr, errors: &mut Vec<Report>) -> (r: Option<isize>)
    ensures
        match evaluated(*expr) {
            Ok(n) => r == Some(n as isize) && n == r->0 && final(errors)@ == old(errors)@,
            Err(e) => r is None && report_views(final(errors)@) == report_views(old(errors)@).push(
                seq![e],
            ),
        },
        all_wf(old(errors)@) ==> all_wf(final(errors)@),
{
    match evaluate(expr) {
        Ok(n) => Some(n),
        Err(e) => {
            report(errors, e);
            None
        },
    }
}

/// The keys that the metadata of a member may hold.
pub open spec fn variant_keys() -> Seq<(Seq<char>, Kind)> {
    seq![("name"@, Kind::Name)]
}

/// What has been gathered from the members of an enumeration so far, and the
/// number that the next member without a discriminant of its own gets.
pub struct Numbered {
    pub gathered: Gathered<VariantView>,
    pub next: int,
}

/// The rendered name of a member and the place to blame for it: the value of
/// `name` in its metadata, else its own identifier.
pub open spec fn member_name(kvs: Map<Kind, AttrView>, ident: Ident) -> (Seq<char>, Span) {
    if kvs.dom().contains(Kind::Name) {
        (kvs[Kind::Name].data, kvs[Kind::Name].value)
    } else {
        (ident.name@, ident.span)
    }
}

/// The member `v` as it is rendered under `name`, with the value `d`.
pub open spec fn member(v: VariantDecl, name: Seq<char>, d: DiscriminantView) -> VariantView {
    VariantView {
        span: v.span,
        variant: v.ident.name@,
        name,
        discriminant: d,
        docs: collected_docs(attribute_views(v.attrs@)),
    }
}

/// `st` after the member `v` with the metadata `kvs`. `named` is the name
/// that every member has for its value, where the enum asks for one.
///
/// A member that carries data is reported and left out. Where the enum names
/// the value, a member with a discriminant of its own is reported and left
/// out, and any other has that name for its value. Else a member has the
/// value of its discriminant, or the running number where it has none; the
/// running number then goes up by one, whether it was used or not. A
/// discriminant that has no value is reported, the member left out, and the
/// running number stays. A member that is not left out is placed under its
/// rendered name.
pub open spec fn variant_taken(
    st: Numbered,
    v: VariantDecl,
    kvs: Map<Kind, AttrView>,
    named: Option<Seq<char>>,
) -> Numbered {
    let (name, span) = member_name(kvs, v.ident);
    if !v.unit {
        Numbered {
            gathered: reported(st.gathered, seq![ErrorView::OnlyUnitVariants(v.span)]),
            ..st
        }
    } else {
        match named {
            Some(text) => if v.discriminant is Some {
                Numbered {
                    gathered: reported(st.gathered, seq![ErrorView::SelfDiscriminant(v.span)]),
                    ..st
                }
            } else {
                Numbered {
                    gathered: placed(
                        st.gathered,
                        name,
                        span,
                        member(v, name, DiscriminantView::Named(text)),
                    ),
                    ..st
                }
            },
            None => match v.discriminant {
                Some(expr) => match evaluated(expr) {
                    Err(e) => Numbered { gathered: reported(st.gathered, seq![e]), ..st },
                    Ok(n) => Numbered {
                        gathered: placed(
                            st.gathered,
                            name,
                            span,
                            member(v, name, DiscriminantView::Number(n)),
                        ),
                        next: st.next + 1,
                    },
                },
                None => Numbered {
                    gathered: placed(
                        st.gathered,
                        name,
                        span,
                        member(v, name, DiscriminantView::Number(st.next)),
                    ),
                    next: st.next + 1,
                },
            },
        }
    }
}

/// `st` after the member `v`: the report of its metadata where that is
/// wrong, else what `variant_taken` says.
pub open spec fn variant_step(st: Numbered, v: VariantDecl, named: Option<Seq<char>>) -> Numbered {
    match parsed_attrs(attribute_views(v.attrs@), variant_keys()) {
        Err(report) => Numbered { gathered: reported(st.gathered, report), ..st },
        Ok(kvs) => variant_taken(st, v, kvs, named),
    }
}

/// `st` after the first `n` of the members `variants`.
pub open spec fn variants_upto(
    variants: Seq<VariantDecl>,
    n: int,
    named: Option<Seq<char>>,
) -> Numbered
    decreases n,
{
    if n <= 0 {
        Numbered { gathered: nothing_gathered(), next: 0 }
    } else {
        variant_step(variants_upto(variants, n - 1, named), variants[n - 1], named)
    }
}

/// The members of an enum, from the members `variants` of an enumeration.
pub open spec fn collected_variants(variants: Seq<VariantDecl>, named: Option<Seq<char>>) -> Result<
    Seq<VariantView>,
    Seq<ErrorView>,
> {
    concluded(variants_upto(variants, variants.len() as int, named).gathered)
}

/// What gathering members gives, seen as plain values.
pub open spec fn variants_outcome(r: Result<Vec<Variant>, Report>) -> Result<
    Seq<VariantView>,
    Seq<ErrorView>,
> {
    match r {
        Ok(variants) => Ok(variant_views(variants@)),
        Err(report) => Err(report@),
    }
}

/// The members, reports and names gathered, as one value.
pub open spec fn gathered_variants(
    out: Seq<Variant>,
    errors: Seq<Report>,
    seen: Seq<(Seq<char>, Span)>,
) -> Gathered<VariantView> {
    Gathered { items: variant_views(out), errors: report_views(errors), seen }
}

/// Places `variant`, whose name stands at `span`, among the members
/// gathered.
fn place_variant(
    out: &mut Vec<Variant>,
    errors: &mut Vec<Report>,
    seen: &mut Seen,
    span: Span,
    variant: Variant,
)
    ensures
        gathered_variants(final(out)@, final(errors)@, final(seen)@) == placed(
            gathered_variants(old(out)@, old(errors)@, old(seen)@),
            variant.name@,
            span,
            variant@,
        ),
        all_wf(old(errors)@) ==> all_wf(final(errors)@),
{
    match seen.note(variant.name.as_str(), span) {
        Some(previous) => {
            report(errors, Error::NameConflict { span, previous });
        },
        None => {
            out.push(variant);
            assert(variant_views(out@) =~= variant_views(old(out)@).push(variant@));
        },
    }
}

/// Gathers the members of an enum from the members of an enumeration. With
/// `use_self`, every member has the name `enum_name` for its value; without,
/// members are numbered.
pub fn collect_variants(variants: &Vec<VariantDecl>, enum_name: &str, use_self: bool) -> (r: Result<
    Vec<Variant>,
    Report,
>)
    requires
        variants@.len() <= isize::MAX,
    ensures
        variants_outcome(r) == collected_variants(
            variants@,
            if use_self {
                Some(enum_name@)
            } else {
                None
            },
        ),
        r matches Err(report) ==> report.wf(),
        r matches Ok(found) ==> variant_names_differ(variant_views(found@)),
{
    let ghost named = if use_self {
        Some(enum_name@)
    } else {
        None
    };
    let mut out: Vec<Variant> = Vec::new();
    let mut errors: Vec<Report> = Vec::new();
    let mut seen = Seen::new();
    let mut n: isize = 0;
    let keys = [("name", Kind::Name)];
    let allowed = keys.as_slice();
    proof {
        broadcast use vstd::array::group_array_axioms;

        assert(allowed_view(allowed@) =~= variant_keys());
        assert(variant_views(out@) =~= Seq::empty());
        assert(report_views(errors@) =~= Seq::empty());
    }
    let mut i: usize = 0;
    while i < variants.len()
        invariant
            i <= variants.len(),
            variants@.len() <= isize::MAX,
            0 <= n <= i,
            allowed_view(allowed@) == variant_keys(),
            named == if use_self {
                Some(enum_name@)
            } else {
                None
            },
            all_wf(errors@),
            variants_upto(variants@, i as int, named) == (Numbered {
                gathered: gathered_variants(out@, errors@, seen@),
                next: n as int,
            }),
        decreases variants.len() - i,
    {
        let variant = &variants[i];
        let ghost before = variants_upto(variants@, i as int, named);
        assert(variants_upto(variants@, i + 1, named) == variant_step(before, *variant, named));
        let docs = collect_docs(&variant.attrs);
        match parse_attrs(&variant.attrs, allowed) {
            Err(found) => {
                keep(&mut errors, found);
            },
            Ok(kvs) => {
                let mut kvs = kvs;
                let ghost entries = kvs@;
                let (name, span) = match kvs.remove(Kind::Name) {
                    Some(attr) => (attr.data, attr.value),
                    None => (variant.ident.name.clone(), variant.ident.span),
                };
                assert(name@ == member_name(entries, variant.ident).0);
                assert(span == member_name(entries, variant.ident).1);
                if !variant.unit {
                    report(&mut errors, Error::OnlyUnitVariants(variant.span));
                } else if use_self {
                    if variant.discriminant.is_some() {
                        report(&mut errors, Error::SelfDiscriminant(variant.span));
                    } else {
                        let new = Variant {
                            span: variant.span,
                            variant: variant.ident.name.clone(),
                            name,
                            discriminant: Discriminant::Named(enum_name.to_owned()),
                            docs,
                        };
                        place_variant(&mut out, &mut errors, &mut seen, span, new);
                    }
                } else {
                    let number = match &variant.discriminant {
                        Some(expr) => eval_expr(expr, &mut errors),
                        None => Some(n),
                    };
                    match number {
                        Some(value) => {
                            n = n + 1;
                            let new = Variant {
                                span: variant.span,
                                variant: variant.ident.name.clone(),
                                name,
                                discriminant: Discriminant::Number(value),
                                docs,
                            };
                            place_variant(&mut out, &mut errors, &mut seen, span, new);
                        },
                        None => {},
                    }
                }
                assert((Numbered {
                    gathered: gathered_variants(out@, errors@, seen@),
                    next: n as int,
                }) == variant_taken(before, *variant, entries, named));
            },
        }
        i = i + 1;
    }
    let ghost gathered = gathered_variants(out@, errors@, seen@);
    match combine(errors) {
        Some(found) => Err(found),
        None => {
            proof {
                law_variant_names_unique(variants@, named);
                let found = variant_views(out@);
                assert(variants_upto(variants@, variants@.len() as int, named).gathered
                    == gathered);
                assert(gathered.errors.len() == 0);
                assert(collected_variants(variants@, named) == Ok::<_, Seq<ErrorView>>(found));
            }
            Ok(out)
        },
    }
}

/// The rendered name of each member of `variants`, with the member's own
/// identifier.
pub open spec fn variant_mapping(variants: Seq<VariantView>) -> Seq<(Seq<char>, Seq<char>)> {
    Seq::new(variants.len(), |i: int| (variants[i].name, variants[i].variant))
}

/// The table from the rendered names of an enum's members to the members
/// themselves, by their own identifiers.
pub fn make_variant_mapping(variants: &Vec<Variant>) -> (r: Vec<(String, String)>)
    ensures
        Seq::new(r@.len(), |i: int| (r@[i].0@, r@[i].1@)) == variant_mapping(
            variant_views(variants@),
        ),
{
    let mut out: Vec<(String, String)> = Vec::new();
    let mut i: usize = 0;
    while i < variants.len()
        invariant
            i <= variants.len(),
            out@.len() == i,
            forall|j: int|
                0 <= j < i ==> (#[trigger] out@[j]).0@ == variants@[j].name@ && out@[j].1@
                    == variants@[j].variant@,
        decreases variants.len() - i,
    {
        out.push((variants[i].name.clone(), variants[i].variant.clone()));
        i = i + 1;
    }
    assert(Seq::new(out@.len(), |i: int| (out@[i].0@, out@[i].1@)) =~= variant_mapping(
        variant_views(variants@),
    ));
    out
}

/// The name that every member has for its value, where the metadata `meta`
/// asks for one: the alias where one is given, else the enum's rendered name
/// in `self` mode.
pub open spec fn named_value(meta: EnumMetaView) -> Option<Seq<char>> {
    match meta.alias {
        Some(alias) => Some(alias.data),
        None => if meta.use_self {
            Some(meta.name)
        } else {
            None
        },
    }
}

/// The enum that the enumeration `input` with the members `variants`
/// describes.
pub open spec fn modeled_enum(input: Declaration, variants: Seq<VariantDecl>) -> Result<
    EnumView,
    Seq<ErrorView>,
> {
    match enum_meta(attribute_views(input.attrs@), input.ident.name@) {
        Err(e) => Err(seq![e]),
        Ok(meta) => match collected_variants(variants, named_value(meta)) {
            Err(report) => Err(report),
            Ok(found) => Ok(
                EnumView {
                    docs: collected_docs(attribute_views(input.attrs@)),
                    name: meta.name,
                    variants: found,
                },
            ),
        },
    }
}

/// What modeling an enumeration gives, seen as plain values.
pub open spec fn enum_outcome(r: Result<Enum, Report>) -> Result<EnumView, Seq<ErrorView>> {
    match r {
        Ok(e) => Ok(e@),
        Err(report) => Err(report@),
    }
}

/// Models the enumeration `input`, whose members are `variants`, as an enum.
pub fn parse(input: &Declaration, variants: &Vec<VariantDecl>) -> (r: Result<Enum, Report>)
    requires
        variants@.len() <= isize::MAX,
    ensures
        enum_outcome(r) == modeled_enum(*input, variants@),
        r matches Err(report) ==> report.wf(),
        r matches Ok(e) ==> e@.wf(),
{
    let docs = collect_docs(&input.attrs);
    let meta = match EnumMeta::parse(input) {
        Ok(meta) => meta,
        Err(e) => {
            return Err(Report::single(e));
        },
    };
    let gathered = match &meta.alias {
        Some(alias) => collect_variants(variants, alias.data.as_str(), true),
        None => collect_variants(variants, meta.name.as_str(), meta.use_self),
    };
    let found = match gathered {
        Ok(found) => found,
        Err(report) => {
            return Err(report);
        },
    };
    Ok(Enum { docs, name: meta.name, variants: found })
}

} // verus!
