//! Modeling of records: class metadata, type guessing, and the fields.

use crate::attrs::{
    allowed_view, find_anno, first_named, key_at, next_item_at, parse_attrs, parsed_attrs,
    read_key, read_separator, read_value, value_at, AttrView, Kind,
};
use crate::data::{field_names_differ, field_views, Class, ClassView, Field, FieldView, Span};
use crate::decl::{Argument, Arguments, Declaration, FieldDecl, Ident, TypeShape};
use crate::docs::{collect_docs, collected_docs};
use crate::error::{
    all_wf, combine, keep, merged, report, report_views, Error, ErrorView, Report,
};
use crate::laws::law_field_names_unique;
use crate::text::{blank, is_blank, same_text};
use crate::token::{attribute_views, token_views, AttributeView, Meta, MetaView, TokenView};
use crate::unique::{last_seen, Seen};
use vstd::prelude::*;
use vstd::string::StringExecFns;

verus! {

/// Whether `ident` names one of Rust's integer types of fixed or machine
/// width.
pub open spec fn is_integer_name(ident: Seq<char>) -> bool {
    ||| ident == "i8"@
    ||| ident == "i16"@
    ||| ident == "i32"@
    ||| ident == "i64"@
    ||| ident == "i128"@
    ||| ident == "isize"@
    ||| ident == "u8"@
    ||| ident == "u16"@
    ||| ident == "u32"@
    ||| ident == "u64"@
    ||| ident == "u128"@
    ||| ident == "usize"@
}

/// The Lua type of the plain Rust type named `ident`, if it has one.
pub open spec fn base_type(ident: Seq<char>) -> Option<Seq<char>> {
    if ident == "String"@ {
        Some("string"@)
    } else if ident == "f32"@ || ident == "f64"@ {
        Some("number"@)
    } else if ident == "bool"@ {
        Some("boolean"@)
    } else if is_integer_name(ident) {
        Some("integer"@)
    } else {
        None
    }
}

/// What the wrapper named `ident` adds behind the Lua type of its argument:
/// `?` for `Option`, `[]` for `Vec`. No other name is a wrapper.
pub open spec fn wrapper_suffix(ident: Seq<char>) -> Option<Seq<char>> {
    if ident == "Option"@ {
        Some("?"@)
    } else if ident == "Vec"@ {
        Some("[]"@)
    } else {
        None
    }
}

/// The type that `shape` wraps, and the suffix that the wrapper adds, where
/// `shape` is `Option<T>` or `Vec<T>` with exactly one argument, a type.
pub open spec fn unwrapped(shape: TypeShape) -> Option<(TypeShape, Seq<char>)> {
    match shape {
        TypeShape::Path { leading_colon, segments } => if segments@.len() == 1 && !(!leading_colon
            && segments@[0].arguments is Absent) && wrapper_suffix(segments@[0].ident@) is Some
            && segments@[0].arguments is Angle && segments@[0].arguments->Angle_0@.len() == 1
            && segments@[0].arguments->Angle_0@[0] is Type {
            Some(
                (
                    segments@[0].arguments->Angle_0@[0]->Type_0,
                    wrapper_suffix(segments@[0].ident@)->0,
                ),
            )
        } else {
            None
        },
        TypeShape::Other => None,
    }
}

/// The Lua type of the plain type `shape`: a path that is one identifier out
/// of the table of `base_type`.
pub open spec fn plain(shape: TypeShape) -> Option<Seq<char>> {
    match shape {
        TypeShape::Path { leading_colon, segments } => if segments@.len() == 1 && !leading_colon
            && segments@[0].arguments is Absent {
            base_type(segments@[0].ident@)
        } else {
            None
        },
        TypeShape::Other => None,
    }
}

/// The Lua type guessed for a field of the declared type `shape`, if any.
///
/// A plain type has the Lua type of the table. `Option<T>` has that of `T`
/// followed by `?`, and `Vec<T>` that of `T` followed by `[]`. Every other
/// shape has none.
pub open spec fn classified(shape: TypeShape) -> Option<Seq<char>>
    decreases shape,
{
    match unwrapped(shape) {
        Some((inner, suffix)) => match classified(inner) {
            Some(name) => Some(name + suffix),
            None => None,
        },
        None => plain(shape),
    }
}

/// The Lua type of the plain Rust type named `ident`, if it has one.
fn base_type_of(ident: &str) -> (r: Option<&'static str>)
    ensures
        match r {
            Some(name) => base_type(ident@) == Some(name@),
            None => base_type(ident@) is None,
        },
{
    if same_text(ident, "String") {
        Some("string")
    } else if same_text(ident, "f32") || same_text(ident, "f64") {
        Some("number")
    } else if same_text(ident, "bool") {
        Some("boolean")
    } else if same_text(ident, "i8") || same_text(ident, "i16") || same_text(ident, "i32")
        || same_text(ident, "i64") || same_text(ident, "i128") || same_text(ident, "isize")
        || same_text(ident, "u8") || same_text(ident, "u16") || same_text(ident, "u32")
        || same_text(ident, "u64") || same_text(ident, "u128") || same_text(ident, "usize") {
        Some("integer")
    } else {
        None
    }
}

/// The type that `shape` wraps and the suffix of the wrapper, if `shape` is a
/// wrapper.
fn unwrap_shape(shape: &TypeShape) -> (r: Option<(&TypeShape, &'static str)>)
    ensures
        match r {
            Some((inner, suffix)) => unwrapped(*shape) == Some((*inner, suffix@)),
            None => unwrapped(*shape) is None,
        },
{
    match shape {
        TypeShape::Path { leading_colon, segments } => {
            if segments.len() != 1 {
                return None;
            }
            let head = &segments[0];
            let suffix = if same_text(head.ident.as_str(), "Option") {
                "?"
            } else if same_text(head.ident.as_str(), "Vec") {
                "[]"
            } else {
                return None;
            };
            match &head.arguments {
                Arguments::Angle(args) => {
                    if args.len() != 1 {
                        return None;
                    }
                    match &args[0] {
                        Argument::Type(inner) => Some((inner, suffix)),
                        Argument::Other => None,
                    }
                },
                _ => None,
            }
        },
        TypeShape::Other => None,
    }
}

/// The Lua type of the plain type `shape`, if it has one.
fn plain_type(shape: &TypeShape) -> (r: Option<&'static str>)
    ensures
        match r {
            Some(name) => plain(*shape) == Some(name@),
            None => plain(*shape) is None,
        },
{
    match shape {
        TypeShape::Path { leading_colon, segments } => {
            if segments.len() != 1 || *leading_colon {
                return None;
            }
            match &segments[0].arguments {
                Arguments::Absent => base_type_of(segments[0].ident.as_str()),
                _ => None,
            }
        },
        TypeShape::Other => None,
    }
}

/// Guesses the Lua type of a field from its declared type: `None` where the
/// shape is not one that is known, so that the caller falls back.
pub fn try_classify_type(shape: &TypeShape) -> (r: Option<String>)
    ensures
        match r {
            Some(name) => classified(*shape) == Some(name@),
            None => classified(*shape) is None,
        },
{
    let mut current = shape;
    let mut suffixes = String::new();
    loop
        invariant
            classified(*shape) == match classified(*current) {
                Some(name) => Some(name + suffixes@),
                None => None,
            },
        decreases *current,
    {
        match unwrap_shape(current) {
            Some((inner, suffix)) => {
                let ghost before = suffixes@;
                suffixes = String::from_str(suffix).concat(suffixes.as_str());
                proof {
                    match classified(*inner) {
                        Some(name) => {
                            assert(name + suffix@ + before =~= name + suffixes@);
                        },
                        None => {},
                    }
                }
                current = inner;
            },
            None => {
                return match plain_type(current) {
                    Some(name) => Some(String::from_str(name).concat(suffixes.as_str())),
                    None => None,
                };
            },
        }
    }
}

/// What the metadata of a record says of the class.
#[derive(Clone, Debug, PartialEq, Eq)]
pub struct ClassMeta {
    pub exact: bool,
    pub guess: bool,
    pub name: String,
}

pub struct ClassMetaView {
    pub exact: bool,
    pub guess: bool,
    pub name: Seq<char>,
}

impl View for ClassMeta {
    type V = ClassMetaView;

    open spec fn view(&self) -> ClassMetaView {
        ClassMetaView { exact: self.exact, guess: self.guess, name: self.name@ }
    }
}

/// What the tokens from `pos` on add to `m`, where an item starts at `pos`.
///
/// `name = "value"` renames the class: a second one is an error at its key,
/// and a value of white space alone an error at the value. `exact` and
/// `guess` set their flags. Any other key is passed over. The first error
/// ends the reading.
pub open spec fn class_meta_from(
    tokens: Seq<TokenView>,
    pos: int,
    m: ClassMetaView,
    end: Span,
) -> Result<ClassMetaView, ErrorView>
    decreases tokens.len() - pos,
{
    if pos < 0 || pos >= tokens.len() {
        Ok(m)
    } else {
        match key_at(tokens, pos, end) {
            Err(e) => Err(e),
            Ok((key, key_span)) => if key == "name"@ {
                if m.name.len() > 0 {
                    Err(ErrorView::DuplicateName(key_span))
                } else {
                    match value_at(tokens, pos + 1, end) {
                        Err(e) => Err(e),
                        Ok((text, value_span)) => if blank(text) {
                            Err(ErrorView::EmptyName(value_span))
                        } else {
                            match next_item_at(tokens, pos + 3) {
                                Err(e) => Err(e),
                                Ok(next) => class_meta_from(
                                    tokens,
                                    next,
                                    ClassMetaView { name: text, ..m },
                                    end,
                                ),
                            }
                        },
                    }
                }
            } else {
                match next_item_at(tokens, pos + 1) {
                    Err(e) => Err(e),
                    Ok(next) => class_meta_from(
                        tokens,
                        next,
                        ClassMetaView {
                            exact: m.exact || key == "exact"@,
                            guess: m.guess || key == "guess"@,
                            ..m
                        },
                        end,
                    ),
                }
            },
        }
    }
}

/// What the attributes `attrs` of the record named `ident` say of the class:
/// without metadata, the record's own name and no flag; else what the block
/// of the first `anno` attribute says, with the record's own name where the
/// block gives none.
pub open spec fn class_meta(attrs: Seq<AttributeView>, ident: Seq<char>) -> Result<
    ClassMetaView,
    ErrorView,
> {
    let i = first_named(attrs, "anno"@);
    if i >= attrs.len() {
        Ok(ClassMetaView { exact: false, guess: false, name: ident })
    } else {
        match attrs[i].meta {
            MetaView::List(tokens) => match class_meta_from(
                tokens,
                0,
                ClassMetaView { exact: false, guess: false, name: Seq::empty() },
                attrs[i].span,
            ) {
                Ok(m) => Ok(
                    if m.name.len() == 0 {
                        ClassMetaView { name: ident, ..m }
                    } else {
                        m
                    },
                ),
                Err(e) => Err(e),
            },
            _ => Err(ErrorView::Syntax(attrs[i].span)),
        }
    }
}

/// What reading class metadata gives, seen as plain values.
pub open spec fn class_meta_outcome(r: Result<ClassMeta, Error>) -> Result<
    ClassMetaView,
    ErrorView,
> {
    match r {
        Ok(m) => Ok(m@),
        Err(e) => Err(e@),
    }
}

impl ClassMeta {
    /// Reads the metadata of the record `input`.
    pub fn parse(input: &Declaration) -> (r: Result<ClassMeta, Error>)
        ensures
            class_meta_outcome(r) == class_meta(
                attribute_views(input.attrs@),
                input.ident.name@,
            ),
    {
        let i = match find_anno(&input.attrs) {
            Some(i) => i,
            None => {
                return Ok(ClassMeta { exact: false, guess: false, name: input.ident.name.clone() });
            },
        };
        let end = input.attrs[i].span;
        let tokens = match &input.attrs[i].meta {
            Meta::List(tokens) => tokens,
            _ => {
                return Err(Error::Syntax(end));
            },
        };
        let ghost all = token_views(tokens@);
        let ghost start = ClassMetaView { exact: false, guess: false, name: Seq::empty() };
        let ghost goal = class_meta(attribute_views(input.attrs@), input.ident.name@);
        let mut this = ClassMeta { exact: false, guess: false, name: String::new() };
        let mut pos: usize = 0;
        while pos < tokens.len()
            invariant
                pos <= tokens.len(),
                all == token_views(tokens@),
                goal == class_meta(attribute_views(input.attrs@), input.ident.name@),
                goal is Err <==> class_meta_from(all, 0, start, end) is Err,
                goal is Err ==> goal->Err_0 == class_meta_from(all, 0, start, end)->Err_0,
                class_meta_from(all, 0, start, end) == class_meta_from(all, pos as int, this@, end),
            decreases tokens.len() - pos,
        {
            let (key, key_span) = match read_key(tokens, pos, end) {
                Ok(found) => found,
                Err(e) => {
                    return Err(e);
                },
            };
            if same_text(key, "name") {
                if this.name.as_str().unicode_len() > 0 {
                    return Err(Error::DuplicateName(key_span));
                }
                let (text, value_span) = match read_value(tokens, pos + 1, end) {
                    Ok(found) => found,
                    Err(e) => {
                        return Err(e);
                    },
                };
                if is_blank(text) {
                    return Err(Error::EmptyName(value_span));
                }
                let next = match read_separator(tokens, pos + 3) {
                    Ok(next) => next,
                    Err(e) => {
                        return Err(e);
                    },
                };
                this.name = text.to_owned();
                pos = next;
            } else {
                let next = match read_separator(tokens, pos + 1) {
                    Ok(next) => next,
                    Err(e) => {
                        return Err(e);
                    },
                };
                if same_text(key, "exact") {
                    this.exact = true;
                }
                if same_text(key, "guess") {
                    this.guess = true;
                }
                pos = next;
            }
        }
        if this.name.as_str().unicode_len() == 0 {
            this.name = input.ident.name.clone();
        }
        Ok(this)
    }
}

/// The keys that the metadata of a field may hold.
pub open spec fn field_keys() -> Seq<(Seq<char>, Kind)> {
    seq![("ignore"@, Kind::Ignore), ("lua_type"@, Kind::Type), ("name"@, Kind::Name)]
}

/// What has been gathered from the members of a declaration so far: the
/// members that stand, the reports in the order in which they were made, and
/// the rendered names met, each with its place.
pub struct Gathered<T> {
    pub items: Seq<T>,
    pub errors: Seq<Seq<ErrorView>>,
    pub seen: Seq<(Seq<char>, Span)>,
}

/// Nothing gathered yet.
pub open spec fn nothing_gathered<T>() -> Gathered<T> {
    Gathered { items: Seq::empty(), errors: Seq::empty(), seen: Seq::empty() }
}

/// `g` after one more report.
pub open spec fn reported<T>(g: Gathered<T>, report: Seq<ErrorView>) -> Gathered<T> {
    Gathered { errors: g.errors.push(report), ..g }
}

/// `g` after the member `item`, rendered as `name`, whose name stands at
/// `span`: the member stands if the name is new; else it is left out and the
/// conflict reported at `span`, with the place where the name was last met.
/// Either way the name counts as met at `span` from now on.
pub open spec fn placed<T>(g: Gathered<T>, name: Seq<char>, span: Span, item: T) -> Gathered<T> {
    match last_seen(g.seen, name) {
        Some(previous) => Gathered {
            errors: g.errors.push(seq![ErrorView::NameConflict { span, previous }]),
            seen: g.seen.push((name, span)),
            ..g
        },
        None => Gathered { items: g.items.push(item), seen: g.seen.push((name, span)), ..g },
    }
}

/// What gathering gives in the end: the members, if no report was made; else
/// all reports merged, the last one first.
pub open spec fn concluded<T>(g: Gathered<T>) -> Result<Seq<T>, Seq<ErrorView>> {
    if g.errors.len() == 0 {
        Ok(g.items)
    } else {
        Err(merged(g.errors))
    }
}

/// The rendered name of a field and the place to blame for it: the value of
/// `name` in its metadata, else its own identifier.
pub open spec fn field_name(kvs: Map<Kind, AttrView>, ident: Ident) -> (Seq<char>, Span) {
    if kvs.dom().contains(Kind::Name) {
        (kvs[Kind::Name].data, kvs[Kind::Name].value)
    } else {
        (ident.name@, ident.span)
    }
}

/// The Lua type of a field: the value of `lua_type` in its metadata; else,
/// where types are guessed, what its declared type suggests, or `any`; else
/// none.
pub open spec fn field_type(kvs: Map<Kind, AttrView>, shape: TypeShape, guess: bool) -> Option<
    Seq<char>,
> {
    if kvs.dom().contains(Kind::Type) {
        Some(kvs[Kind::Type].data)
    } else if guess {
        match classified(shape) {
            Some(name) => Some(name),
            None => Some("any"@),
        }
    } else {
        None
    }
}

/// `g` after the named field `field` with the metadata `kvs`.
///
/// An ignored field changes nothing. A field without a type, where types are
/// not guessed, is reported at its identifier. Any other field is placed
/// under its rendered name.
pub open spec fn field_taken(
    g: Gathered<FieldView>,
    field: FieldDecl,
    kvs: Map<Kind, AttrView>,
    guess: bool,
) -> Gathered<FieldView>
    recommends
        field.ident is Some,
{
    let ident = field.ident->0;
    if kvs.dom().contains(Kind::Ignore) {
        g
    } else {
        let (name, span) = field_name(kvs, ident);
        match field_type(kvs, field.ty, guess) {
            None => reported(g, seq![ErrorView::TyRequire(ident.span)]),
            Some(ty) => placed(
                g,
                name,
                span,
                FieldView { name, ty, docs: collected_docs(attribute_views(field.attrs@)) },
            ),
        }
    }
}

/// `g` after the member `field` of a record: the report of its metadata
/// where that is wrong; else, for a member without a name, an error that ends
/// the gathering; else what `field_taken` says.
pub open spec fn field_step(g: Gathered<FieldView>, field: FieldDecl, guess: bool) -> Result<
    Gathered<FieldView>,
    ErrorView,
> {
    match parsed_attrs(attribute_views(field.attrs@), field_keys()) {
        Err(report) => Ok(reported(g, report)),
        Ok(kvs) => if field.ident is None {
            Err(ErrorView::UnnamedField(field.span))
        } else {
            Ok(field_taken(g, field, kvs, guess))
        },
    }
}

/// What the first `n` of the members `fields` give, or the error that ended
/// the gathering among them.
pub open spec fn fields_upto(fields: Seq<FieldDecl>, n: int, guess: bool) -> Result<
    Gathered<FieldView>,
    ErrorView,
>
    decreases n,
{
    if n <= 0 {
        Ok(nothing_gathered())
    } else {
        match fields_upto(fields, n - 1, guess) {
            Err(e) => Err(e),
            Ok(g) => field_step(g, fields[n - 1], guess),
        }
    }
}

/// An error that ends the gathering among the first `n` members is the
/// outcome for every longer prefix.
pub proof fn lemma_gathering_ended(fields: Seq<FieldDecl>, n: int, m: int, guess: bool)
    requires
        n <= m,
        fields_upto(fields, n, guess) is Err,
    ensures
        fields_upto(fields, m, guess) == fields_upto(fields, n, guess),
    decreases m - n,
{
    if n < m {
        lemma_gathering_ended(fields, n, m - 1, guess);
    }
}

/// The fields of a class, from the members `fields` of a record.
pub open spec fn collected_fields(fields: Seq<FieldDecl>, guess: bool) -> Result<
    Seq<FieldView>,
    Seq<ErrorView>,
> {
    match fields_upto(fields, fields.len() as int, guess) {
        Err(e) => Err(seq![e]),
        Ok(g) => concluded(g),
    }
}

/// What gathering fields gives, seen as plain values.
pub open spec fn fields_outcome(r: Result<Vec<Field>, Report>) -> Result<
    Seq<FieldView>,
    Seq<ErrorView>,
> {
    match r {
        Ok(fields) => Ok(field_views(fields@)),
        Err(report) => Err(report@),
    }
}

/// Places `field`, whose name stands at `span`, among the fields gathered.
fn place_field(
    out: &mut Vec<Field>,
    errors: &mut Vec<Report>,
    seen: &mut Seen,
    span: Span,
    field: Field,
)
    ensures
        gathered_fields(final(out)@, final(errors)@, final(seen)@) == placed(
            gathered_fields(old(out)@, old(errors)@, old(seen)@),
            field.name@,
            span,
            field@,
        ),
        all_wf(old(errors)@) ==> all_wf(final(errors)@),
{
    match seen.note(field.name.as_str(), span) {
        Some(previous) => {
            report(errors, Error::NameConflict { span, previous });
        },
        None => {
            out.push(field);
            assert(field_views(out@) =~= field_views(old(out)@).push(field@));
        },
    }
}

/// The fields, reports and names gathered, as one value.
pub open spec fn gathered_fields(
    out: Seq<Field>,
    errors: Seq<Report>,
    seen: Seq<(Seq<char>, Span)>,
) -> Gathered<FieldView> {
    Gathered { items: field_views(out), errors: report_views(errors), seen }
}

/// Gathers the fields of a class from the members of a record. With `guess`,
/// a field without a `lua_type` gets the type that its declared type
/// suggests, or `any`.
pub fn collect_fields(fields: &Vec<FieldDecl>, guess: bool) -> (r: Result<Vec<Field>, Report>)
    ensures
        fields_outcome(r) == collected_fields(fields@, guess),
        r matches Err(report) ==> report.wf(),
        r matches Ok(found) ==> field_names_differ(field_views(found@)),
{
    let mut out: Vec<Field> = Vec::new();
    let mut errors: Vec<Report> = Vec::new();
    let mut seen = Seen::new();
    let keys = [("ignore", Kind::Ignore), ("lua_type", Kind::Type), ("name", Kind::Name)];
    let allowed = keys.as_slice();
    proof {
        broadcast use vstd::array::group_array_axioms;

        assert(allowed_view(allowed@) =~= field_keys());
        assert(field_views(out@) =~= Seq::empty());
        assert(report_views(errors@) =~= Seq::empty());
    }
    let mut i: usize = 0;
    while i < fields.len()
        invariant
            i <= fields.len(),
            allowed_view(allowed@) == field_keys(),
            all_wf(errors@),
            fields_upto(fields@, i as int, guess) == Ok::<Gathered<FieldView>, ErrorView>(
                gathered_fields(out@, errors@, seen@),
            ),
        decreases fields.len() - i,
    {
        let field = &fields[i];
        let ghost before = gathered_fields(out@, errors@, seen@);
        match parse_attrs(&field.attrs, allowed) {
            Err(found) => {
                keep(&mut errors, found);
            },
            Ok(kvs) => {
                let mut kvs = kvs;
                let ghost entries = kvs@;
                let ident = match &field.ident {
                    Some(ident) => ident,
                    None => {
                        proof {
                            lemma_gathering_ended(fields@, i + 1, fields@.len() as int, guess);
                        }
                        return Err(Report::single(Error::UnnamedField(field.span)));
                    },
                };
                if !kvs.contains(Kind::Ignore) {
                    let (name, span) = match kvs.remove(Kind::Name) {
                        Some(attr) => (attr.data, attr.value),
                        None => (ident.name.clone(), ident.span),
                    };
                    let ty = match kvs.remove(Kind::Type) {
                        Some(attr) => Some(attr.data),
                        None => if guess {
                            match try_classify_type(&field.ty) {
                                Some(name) => Some(name),
                                None => Some(String::from_str("any")),
                            }
                        } else {
                            None
                        },
                    };
                    assert(name@ == field_name(entries, *ident).0);
                    assert(span == field_name(entries, *ident).1);
                    match ty {
                        None => {
                            assert(field_type(entries, field.ty, guess) is None);
                            report(&mut errors, Error::TyRequire(ident.span));
                        },
                        Some(ty) => {
                            assert(field_type(entries, field.ty, guess) == Some(ty@));
                            let new = Field { name, ty, docs: collect_docs(&field.attrs) };
                            place_field(&mut out, &mut errors, &mut seen, span, new);
                        },
                    }
                }
                assert(gathered_fields(out@, errors@, seen@) == field_taken(
                    before,
                    *field,
                    entries,
                    guess,
                ));
            },
        }
        i = i + 1;
    }
    match combine(errors) {
        Some(report) => Err(report),
        None => {
            proof {
                law_field_names_unique(fields@, guess);
            }
            Ok(out)
        },
    }
}

/// The class that the record `input` with the members `fields` describes.
pub open spec fn modeled_class(input: Declaration, fields: Seq<FieldDecl>) -> Result<
    ClassView,
    Seq<ErrorView>,
> {
    match class_meta(attribute_views(input.attrs@), input.ident.name@) {
        Err(e) => Err(seq![e]),
        Ok(meta) => match collected_fields(fields, meta.guess) {
            Err(report) => Err(report),
            Ok(found) => Ok(
                ClassView {
                    exact: meta.exact,
                    docs: collected_docs(attribute_views(input.attrs@)),
                    name: meta.name,
                    fields: found,
                },
            ),
        },
    }
}

/// What modeling a record gives, seen as plain values.
pub open spec fn class_outcome(r: Result<Class, Report>) -> Result<ClassView, Seq<ErrorView>> {
    match r {
        Ok(class) => Ok(class@),
        Err(report) => Err(report@),
    }
}

/// Models the record `input`, whose members are `fields`, as a class.
pub fn parse(input: &Declaration, fields: &Vec<FieldDecl>) -> (r: Result<Class, Report>)
    ensures
        class_outcome(r) == modeled_class(*input, fields@),
        r matches Err(report) ==> report.wf(),
        r matches Ok(class) ==> class@.wf(),
{
    let docs = collect_docs(&input.attrs);
    let meta = match ClassMeta::parse(input) {
        Ok(meta) => meta,
        Err(e) => {
            return Err(Report::single(e));
        },
    };
    let found = match collect_fields(fields, meta.guess) {
        Ok(found) => found,
        Err(report) => {
            return Err(report);
        },
    };
    Ok(Class { exact: meta.exact, docs, name: meta.name, fields: found })
}

} // verus!
