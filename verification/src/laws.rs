//! What holds of every declaration: the laws of modeling.

use crate::attrs::{
    accepted, first_named, key_at, key_names, kind_of, next_item_at, nothing_read, parsed_attrs,
    parsed_from, takes_value, value_at, with_name, AttrView, Kind, Progress,
};
use crate::data::{
    field_names_differ, variant_names_differ, DiscriminantView, FieldView, Span, Type,
    VariantView,
};
use crate::decl::{Declaration, FieldDecl, TypeShape, VariantDecl};
use crate::docs::collected_docs;
use crate::enums::{
    collected_variants, enum_meta, enum_meta_from, evaluated, member, member_name, modeled_enum,
    variant_keys, variant_step, variants_upto, EnumMetaView,
};
use crate::error::{merged, ErrorView};
use crate::render::type_text;
use crate::structs::{
    class_meta, class_meta_from, classified, collected_fields, field_keys, field_name, field_step,
    field_type, fields_upto, modeled_class, nothing_gathered, placed, unwrapped, ClassMetaView,
    Gathered,
};
use crate::text::{
    blank, lemma_text_order_strict, lemma_text_order_total, lemma_text_order_transitive,
    text_before,
};
use crate::token::{attribute_views, AttributeView, MetaView, TokenView};
use crate::unique::{last_seen, lemma_last_seen};
use vstd::prelude::*;

verus! {

/// Whether one of the attributes `attrs` is an `anno` attribute.
pub open spec fn has_metadata(attrs: Seq<AttributeView>) -> bool {
    exists|i: int| 0 <= i < attrs.len() && (#[trigger] attrs[i]).name == "anno"@
}

/// `first_named` finds the first attribute of the name, and stops at the end
/// exactly when there is none.
pub proof fn lemma_first_named(attrs: Seq<AttributeView>, name: Seq<char>)
    ensures
        0 <= first_named(attrs, name) <= attrs.len(),
        first_named(attrs, name) < attrs.len() ==> attrs[first_named(attrs, name)].name == name,
        forall|i: int| 0 <= i < first_named(attrs, name) ==> (#[trigger] attrs[i]).name != name,
    decreases attrs.len(),
{
    if attrs.len() > 0 && attrs[0].name != name {
        let rest = attrs.drop_first();
        lemma_first_named(rest, name);
        assert forall|i: int| 0 <= i < first_named(attrs, name) implies (#[trigger] attrs[i]).name
            != name by {
            if i > 0 {
                assert(attrs[i] == rest[i - 1]);
            }
        }
        if first_named(attrs, name) < attrs.len() {
            assert(attrs[first_named(attrs, name)] == rest[first_named(rest, name)]);
        }
    }
}

/// A record without metadata is modeled under its declared name, is not
/// exact, and has no type guessed.
pub proof fn law_record_without_metadata(input: Declaration, fields: Seq<FieldDecl>)
    requires
        !has_metadata(attribute_views(input.attrs@)),
    ensures
        class_meta(attribute_views(input.attrs@), input.ident.name@) == Ok::<_, ErrorView>(
            ClassMetaView { exact: false, guess: false, name: input.ident.name@ },
        ),
        modeled_class(input, fields) matches Ok(class) ==> class.name == input.ident.name@
            && !class.exact,
{
    lemma_first_named(attribute_views(input.attrs@), "anno"@);
}

/// An enumeration without metadata is modeled under its declared name, with
/// numbered members.
pub proof fn law_enumeration_without_metadata(input: Declaration, variants: Seq<VariantDecl>)
    requires
        !has_metadata(attribute_views(input.attrs@)),
    ensures
        enum_meta(attribute_views(input.attrs@), input.ident.name@) == Ok::<_, ErrorView>(
            EnumMetaView { use_self: false, name: input.ident.name@, alias: None },
        ),
        modeled_enum(input, variants) matches Ok(e) ==> e.name == input.ident.name@,
{
    lemma_first_named(attribute_views(input.attrs@), "anno"@);
}

/// Once the class has a name, reading on either fails or keeps that name.
pub proof fn lemma_class_name_kept(tokens: Seq<TokenView>, pos: int, m: ClassMetaView, end: Span)
    requires
        m.name.len() > 0,
    ensures
        class_meta_from(tokens, pos, m, end) matches Ok(r) ==> r.name == m.name,
    decreases tokens.len() - pos,
{
    if 0 <= pos < tokens.len() {
        match key_at(tokens, pos, end) {
            Err(e) => {},
            Ok((key, key_span)) => {
                if key != "name"@ {
                    match next_item_at(tokens, pos + 1) {
                        Err(e) => {},
                        Ok(next) => {
                            lemma_class_name_kept(
                                tokens,
                                next,
                                ClassMetaView {
                                    exact: m.exact || key == "exact"@,
                                    guess: m.guess || key == "guess"@,
                                    ..m
                                },
                                end,
                            );
                        },
                    }
                }
            },
        }
    }
}

/// The name that reading class metadata ends with is the one it started
/// with, or one that is not blank.
pub proof fn lemma_class_name_not_blank(
    tokens: Seq<TokenView>,
    pos: int,
    m: ClassMetaView,
    end: Span,
)
    ensures
        class_meta_from(tokens, pos, m, end) matches Ok(r) ==> r.name == m.name || !blank(r.name),
    decreases tokens.len() - pos,
{
    if 0 <= pos < tokens.len() {
        match key_at(tokens, pos, end) {
            Err(e) => {},
            Ok((key, key_span)) => {
                if key == "name"@ {
                    if m.name.len() == 0 {
                        match value_at(tokens, pos + 1, end) {
                            Err(e) => {},
                            Ok((text, value_span)) => {
                                if !blank(text) {
                                    match next_item_at(tokens, pos + 3) {
                                        Err(e) => {},
                                        Ok(next) => {
                                            assert(text.len() > 0) by {
                                                if text.len() == 0 {
                                                    assert(blank(text));
                                                }
                                            }
                                            lemma_class_name_kept(
                                                tokens,
                                                next,
                                                ClassMetaView { name: text, ..m },
                                                end,
                                            );
                                        },
                                    }
                                }
                            },
                        }
                    }
                } else {
                    match next_item_at(tokens, pos + 1) {
                        Err(e) => {},
                        Ok(next) => {
                            lemma_class_name_not_blank(
                                tokens,
                                next,
                                ClassMetaView {
                                    exact: m.exact || key == "exact"@,
                                    guess: m.guess || key == "guess"@,
                                    ..m
                                },
                                end,
                            );
                        },
                    }
                }
            },
        }
    }
}

/// The name of a class is the declared name of the record, or a rename that
/// is not blank: a blank rename is never accepted.
pub proof fn law_class_name(attrs: Seq<AttributeView>, ident: Seq<char>)
    ensures
        class_meta(attrs, ident) matches Ok(m) ==> m.name == ident || !blank(m.name),
{
    let i = first_named(attrs, "anno"@);
    if i < attrs.len() {
        match attrs[i].meta {
            MetaView::List(tokens) => {
                lemma_class_name_not_blank(
                    tokens,
                    0,
                    ClassMetaView { exact: false, guess: false, name: Seq::empty() },
                    attrs[i].span,
                );
            },
            _ => {},
        }
    }
}

/// A record whose metadata starts with `name = "value"` is modeled under
/// that value where the value is not blank, whatever the declared name, and
/// rejected for its empty name where the value is blank. Nothing that follows
/// in the metadata changes the name: it can only make the metadata wrong.
pub proof fn law_record_rename(
    attrs: Seq<AttributeView>,
    ident: Seq<char>,
    tokens: Seq<TokenView>,
    key_span: Span,
    value: Seq<char>,
    value_span: Span,
)
    requires
        first_named(attrs, "anno"@) < attrs.len(),
        attrs[first_named(attrs, "anno"@)].meta == MetaView::List(tokens),
        tokens.len() >= 3,
        tokens[0] == (TokenView::Ident { name: "name"@, span: key_span }),
        tokens[1] is Punct && tokens[1]->Punct_ch == '=',
        tokens[2] == (TokenView::Str { value, span: value_span }),
    ensures
        blank(value) ==> class_meta(attrs, ident) == Err::<ClassMetaView, _>(
            ErrorView::EmptyName(value_span),
        ),
        class_meta(attrs, ident) matches Ok(m) ==> m.name == value,
        tokens.len() == 3 && !blank(value) ==> class_meta(attrs, ident) == Ok::<_, ErrorView>(
            ClassMetaView { exact: false, guess: false, name: value },
        ),
{
    let i = first_named(attrs, "anno"@);
    lemma_first_named(attrs, "anno"@);
    let end = attrs[i].span;
    let start = ClassMetaView { exact: false, guess: false, name: Seq::empty() };
    assert(key_at(tokens, 0, end) == Ok::<_, ErrorView>(("name"@, key_span)));
    assert(value_at(tokens, 1, end) == Ok::<_, ErrorView>((value, value_span)));
    if !blank(value) {
        assert(value.len() > 0) by {
            if value.len() == 0 {
                assert(blank(value));
            }
        }
        match next_item_at(tokens, 3) {
            Err(e) => {},
            Ok(next) => {
                lemma_class_name_kept(tokens, next, ClassMetaView { name: value, ..start }, end);
            },
        }
    }
}

/// Whether `after` has the name of `before`, or, where `before` has none, a
/// name that is not blank.
pub open spec fn name_carried(before: EnumMetaView, after: EnumMetaView) -> bool {
    after.name == before.name || (before.name.len() == 0 && after.name.len() > 0 && !blank(
        after.name,
    ))
}

/// What reading one more item of enum metadata leaves of the name: reading
/// on from `m` either fails, or goes on from a state with the same name, or,
/// where `m` has no name yet, from one with a name that is not blank.
proof fn lemma_enum_name_step(tokens: Seq<TokenView>, pos: int, m: EnumMetaView, end: Span)
    requires
        0 <= pos < tokens.len(),
    ensures
        enum_meta_from(tokens, pos, m, end) is Err || exists|next: int, after: EnumMetaView|
            pos < next <= tokens.len() && enum_meta_from(tokens, pos, m, end)
                == #[trigger] enum_meta_from(tokens, next, after, end) && name_carried(m, after),
{
    match key_at(tokens, pos, end) {
        Err(e) => {},
        Ok((key, key_span)) => {
            if key == "name"@ {
                if m.name.len() == 0 {
                    match value_at(tokens, pos + 1, end) {
                        Err(e) => {},
                        Ok((text, value_span)) => {
                            if !blank(text) {
                                match next_item_at(tokens, pos + 3) {
                                    Err(e) => {},
                                    Ok(next) => {
                                        assert(text.len() > 0) by {
                                            if text.len() == 0 {
                                                assert(blank(text));
                                            }
                                        }
                                        let after = EnumMetaView { name: text, ..m };
                                        assert(enum_meta_from(tokens, pos, m, end)
                                            == enum_meta_from(tokens, next, after, end));
                                    },
                                }
                            }
                        },
                    }
                }
            } else if key == "alias"@ {
                if !m.use_self && m.alias is None {
                    match value_at(tokens, pos + 1, end) {
                        Err(e) => {},
                        Ok((text, value_span)) => {
                            if !blank(text) {
                                match next_item_at(tokens, pos + 3) {
                                    Err(e) => {},
                                    Ok(next) => {
                                        let after = EnumMetaView {
                                            alias: Some(
                                                AttrView {
                                                    key: key_span,
                                                    value: value_span,
                                                    data: text,
                                                },
                                            ),
                                            ..m
                                        };
                                        assert(enum_meta_from(tokens, pos, m, end)
                                            == enum_meta_from(tokens, next, after, end));
                                    },
                                }
                            }
                        },
                    }
                }
            } else if !(key == "self"@ && m.alias is Some) {
                match next_item_at(tokens, pos + 1) {
                    Err(e) => {},
                    Ok(next) => {
                        let after = EnumMetaView { use_self: m.use_self || key == "self"@, ..m };
                        assert(enum_meta_from(tokens, pos, m, end) == enum_meta_from(
                            tokens,
                            next,
                            after,
                            end,
                        ));
                    },
                }
            }
        },
    }
}

/// The name that reading enum metadata ends with is the one it started
/// with, or, where it started with none, one that is not blank.
pub proof fn lemma_enum_name_not_blank(
    tokens: Seq<TokenView>,
    pos: int,
    m: EnumMetaView,
    end: Span,
)
    ensures
        enum_meta_from(tokens, pos, m, end) matches Ok(r) ==> r.name == m.name || (m.name.len()
            == 0 && !blank(r.name)),
    decreases tokens.len() - pos,
{
    if 0 <= pos < tokens.len() {
        lemma_enum_name_step(tokens, pos, m, end);
        if enum_meta_from(tokens, pos, m, end) is Ok {
            let (next, after) = choose|next: int, after: EnumMetaView|
                pos < next <= tokens.len() && enum_meta_from(tokens, pos, m, end)
                    == #[trigger] enum_meta_from(tokens, next, after, end) && name_carried(
                    m,
                    after,
                );
            lemma_enum_name_not_blank(tokens, next, after, end);
        }
    }
}

/// The name of an enum is the declared name of the enumeration, or a rename
/// that is not blank: a blank rename is never accepted.
pub proof fn law_enum_name(attrs: Seq<AttributeView>, ident: Seq<char>)
    ensures
        enum_meta(attrs, ident) matches Ok(m) ==> m.name == ident || !blank(m.name),
{
    let i = first_named(attrs, "anno"@);
    if i < attrs.len() {
        match attrs[i].meta {
            MetaView::List(tokens) => {
                lemma_enum_name_not_blank(
                    tokens,
                    0,
                    EnumMetaView { use_self: false, name: Seq::empty(), alias: None },
                    attrs[i].span,
                );
            },
            _ => {},
        }
    }
}

/// An enumeration whose metadata starts with `name = "value"` is modeled
/// under that value where the value is not blank, whatever the declared name,
/// and rejected for its empty name where the value is blank. Nothing that
/// follows in the metadata changes the name: it can only make the metadata
/// wrong.
pub proof fn law_enumeration_rename(
    attrs: Seq<AttributeView>,
    ident: Seq<char>,
    tokens: Seq<TokenView>,
    key_span: Span,
    value: Seq<char>,
    value_span: Span,
)
    requires
        first_named(attrs, "anno"@) < attrs.len(),
        attrs[first_named(attrs, "anno"@)].meta == MetaView::List(tokens),
        tokens.len() >= 3,
        tokens[0] == (TokenView::Ident { name: "name"@, span: key_span }),
        tokens[1] is Punct && tokens[1]->Punct_ch == '=',
        tokens[2] == (TokenView::Str { value, span: value_span }),
    ensures
        blank(value) ==> enum_meta(attrs, ident) == Err::<EnumMetaView, _>(
            ErrorView::EmptyName(value_span),
        ),
        enum_meta(attrs, ident) matches Ok(m) ==> m.name == value,
        tokens.len() == 3 && !blank(value) ==> enum_meta(attrs, ident) == Ok::<_, ErrorView>(
            EnumMetaView { use_self: false, name: value, alias: None },
        ),
{
    let i = first_named(attrs, "anno"@);
    lemma_first_named(attrs, "anno"@);
    let end = attrs[i].span;
    let start = EnumMetaView { use_self: false, name: Seq::empty(), alias: None };
    assert(key_at(tokens, 0, end) == Ok::<_, ErrorView>(("name"@, key_span)));
    assert(value_at(tokens, 1, end) == Ok::<_, ErrorView>((value, value_span)));
    if !blank(value) {
        assert(value.len() > 0) by {
            if value.len() == 0 {
                assert(blank(value));
            }
        }
        match next_item_at(tokens, 3) {
            Err(e) => {},
            Ok(next) => {
                lemma_enum_name_not_blank(tokens, next, EnumMetaView { name: value, ..start }, end);
            },
        }
    }
}

/// Whether every entry with a value has one that is not blank.
pub open spec fn values_not_blank(entries: Map<Kind, AttrView>) -> bool {
    forall|kind: Kind|
        entries.dom().contains(kind) && kind != Kind::Ignore ==> !blank(
            (#[trigger] entries[kind]).data,
        )
}

/// Reading on keeps the values read so far, and adds none that is blank.
pub proof fn lemma_values_not_blank(
    tokens: Seq<TokenView>,
    pos: int,
    allowed: Seq<(Seq<char>, Kind)>,
    p: Progress,
    end: Span,
)
    requires
        values_not_blank(p.entries),
    ensures
        parsed_from(tokens, pos, allowed, p, end) matches Ok(r) ==> values_not_blank(r.entries),
    decreases tokens.len() - pos,
{
    if 0 <= pos < tokens.len() {
        match key_at(tokens, pos, end) {
            Err(e) => {},
            Ok((key, key_span)) => {
                if takes_value(allowed, key) {
                    match value_at(tokens, pos + 1, end) {
                        Err(e) => {},
                        Ok(value) => match next_item_at(tokens, pos + 3) {
                            Err(e) => {},
                            Ok(next) => {
                                let q = accepted(p, allowed, key, key_span, Some(value));
                                assert(values_not_blank(q.entries));
                                lemma_values_not_blank(tokens, next, allowed, q, end);
                            },
                        },
                    }
                } else {
                    match next_item_at(tokens, pos + 1) {
                        Err(e) => {},
                        Ok(next) => {
                            let q = accepted(p, allowed, key, key_span, None);
                            assert(values_not_blank(q.entries));
                            lemma_values_not_blank(tokens, next, allowed, q, end);
                        },
                    }
                }
            },
        }
    }
}

/// Metadata that is accepted holds no blank value: a blank rename of a
/// member, or a blank type, is always rejected.
pub proof fn law_values_not_blank(attrs: Seq<AttributeView>, allowed: Seq<(Seq<char>, Kind)>)
    ensures
        parsed_attrs(attrs, allowed) matches Ok(entries) ==> values_not_blank(entries),
{
    let i = first_named(attrs, "anno"@);
    if i < attrs.len() {
        match attrs[i].meta {
            MetaView::List(tokens) => {
                lemma_values_not_blank(tokens, 0, allowed, nothing_read(), attrs[i].span);
            },
            _ => {},
        }
    }
}

/// Whether the names of the members that stand are all different, and all
/// among the names met.
pub open spec fn names_tracked<T>(g: Gathered<T>, name_of: spec_fn(T) -> Seq<char>) -> bool {
    &&& forall|i: int|
        0 <= i < g.items.len() ==> last_seen(g.seen, name_of(#[trigger] g.items[i])) is Some
    &&& forall|i: int, j: int|
        0 <= i < j < g.items.len() ==> name_of(#[trigger] g.items[i]) != name_of(
            #[trigger] g.items[j],
        )
}

/// Meeting one more name forgets none.
pub proof fn lemma_seen_grows(
    seen: Seq<(Seq<char>, Span)>,
    entry: (Seq<char>, Span),
    name: Seq<char>,
)
    requires
        last_seen(seen, name) is Some,
    ensures
        last_seen(seen.push(entry), name) is Some,
{
    assert(seen.push(entry).drop_last() =~= seen);
}

/// Placing a member keeps the names of the members that stand different.
pub proof fn lemma_placed_keeps_names<T>(
    g: Gathered<T>,
    name: Seq<char>,
    span: Span,
    item: T,
    name_of: spec_fn(T) -> Seq<char>,
)
    requires
        names_tracked(g, name_of),
        name_of(item) == name,
    ensures
        names_tracked(placed(g, name, span, item), name_of),
{
    let after = placed(g, name, span, item);
    assert(g.seen.push((name, span)).drop_last() =~= g.seen);
    assert forall|i: int| 0 <= i < after.items.len() implies last_seen(
        after.seen,
        name_of(#[trigger] after.items[i]),
    ) is Some by {
        if i < g.items.len() {
            assert(after.items[i] == g.items[i]);
            lemma_seen_grows(g.seen, (name, span), name_of(g.items[i]));
        }
    }
    assert forall|i: int, j: int| 0 <= i < j < after.items.len() implies name_of(
        #[trigger] after.items[i],
    ) != name_of(#[trigger] after.items[j]) by {
        assert(after.items[i] == g.items[i]);
        if j < g.items.len() {
            assert(after.items[j] == g.items[j]);
        }
    }
}

/// The rendered name of a field.
pub open spec fn name_of_field() -> spec_fn(FieldView) -> Seq<char> {
    |f: FieldView| f.name
}

/// Among the first `n` members of a record, the fields that stand have
/// different names.
pub proof fn lemma_fields_tracked(fields: Seq<FieldDecl>, n: int, guess: bool)
    requires
        n <= fields.len(),
    ensures
        fields_upto(fields, n, guess) matches Ok(g) ==> names_tracked(g, name_of_field()),
    decreases n,
{
    if n > 0 {
        lemma_fields_tracked(fields, n - 1, guess);
        match fields_upto(fields, n - 1, guess) {
            Err(e) => {},
            Ok(g) => {
                let field = fields[n - 1];
                match parsed_attrs(attribute_views(field.attrs@), field_keys()) {
                    Err(report) => {},
                    Ok(kvs) => {
                        if field.ident is Some && !kvs.dom().contains(Kind::Ignore) {
                            let (name, span) = field_name(kvs, field.ident->0);
                            match field_type(kvs, field.ty, guess) {
                                None => {},
                                Some(ty) => {
                                    lemma_placed_keeps_names(
                                        g,
                                        name,
                                        span,
                                        FieldView {
                                            name,
                                            ty,
                                            docs: collected_docs(
                                                attribute_views(field.attrs@),
                                            ),
                                        },
                                        name_of_field(),
                                    );
                                },
                            }
                        }
                    },
                }
            },
        }
    }
}

/// The fields of a class have different names: a record with two members
/// that would be rendered under one name is never modeled.
pub proof fn law_field_names_unique(fields: Seq<FieldDecl>, guess: bool)
    ensures
        collected_fields(fields, guess) matches Ok(found) ==> field_names_differ(found),
{
    lemma_fields_tracked(fields, fields.len() as int, guess);
}

/// Whether the member `field` of a record stands as a field when it is met
/// alone: it has a name, its metadata is right and does not ignore it, and it
/// has a type.
pub open spec fn stands(field: FieldDecl, guess: bool) -> bool {
    &&& field.ident is Some
    &&& parsed_attrs(attribute_views(field.attrs@), field_keys()) matches Ok(kvs)
    &&& !kvs.dom().contains(Kind::Ignore)
    &&& field_type(kvs, field.ty, guess) is Some
}

/// The rendered name of the member `field` and the place of that name.
pub open spec fn rendered_field_name(field: FieldDecl) -> (Seq<char>, Span) {
    field_name(
        parsed_attrs(attribute_views(field.attrs@), field_keys())->Ok_0,
        field.ident->0,
    )
}

/// A record of two members that are rendered under one name, by rename or
/// not, is rejected for the conflict, which is reported at the name of the
/// second member and refers to the name of the first.
pub proof fn law_same_name_conflicts(first: FieldDecl, second: FieldDecl, guess: bool)
    requires
        stands(first, guess),
        stands(second, guess),
        rendered_field_name(first).0 == rendered_field_name(second).0,
    ensures
        collected_fields(seq![first, second], guess) == Err::<Seq<FieldView>, _>(
            seq![
                ErrorView::NameConflict {
                    span: rendered_field_name(second).1,
                    previous: rendered_field_name(first).1,
                },
            ],
        ),
{
    let fields = seq![first, second];
    let start = nothing_gathered::<FieldView>();
    assert(fields_upto(fields, 0, guess) == Ok::<_, ErrorView>(start));
    let one = field_step(start, first, guess)->Ok_0;
    assert(fields_upto(fields, 1, guess) == Ok::<_, ErrorView>(one)) by {
        reveal_with_fuel(fields_upto, 2);
    }
    let (name, span) = rendered_field_name(first);
    assert(last_seen(start.seen, name) is None);
    assert(one.seen =~= seq![(name, span)]);
    assert(one.errors =~= Seq::empty());
    assert(last_seen(one.seen, name) == Some(span)) by {
        assert(one.seen.last() == (name, span));
    }
    let two = field_step(one, second, guess)->Ok_0;
    assert(fields_upto(fields, 2, guess) == Ok::<_, ErrorView>(two)) by {
        reveal_with_fuel(fields_upto, 3);
    }
    let conflict = ErrorView::NameConflict {
        span: rendered_field_name(second).1,
        previous: span,
    };
    assert(two.errors =~= seq![seq![conflict]]);
    assert(merged(two.errors) =~= seq![conflict]) by {
        reveal_with_fuel(merged, 2);
        assert(two.errors.drop_last() =~= Seq::empty());
    }
}

/// Before an ignored member, a record and the record without that member
/// give the same.
proof fn lemma_ignored_before(fields: Seq<FieldDecl>, k: int, n: int, guess: bool)
    requires
        0 <= k < fields.len(),
        n <= k,
    ensures
        fields_upto(fields.remove(k), n, guess) == fields_upto(fields, n, guess),
    decreases n,
{
    if n > 0 {
        lemma_ignored_before(fields, k, n - 1, guess);
        assert(fields.remove(k)[n - 1] == fields[n - 1]);
    }
}

/// Behind an ignored member, the record without that member gives what the
/// record gives one member later.
proof fn lemma_ignored_behind(fields: Seq<FieldDecl>, k: int, n: int, guess: bool)
    requires
        0 <= k < fields.len(),
        k <= n < fields.len(),
        fields[k].ident is Some,
        parsed_attrs(attribute_views(fields[k].attrs@), field_keys()) matches Ok(kvs)
            && kvs.dom().contains(Kind::Ignore),
    ensures
        fields_upto(fields.remove(k), n, guess) == fields_upto(fields, n + 1, guess),
    decreases n,
{
    if n == k {
        lemma_ignored_before(fields, k, k, guess);
    } else {
        lemma_ignored_behind(fields, k, n - 1, guess);
        assert(fields.remove(k)[n - 1] == fields[n]);
    }
}

/// An ignored member never appears among the fields and takes no part in the
/// check of names, wherever it stands: the record gives what it would give
/// without that member.
pub proof fn law_ignored_field(fields: Seq<FieldDecl>, k: int, guess: bool)
    requires
        0 <= k < fields.len(),
        fields[k].ident is Some,
        parsed_attrs(attribute_views(fields[k].attrs@), field_keys()) matches Ok(kvs)
            && kvs.dom().contains(Kind::Ignore),
    ensures
        collected_fields(fields, guess) == collected_fields(fields.remove(k), guess),
{
    lemma_ignored_behind(fields, k, fields.len() - 1, guess);
}

/// The rendered name of a member.
pub open spec fn name_of_variant() -> spec_fn(VariantView) -> Seq<char> {
    |v: VariantView| v.name
}

/// Among the first `n` members of an enumeration, those that stand have
/// different names.
pub proof fn lemma_variants_tracked(variants: Seq<VariantDecl>, n: int, named: Option<Seq<char>>)
    requires
        n <= variants.len(),
    ensures
        names_tracked(variants_upto(variants, n, named).gathered, name_of_variant()),
    decreases n,
{
    if n > 0 {
        lemma_variants_tracked(variants, n - 1, named);
        let st = variants_upto(variants, n - 1, named);
        let v = variants[n - 1];
        match parsed_attrs(attribute_views(v.attrs@), variant_keys()) {
            Err(report) => {},
            Ok(kvs) => {
                let (name, span) = member_name(kvs, v.ident);
                if v.unit {
                    match named {
                        Some(text) => {
                            if v.discriminant is None {
                                lemma_placed_keeps_names(
                                    st.gathered,
                                    name,
                                    span,
                                    member(v, name, DiscriminantView::Named(text)),
                                    name_of_variant(),
                                );
                            }
                        },
                        None => match v.discriminant {
                            Some(expr) => match evaluated(expr) {
                                Err(e) => {},
                                Ok(value) => {
                                    lemma_placed_keeps_names(
                                        st.gathered,
                                        name,
                                        span,
                                        member(v, name, DiscriminantView::Number(value)),
                                        name_of_variant(),
                                    );
                                },
                            },
                            None => {
                                lemma_placed_keeps_names(
                                    st.gathered,
                                    name,
                                    span,
                                    member(v, name, DiscriminantView::Number(st.next)),
                                    name_of_variant(),
                                );
                            },
                        },
                    }
                }
            },
        }
    }
}

/// The members of an enum have different names: an enumeration with two
/// members that would be rendered under one name is never modeled.
pub proof fn law_variant_names_unique(variants: Seq<VariantDecl>, named: Option<Seq<char>>)
    ensures
        collected_variants(variants, named) matches Ok(found) ==> variant_names_differ(found),
{
    lemma_variants_tracked(variants, variants.len() as int, named);
}

/// Whether the member `v` of an enumeration carries no data and has
/// metadata that is right.
pub open spec fn sound_member(v: VariantDecl) -> bool {
    v.unit && parsed_attrs(attribute_views(v.attrs@), variant_keys()) is Ok
}

/// The name under which the member `v` is rendered.
pub open spec fn rendered_member_name(v: VariantDecl) -> Seq<char> {
    member_name(parsed_attrs(attribute_views(v.attrs@), variant_keys())->Ok_0, v.ident).0
}

/// Whether the members `variants` are rendered under different names.
pub open spec fn different_names(variants: Seq<VariantDecl>) -> bool {
    forall|i: int, j: int|
        0 <= i < j < variants.len() ==> rendered_member_name(#[trigger] variants[i])
            != rendered_member_name(#[trigger] variants[j])
}

/// Whether every member of `variants` is sound and has a discriminant with a
/// value, or none.
pub open spec fn all_numbered(variants: Seq<VariantDecl>) -> bool {
    forall|i: int|
        0 <= i < variants.len() ==> sound_member(#[trigger] variants[i]) && (
        variants[i].discriminant matches Some(expr) ==> evaluated(expr) is Ok)
}

/// The number of the member at `i`: the value of its discriminant, or `i`
/// where it has none.
pub open spec fn number_at(variants: Seq<VariantDecl>, i: int) -> int {
    match variants[i].discriminant {
        Some(expr) => evaluated(expr)->Ok_0,
        None => i,
    }
}

/// A name that none of the names met is has not been met.
proof fn lemma_not_seen(seen: Seq<(Seq<char>, Span)>, name: Seq<char>)
    requires
        forall|i: int| 0 <= i < seen.len() ==> (#[trigger] seen[i]).0 != name,
    ensures
        last_seen(seen, name) is None,
{
    lemma_last_seen(seen, name);
}

/// What the first `n` members give, in an enum whose members are all sound,
/// numbered and differently named: all of them stand, in order, without a
/// report, and the running number is `n`.
proof fn lemma_numbered_upto(variants: Seq<VariantDecl>, n: int)
    requires
        0 <= n <= variants.len(),
        all_numbered(variants),
        different_names(variants),
    ensures
        ({
            let st = variants_upto(variants, n, None);
            &&& st.next == n
            &&& st.gathered.errors.len() == 0
            &&& st.gathered.items.len() == n
            &&& st.gathered.seen.len() == n
            &&& forall|i: int|
                0 <= i < n ==> (#[trigger] st.gathered.seen[i]).0 == rendered_member_name(
                    variants[i],
                )
            &&& forall|i: int|
                0 <= i < n ==> (#[trigger] st.gathered.items[i]).name == rendered_member_name(
                    variants[i],
                ) && st.gathered.items[i].discriminant == DiscriminantView::Number(
                    number_at(variants, i),
                ) && st.gathered.items[i].variant == variants[i].ident.name@
        }),
    decreases n,
{
    if n > 0 {
        lemma_numbered_upto(variants, n - 1);
        let before = variants_upto(variants, n - 1, None);
        let v = variants[n - 1];
        assert(sound_member(v));
        let name = rendered_member_name(v);
        assert forall|i: int| 0 <= i < before.gathered.seen.len() implies (
        #[trigger] before.gathered.seen[i]).0 != name by {
            assert(rendered_member_name(variants[i]) != rendered_member_name(variants[n - 1]));
        }
        lemma_not_seen(before.gathered.seen, name);
        let st = variants_upto(variants, n, None);
        assert(st == variant_step(before, v, None));
        assert forall|i: int| 0 <= i < n implies (#[trigger] st.gathered.seen[i]).0
            == rendered_member_name(variants[i]) by {
            if i < n - 1 {
                assert(st.gathered.seen[i] == before.gathered.seen[i]);
            }
        }
        assert forall|i: int| 0 <= i < n implies (#[trigger] st.gathered.items[i]).name
            == rendered_member_name(variants[i]) && st.gathered.items[i].discriminant
            == DiscriminantView::Number(number_at(variants, i)) && st.gathered.items[i].variant
            == variants[i].ident.name@ by {
            if i < n - 1 {
                assert(st.gathered.items[i] == before.gathered.items[i]);
            }
        }
    }
}

/// Without `self` or an alias, members are numbered in the order of their
/// declaration, from 0: in an enumeration whose members are sound and
/// differently named, every member stands, a member without a discriminant
/// has its position for its number, and a member with one has the value of
/// that. A discriminant does not change the numbers of the members behind.
pub proof fn law_members_numbered(variants: Seq<VariantDecl>)
    requires
        all_numbered(variants),
        different_names(variants),
    ensures
        collected_variants(variants, None) matches Ok(found) && found.len() == variants.len()
            && forall|i: int|
            0 <= i < found.len() ==> (#[trigger] found[i]).discriminant
                == DiscriminantView::Number(number_at(variants, i)) && found[i].name
                == rendered_member_name(variants[i]),
{
    lemma_numbered_upto(variants, variants.len() as int);
}

/// Whether every member of `variants` is sound and has no discriminant.
pub open spec fn all_bare(variants: Seq<VariantDecl>) -> bool {
    forall|i: int|
        0 <= i < variants.len() ==> sound_member(#[trigger] variants[i])
            && variants[i].discriminant is None
}

/// What the first `n` members give, in an enum that names the value of its
/// members, and whose members are all sound, bare and differently named.
proof fn lemma_named_upto(variants: Seq<VariantDecl>, n: int, text: Seq<char>)
    requires
        0 <= n <= variants.len(),
        all_bare(variants),
        different_names(variants),
    ensures
        ({
            let st = variants_upto(variants, n, Some(text));
            &&& st.gathered.errors.len() == 0
            &&& st.gathered.items.len() == n
            &&& st.gathered.seen.len() == n
            &&& forall|i: int|
                0 <= i < n ==> (#[trigger] st.gathered.seen[i]).0 == rendered_member_name(
                    variants[i],
                )
            &&& forall|i: int|
                0 <= i < n ==> (#[trigger] st.gathered.items[i]).name == rendered_member_name(
                    variants[i],
                ) && st.gathered.items[i].discriminant == DiscriminantView::Named(text)
        }),
    decreases n,
{
    if n > 0 {
        lemma_named_upto(variants, n - 1, text);
        let before = variants_upto(variants, n - 1, Some(text));
        let v = variants[n - 1];
        assert(sound_member(v));
        let name = rendered_member_name(v);
        assert forall|i: int| 0 <= i < before.gathered.seen.len() implies (
        #[trigger] before.gathered.seen[i]).0 != name by {
            assert(rendered_member_name(variants[i]) != rendered_member_name(variants[n - 1]));
        }
        lemma_not_seen(before.gathered.seen, name);
        let st = variants_upto(variants, n, Some(text));
        assert(st == variant_step(before, v, Some(text)));
        assert forall|i: int| 0 <= i < n implies (#[trigger] st.gathered.seen[i]).0
            == rendered_member_name(variants[i]) by {
            if i < n - 1 {
                assert(st.gathered.seen[i] == before.gathered.seen[i]);
            }
        }
        assert forall|i: int| 0 <= i < n implies (#[trigger] st.gathered.items[i]).name
            == rendered_member_name(variants[i]) && st.gathered.items[i].discriminant
            == DiscriminantView::Named(text) by {
            if i < n - 1 {
                assert(st.gathered.items[i] == before.gathered.items[i]);
            }
        }
    }
}

/// With `self` or an alias, every member has the name `text` for its value:
/// in an enumeration whose members are sound, bare and differently named,
/// every member stands with that value.
pub proof fn law_members_named(variants: Seq<VariantDecl>, text: Seq<char>)
    requires
        all_bare(variants),
        different_names(variants),
    ensures
        collected_variants(variants, Some(text)) matches Ok(found) && found.len()
            == variants.len() && forall|i: int|
            0 <= i < found.len() ==> (#[trigger] found[i]).discriminant
                == DiscriminantView::Named(text) && found[i].name == rendered_member_name(
                variants[i],
            ),
{
    lemma_named_upto(variants, variants.len() as int, text);
}

/// Whether one of the reports `collected` holds the finding `e`.
pub open spec fn collected_holds(collected: Seq<Seq<ErrorView>>, e: ErrorView) -> bool {
    exists|i: int, j: int|
        0 <= i < collected.len() && 0 <= j < collected[i].len() && #[trigger] collected[i][j] == e
}

/// Merging loses no finding.
pub proof fn lemma_merged_holds(collected: Seq<Seq<ErrorView>>, e: ErrorView)
    requires
        collected_holds(collected, e),
    ensures
        merged(collected).contains(e),
    decreases collected.len(),
{
    let (i, j) = choose|i: int, j: int|
        0 <= i < collected.len() && 0 <= j < collected[i].len() && #[trigger] collected[i][j] == e;
    let rest = collected.drop_last();
    if i == collected.len() - 1 {
        assert(merged(collected)[j] == e);
    } else {
        assert(rest[i][j] == e);
        lemma_merged_holds(rest, e);
        let k = choose|k: int| 0 <= k < merged(rest).len() && merged(rest)[k] == e;
        assert(merged(collected)[collected.last().len() + k] == e);
    }
}

/// A report that was made stays made, whatever members follow.
proof fn lemma_reports_stay(
    variants: Seq<VariantDecl>,
    n: int,
    m: int,
    named: Option<Seq<char>>,
    e: ErrorView,
)
    requires
        0 <= n <= m <= variants.len(),
        collected_holds(variants_upto(variants, n, named).gathered.errors, e),
    ensures
        collected_holds(variants_upto(variants, m, named).gathered.errors, e),
    decreases m - n,
{
    if n < m {
        lemma_reports_stay(variants, n, m - 1, named, e);
        let before = variants_upto(variants, m - 1, named).gathered.errors;
        let after = variants_upto(variants, m, named).gathered.errors;
        let (i, j) = choose|i: int, j: int|
            0 <= i < before.len() && 0 <= j < before[i].len() && #[trigger] before[i][j] == e;
        assert(after.len() >= before.len() && after[i] == before[i]);
        assert(after[i][j] == e);
    }
}

/// With `self` or an alias, a member that has a discriminant of its own makes
/// the enumeration wrong: it is rejected, and the report holds the conflict
/// at that member.
pub proof fn law_named_rejects_discriminant(variants: Seq<VariantDecl>, text: Seq<char>, k: int)
    requires
        0 <= k < variants.len(),
        sound_member(variants[k]),
        variants[k].discriminant is Some,
    ensures
        collected_variants(variants, Some(text)) matches Err(report) && report.contains(
            ErrorView::SelfDiscriminant(variants[k].span),
        ),
{
    let e = ErrorView::SelfDiscriminant(variants[k].span);
    let before = variants_upto(variants, k, Some(text));
    let after = variants_upto(variants, k + 1, Some(text));
    assert(after == variant_step(before, variants[k], Some(text)));
    assert(after.gathered.errors[before.gathered.errors.len() as int][0] == e);
    assert(collected_holds(after.gathered.errors, e));
    lemma_reports_stay(variants, k + 1, variants.len() as int, Some(text), e);
    lemma_merged_holds(
        variants_upto(variants, variants.len() as int, Some(text)).gathered.errors,
        e,
    );
}

/// A field with a rename is rendered under the rename, which is not blank,
/// whatever the member's own name: a record of that one member has one field
/// of that name.
pub proof fn law_field_rename(field: FieldDecl, guess: bool)
    requires
        stands(field, guess),
        parsed_attrs(attribute_views(field.attrs@), field_keys())->Ok_0.dom().contains(
            Kind::Name,
        ),
    ensures
        ({
            let kvs = parsed_attrs(attribute_views(field.attrs@), field_keys())->Ok_0;
            &&& !blank(kvs[Kind::Name].data)
            &&& collected_fields(seq![field], guess) matches Ok(found)
            &&& found.len() == 1
            &&& found[0].name == kvs[Kind::Name].data
        }),
{
    law_values_not_blank(attribute_views(field.attrs@), field_keys());
    let fields = seq![field];
    let start = nothing_gathered::<FieldView>();
    assert(fields_upto(fields, 0, guess) == Ok::<_, ErrorView>(start));
    assert(last_seen(start.seen, rendered_field_name(field).0) is None);
    assert(fields_upto(fields, 1, guess) == field_step(start, field, guess)) by {
        reveal_with_fuel(fields_upto, 2);
    }
}

/// A member of an enumeration with a rename is rendered under the rename,
/// which is not blank, whatever the member's own identifier: an enumeration
/// of that one member has one member of that name.
pub proof fn law_variant_rename(v: VariantDecl, named: Option<Seq<char>>)
    requires
        sound_member(v),
        v.discriminant is None,
        parsed_attrs(attribute_views(v.attrs@), variant_keys())->Ok_0.dom().contains(Kind::Name),
    ensures
        ({
            let kvs = parsed_attrs(attribute_views(v.attrs@), variant_keys())->Ok_0;
            &&& !blank(kvs[Kind::Name].data)
            &&& collected_variants(seq![v], named) matches Ok(found)
            &&& found.len() == 1
            &&& found[0].name == kvs[Kind::Name].data
            &&& found[0].variant == v.ident.name@
        }),
{
    law_values_not_blank(attribute_views(v.attrs@), variant_keys());
    let variants = seq![v];
    let start = variants_upto(variants, 0, named);
    assert(last_seen(start.gathered.seen, rendered_member_name(v)) is None);
    assert(variants_upto(variants, 1, named) == variant_step(start, v, named)) by {
        reveal_with_fuel(variants_upto, 2);
    }
}

/// Whether no member of `fields` is rejected outright: every member whose
/// metadata is right has a name.
pub open spec fn all_named(fields: Seq<FieldDecl>) -> bool {
    forall|k: int|
        0 <= k < fields.len() && parsed_attrs(
            attribute_views((#[trigger] fields[k]).attrs@),
            field_keys(),
        ) is Ok ==> fields[k].ident is Some
}

/// Where no member is rejected outright, the gathering goes through every
/// member.
proof fn lemma_gathering_goes_on(fields: Seq<FieldDecl>, n: int, guess: bool)
    requires
        all_named(fields),
        0 <= n <= fields.len(),
    ensures
        fields_upto(fields, n, guess) is Ok,
    decreases n,
{
    if n > 0 {
        lemma_gathering_goes_on(fields, n - 1, guess);
        assert(fields[n - 1].ident is Some || parsed_attrs(
            attribute_views(fields[n - 1].attrs@),
            field_keys(),
        ) is Err);
    }
}

/// A name that is met is the last one met.
proof fn lemma_seen_last(seen: Seq<(Seq<char>, Span)>, name: Seq<char>, span: Span)
    ensures
        last_seen(seen.push((name, span)), name) == Some(span),
{
    assert(seen.push((name, span)).last() == (name, span));
}

/// Meeting another name changes nothing for this one.
proof fn lemma_seen_other(
    seen: Seq<(Seq<char>, Span)>,
    other: Seq<char>,
    span: Span,
    name: Seq<char>,
)
    requires
        other != name,
    ensures
        last_seen(seen.push((other, span)), name) == last_seen(seen, name),
{
    assert(seen.push((other, span)).drop_last() =~= seen);
    assert(seen.push((other, span)).last() == (other, span));
}

/// Where the name `name` was last met after the first `n` members, in a
/// record in which no member between `i` and `n` stands under that name, and
/// the member at `i` does: at the name of that member.
proof fn lemma_last_met(fields: Seq<FieldDecl>, i: int, n: int, guess: bool)
    requires
        all_named(fields),
        0 <= i < n <= fields.len(),
        stands(fields[i], guess),
        forall|k: int|
            i < k < n ==> !(stands(#[trigger] fields[k], guess) && rendered_field_name(
                fields[k],
            ).0 == rendered_field_name(fields[i]).0),
    ensures
        fields_upto(fields, n, guess) matches Ok(g) && last_seen(
            g.seen,
            rendered_field_name(fields[i]).0,
        ) == Some(rendered_field_name(fields[i]).1),
    decreases n,
{
    let (name, span) = rendered_field_name(fields[i]);
    lemma_gathering_goes_on(fields, n - 1, guess);
    lemma_gathering_goes_on(fields, n, guess);
    let before = fields_upto(fields, n - 1, guess)->Ok_0;
    if n == i + 1 {
        lemma_seen_last(before.seen, name, span);
    } else {
        lemma_last_met(fields, i, n - 1, guess);
        let field = fields[n - 1];
        assert(!(stands(field, guess) && rendered_field_name(field).0 == name));
        match parsed_attrs(attribute_views(field.attrs@), field_keys()) {
            Err(report) => {},
            Ok(kvs) => {
                if !kvs.dom().contains(Kind::Ignore) && field_type(kvs, field.ty, guess) is Some {
                    let (other, place) = field_name(kvs, field.ident->0);
                    lemma_seen_other(before.seen, other, place, name);
                }
            },
        }
    }
}

/// A report that was made of a record stays made, whatever members follow.
proof fn lemma_field_reports_stay(
    fields: Seq<FieldDecl>,
    n: int,
    m: int,
    guess: bool,
    e: ErrorView,
)
    requires
        all_named(fields),
        0 <= n <= m <= fields.len(),
        collected_holds(fields_upto(fields, n, guess)->Ok_0.errors, e),
    ensures
        fields_upto(fields, m, guess) matches Ok(g) && collected_holds(g.errors, e),
    decreases m - n,
{
    lemma_gathering_goes_on(fields, m, guess);
    if n < m {
        lemma_field_reports_stay(fields, n, m - 1, guess, e);
        let before = fields_upto(fields, m - 1, guess)->Ok_0.errors;
        let after = fields_upto(fields, m, guess)->Ok_0.errors;
        let (i, j) = choose|i: int, j: int|
            0 <= i < before.len() && 0 <= j < before[i].len() && #[trigger] before[i][j] == e;
        assert(after.len() >= before.len() && after[i] == before[i]);
        assert(after[i][j] == e);
    }
}

/// Two members of a record that stand under one name make the record wrong,
/// however many members it has and wherever the two are: the report holds
/// the conflict at the name of the later member, and the conflict refers to
/// the name of the last member before it that stands under that name.
pub proof fn law_name_conflict(fields: Seq<FieldDecl>, i: int, j: int, guess: bool)
    requires
        all_named(fields),
        0 <= i < j < fields.len(),
        stands(fields[i], guess),
        stands(fields[j], guess),
        rendered_field_name(fields[i]).0 == rendered_field_name(fields[j]).0,
        forall|k: int|
            i < k < j ==> !(stands(#[trigger] fields[k], guess) && rendered_field_name(
                fields[k],
            ).0 == rendered_field_name(fields[i]).0),
    ensures
        collected_fields(fields, guess) matches Err(report) && report.contains(
            ErrorView::NameConflict {
                span: rendered_field_name(fields[j]).1,
                previous: rendered_field_name(fields[i]).1,
            },
        ),
{
    let e = ErrorView::NameConflict {
        span: rendered_field_name(fields[j]).1,
        previous: rendered_field_name(fields[i]).1,
    };
    lemma_last_met(fields, i, j, guess);
    lemma_gathering_goes_on(fields, j + 1, guess);
    let before = fields_upto(fields, j, guess)->Ok_0;
    let after = fields_upto(fields, j + 1, guess)->Ok_0;
    assert(after.errors[before.errors.len() as int][0] == e);
    assert(collected_holds(after.errors, e));
    lemma_field_reports_stay(fields, j + 1, fields.len() as int, guess, e);
    lemma_merged_holds(fields_upto(fields, fields.len() as int, guess)->Ok_0.errors, e);
}

/// Whether the member `v` of an enumeration stands as a member of the enum
/// when it is met alone: it carries no data, its metadata is right, and its
/// discriminant fits the enum, which names the value of its members or
/// numbers them.
pub open spec fn member_stands(v: VariantDecl, named: Option<Seq<char>>) -> bool {
    &&& sound_member(v)
    &&& match named {
        Some(_) => v.discriminant is None,
        None => v.discriminant matches Some(expr) ==> evaluated(expr) is Ok,
    }
}

/// The place of the name under which the member `v` is rendered.
pub open spec fn rendered_member_span(v: VariantDecl) -> Span {
    member_name(parsed_attrs(attribute_views(v.attrs@), variant_keys())->Ok_0, v.ident).1
}

/// Where the name of the member at `i` was last met after the first `n`
/// members, in an enumeration in which no member between `i` and `n` stands
/// under that name, and the member at `i` does: at the name of that member.
proof fn lemma_member_last_met(
    variants: Seq<VariantDecl>,
    i: int,
    n: int,
    named: Option<Seq<char>>,
)
    requires
        0 <= i < n <= variants.len(),
        member_stands(variants[i], named),
        forall|k: int|
            i < k < n ==> !(member_stands(#[trigger] variants[k], named) && rendered_member_name(
                variants[k],
            ) == rendered_member_name(variants[i])),
    ensures
        last_seen(
            variants_upto(variants, n, named).gathered.seen,
            rendered_member_name(variants[i]),
        ) == Some(rendered_member_span(variants[i])),
    decreases n,
{
    let name = rendered_member_name(variants[i]);
    let before = variants_upto(variants, n - 1, named);
    let v = variants[n - 1];
    assert(variants_upto(variants, n, named) == variant_step(before, v, named));
    if n == i + 1 {
        lemma_seen_last(before.gathered.seen, name, rendered_member_span(v));
    } else {
        lemma_member_last_met(variants, i, n - 1, named);
        assert(!(member_stands(v, named) && rendered_member_name(v) == name));
        if member_stands(v, named) {
            lemma_seen_other(
                before.gathered.seen,
                rendered_member_name(v),
                rendered_member_span(v),
                name,
            );
        }
    }
}

/// Two members of an enumeration that stand under one name make the
/// enumeration wrong, however many members it has and wherever the two are:
/// the report holds the conflict at the name of the later member, and the
/// conflict refers to the name of the last member before it that stands
/// under that name.
pub proof fn law_member_name_conflict(
    variants: Seq<VariantDecl>,
    i: int,
    j: int,
    named: Option<Seq<char>>,
)
    requires
        0 <= i < j < variants.len(),
        member_stands(variants[i], named),
        member_stands(variants[j], named),
        rendered_member_name(variants[i]) == rendered_member_name(variants[j]),
        forall|k: int|
            i < k < j ==> !(member_stands(#[trigger] variants[k], named) && rendered_member_name(
                variants[k],
            ) == rendered_member_name(variants[i])),
    ensures
        collected_variants(variants, named) matches Err(report) && report.contains(
            ErrorView::NameConflict {
                span: rendered_member_span(variants[j]),
                previous: rendered_member_span(variants[i]),
            },
        ),
{
    let e = ErrorView::NameConflict {
        span: rendered_member_span(variants[j]),
        previous: rendered_member_span(variants[i]),
    };
    lemma_member_last_met(variants, i, j, named);
    let before = variants_upto(variants, j, named);
    let after = variants_upto(variants, j + 1, named);
    assert(after == variant_step(before, variants[j], named));
    assert(after.gathered.errors[before.gathered.errors.len() as int][0] == e);
    assert(collected_holds(after.gathered.errors, e));
    lemma_reports_stay(variants, j + 1, variants.len() as int, named, e);
    lemma_merged_holds(variants_upto(variants, variants.len() as int, named).gathered.errors, e);
}

/// Whether the names `names` are in ascending order, so that none is there
/// twice.
pub open spec fn ascending(names: Seq<Seq<char>>) -> bool {
    forall|i: int, j: int|
        0 <= i < j < names.len() ==> text_before(#[trigger] names[i], #[trigger] names[j])
}

/// Putting a name among names in ascending order leaves them in ascending
/// order, and adds that name and no other.
pub proof fn lemma_with_name(names: Seq<Seq<char>>, name: Seq<char>)
    requires
        ascending(names),
    ensures
        ascending(with_name(names, name)),
        forall|x: Seq<char>|
            #[trigger] with_name(names, name).contains(x) <==> names.contains(x) || x == name,
    decreases names.len(),
{
    let result = with_name(names, name);
    if names.len() == 0 {
        assert(result[0] == name);
    } else if names.last() == name {
        assert(names[names.len() - 1] == name);
    } else if text_before(names.last(), name) {
        assert forall|i: int, j: int| 0 <= i < j < result.len() implies text_before(
            #[trigger] result[i],
            #[trigger] result[j],
        ) by {
            if j == names.len() && i < names.len() - 1 {
                assert(text_before(names[i], names[names.len() - 1]));
                lemma_text_order_transitive(names[i], names.last(), name);
            }
        }
        assert forall|x: Seq<char>| result.contains(x) <==> names.contains(x) || x == name by {
            if names.contains(x) {
                let k = choose|k: int| 0 <= k < names.len() && names[k] == x;
                assert(result[k] == x);
            }
            if x == name {
                assert(result[names.len() as int] == x);
            }
            if result.contains(x) {
                let k = choose|k: int| 0 <= k < result.len() && result[k] == x;
                if k < names.len() {
                    assert(names[k] == x);
                }
            }
        }
    } else {
        let rest = names.drop_last();
        let last = names.last();
        let shorter = with_name(rest, name);
        assert(ascending(rest)) by {
            assert forall|i: int, j: int| 0 <= i < j < rest.len() implies text_before(
                #[trigger] rest[i],
                #[trigger] rest[j],
            ) by {
                assert(text_before(names[i], names[j]));
            }
        }
        lemma_with_name(rest, name);
        lemma_text_order_total(last, name);
        assert(text_before(name, last));
        assert forall|i: int, j: int| 0 <= i < j < result.len() implies text_before(
            #[trigger] result[i],
            #[trigger] result[j],
        ) by {
            if j < shorter.len() {
                assert(text_before(shorter[i], shorter[j]));
            } else {
                assert(shorter.contains(shorter[i]));
                if rest.contains(shorter[i]) {
                    let k = choose|k: int| 0 <= k < rest.len() && rest[k] == shorter[i];
                    assert(text_before(names[k], names[names.len() - 1]));
                }
            }
        }
        assert forall|x: Seq<char>| result.contains(x) <==> names.contains(x) || x == name by {
            if result.contains(x) {
                let k = choose|k: int| 0 <= k < result.len() && result[k] == x;
                if k < shorter.len() {
                    assert(shorter.contains(shorter[k]));
                    if rest.contains(x) {
                        let m = choose|m: int| 0 <= m < rest.len() && rest[m] == x;
                        assert(names[m] == x);
                    }
                } else {
                    assert(names[names.len() - 1] == x);
                }
            }
            if names.contains(x) {
                let k = choose|k: int| 0 <= k < names.len() && names[k] == x;
                if k < rest.len() {
                    assert(rest[k] == x);
                    assert(rest.contains(x));
                    assert(shorter.contains(x));
                    let m = choose|m: int| 0 <= m < shorter.len() && shorter[m] == x;
                    assert(result[m] == x);
                } else {
                    assert(result[shorter.len() as int] == x);
                }
            }
            if x == name {
                assert(shorter.contains(x));
                let m = choose|m: int| 0 <= m < shorter.len() && shorter[m] == x;
                assert(result[m] == x);
            }
        }
    }
}

/// Whether `allowed` holds an entry under the name `name`.
pub open spec fn names_key(allowed: Seq<(Seq<char>, Kind)>, name: Seq<char>) -> bool {
    exists|i: int| 0 <= i < allowed.len() && (#[trigger] allowed[i]).0 == name
}

/// The keys that an unknown-key finding names are the names of the allow
/// list in ascending order, each once, whatever the order and the repeats of
/// the list; and a key has a kind exactly when it is among them.
pub proof fn law_supported_keys(allowed: Seq<(Seq<char>, Kind)>)
    ensures
        ascending(key_names(allowed)),
        forall|i: int, j: int|
            0 <= i < j < key_names(allowed).len() ==> (#[trigger] key_names(allowed)[i]) != (
            #[trigger] key_names(allowed)[j]),
        forall|x: Seq<char>| #[trigger] key_names(allowed).contains(x) <==> names_key(allowed, x),
        forall|x: Seq<char>|
            kind_of(allowed, x) is Some <==> #[trigger] key_names(allowed).contains(x),
    decreases allowed.len(),
{
    let names = key_names(allowed);
    if allowed.len() > 0 {
        let rest = allowed.drop_last();
        let last = allowed.last();
        law_supported_keys(rest);
        lemma_with_name(key_names(rest), last.0);
        assert forall|x: Seq<char>| names.contains(x) <==> names_key(allowed, x) by {
            if names_key(allowed, x) {
                let k = choose|k: int| 0 <= k < allowed.len() && (#[trigger] allowed[k]).0 == x;
                if k < rest.len() {
                    assert(rest[k].0 == x);
                    assert(names_key(rest, x));
                }
            }
            if names_key(rest, x) {
                let k = choose|k: int| 0 <= k < rest.len() && (#[trigger] rest[k]).0 == x;
                assert(allowed[k].0 == x);
            }
            if x == last.0 {
                assert(allowed[allowed.len() - 1].0 == x);
            }
        }
        assert forall|x: Seq<char>| kind_of(allowed, x) is Some <==> #[trigger] names.contains(
            x,
        ) by {
            assert(key_names(rest).contains(x) <==> kind_of(rest, x) is Some);
            assert(with_name(key_names(rest), last.0).contains(x) <==> key_names(rest).contains(x)
                || x == last.0);
        }
    }
    assert forall|i: int, j: int| 0 <= i < j < names.len() implies (#[trigger] names[i]) != (
    #[trigger] names[j]) by {
        assert(text_before(names[i], names[j]));
        lemma_text_order_strict(names[i], names[j]);
    }
}

/// Rendering depends on nothing but what the descriptor holds: two
/// descriptors that hold the same, and so one descriptor rendered twice, give
/// the same text, character by character.
pub proof fn law_rendering_repeatable(a: Type, b: Type)
    requires
        a@ == b@,
    ensures
        type_text(a@) == type_text(b@),
{
}

/// Guessing the Lua type of a wrapper is guessing that of what it wraps, and
/// putting the wrapper's suffix behind it.
pub proof fn law_wrapper_appends_suffix(shape: TypeShape, inner: TypeShape, suffix: Seq<char>)
    requires
        unwrapped(shape) == Some((inner, suffix)),
    ensures
        classified(shape) == match classified(inner) {
            Some(name) => Some(name + suffix),
            None => None,
        },
{
}

/// Wrappers are applied from the inside out: the guess for an
/// optional list is the guess for what the list holds, then `[]`, then `?`.
pub proof fn law_wrappers_inside_out(outer: TypeShape, list: TypeShape, inner: TypeShape)
    requires
        unwrapped(outer) == Some((list, "?"@)),
        unwrapped(list) == Some((inner, "[]"@)),
    ensures
        classified(outer) == match classified(inner) {
            Some(name) => Some(name + "[]"@ + "?"@),
            None => None,
        },
{
    reveal_with_fuel(classified, 3);
    match classified(inner) {
        Some(name) => {
            assert(classified(list) == Some(name + "[]"@));
        },
        None => {},
    }
}

/// Where types are guessed, a field without a type of its own has the guess
/// for its declared type, and `any` where there is no guess: guessing never
/// leaves a field without a type.
pub proof fn law_guess_falls_back(kvs: Map<Kind, AttrView>, shape: TypeShape)
    requires
        !kvs.dom().contains(Kind::Type),
    ensures
        field_type(kvs, shape, true) == match classified(shape) {
            Some(name) => Some(name),
            None => Some("any"@),
        },
        field_type(kvs, shape, false) is None,
{
}

} // verus!
