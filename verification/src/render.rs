//! Rendering of descriptors as LuaLS annotation text.

use crate::data::{
    field_views, texts, variant_views, Class, ClassView, Discriminant, DiscriminantView, Enum,
    EnumView, FieldView, Type, TypeView, VariantView, Anno,
};
use crate::text::{decimal, decimal_text, trim_start, trim_start_spec};
use vstd::prelude::*;
use vstd::string::StringExecFns;

verus! {

/// The documentation lines `docs`, each behind `indent` and the comment
/// marker, without its leading white space.
pub open spec fn docs_text(docs: Seq<Seq<char>>, indent: Seq<char>) -> Seq<char>
    decreases docs.len(),
{
    if docs.len() == 0 {
        Seq::empty()
    } else {
        docs_text(docs.drop_last(), indent) + indent + "--- "@ + trim_start_spec(docs.last())
            + "\n"@
    }
}

/// The lines of one field: its documentation, then its declaration.
pub open spec fn field_text(f: FieldView) -> Seq<char> {
    docs_text(f.docs, Seq::empty()) + "---@field "@ + trim_start_spec(f.name) + " "@
        + trim_start_spec(f.ty) + "\n"@
}

/// The lines of the fields `fields`, in order.
pub open spec fn fields_text(fields: Seq<FieldView>) -> Seq<char>
    decreases fields.len(),
{
    if fields.len() == 0 {
        Seq::empty()
    } else {
        fields_text(fields.drop_last()) + field_text(fields.last())
    }
}

/// The qualifier of an exact class, or nothing.
pub open spec fn exact_text(exact: bool) -> Seq<char> {
    if exact {
        "(exact) "@
    } else {
        Seq::empty()
    }
}

/// The annotation of a class: its documentation, the class line, its fields,
/// the line that initializes its value, and a blank line.
pub open spec fn class_text(c: ClassView) -> Seq<char> {
    docs_text(c.docs, Seq::empty()) + "---@class "@ + exact_text(c.exact) + trim_start_spec(
        c.name,
    ) + "\n"@ + fields_text(c.fields) + trim_start_spec(c.name) + " = { }\n"@ + "\n"@
}

/// The value of a member: a bare integer, or a bare name without its leading
/// white space.
pub open spec fn discriminant_text(d: DiscriminantView) -> Seq<char> {
    match d {
        DiscriminantView::Number(n) => decimal(n),
        DiscriminantView::Named(s) => trim_start_spec(s),
    }
}

/// The lines of one member: its documentation, then `name = value,`, all
/// indented.
pub open spec fn variant_text(v: VariantView) -> Seq<char> {
    docs_text(v.docs, "    "@) + "    "@ + trim_start_spec(v.name) + " = "@ + discriminant_text(
        v.discriminant,
    ) + ",\n"@
}

/// The lines of the members `variants`, in order.
pub open spec fn variants_text(variants: Seq<VariantView>) -> Seq<char>
    decreases variants.len(),
{
    if variants.len() == 0 {
        Seq::empty()
    } else {
        variants_text(variants.drop_last()) + variant_text(variants.last())
    }
}

/// The annotation of an enum: its documentation, the enum line, the block of
/// its members, and a blank line.
pub open spec fn enum_text(e: EnumView) -> Seq<char> {
    docs_text(e.docs, Seq::empty()) + "---@enum "@ + trim_start_spec(e.name) + "\n"@
        + trim_start_spec(e.name) + " = {\n"@ + variants_text(e.variants) + "}\n"@ + "\n"@
}

/// The annotation of a descriptor of either kind.
pub open spec fn type_text(t: TypeView) -> Seq<char> {
    match t {
        TypeView::Class(c) => class_text(c),
        TypeView::Enum(e) => enum_text(e),
    }
}

/// Appends the documentation lines `docs` to `out`, each behind `indent`.
fn write_docs(out: &mut String, docs: &Vec<String>, indent: &str)
    ensures
        final(out)@ == old(out)@ + docs_text(texts(docs@), indent@),
{
    let ghost all = texts(docs@);
    let mut i: usize = 0;
    assert(all.take(0) =~= Seq::empty());
    while i < docs.len()
        invariant
            i <= docs.len(),
            all == texts(docs@),
            out@ == old(out)@ + docs_text(all.take(i as int), indent@),
        decreases docs.len() - i,
    {
        let ghost before = out@;
        out.append(indent);
        out.append("--- ");
        out.append(trim_start(docs[i].as_str()));
        out.append("\n");
        proof {
            assert(all.take(i + 1).drop_last() =~= all.take(i as int));
            assert(all.take(i + 1).last() == docs@[i as int]@);
            assert(out@ =~= old(out)@ + docs_text(all.take(i + 1), indent@));
        }
        i = i + 1;
    }
    assert(all.take(docs.len() as int) =~= all);
}

/// Appends the annotation of `class` to `out`.
pub fn generate_class(out: &mut String, class: &Class)
    ensures
        final(out)@ == old(out)@ + class_text(class@),
{
    let name = trim_start(class.name.as_str());
    write_docs(out, &class.docs, "");
    out.append("---@class ");
    if class.exact {
        out.append("(exact) ");
    }
    out.append(name);
    out.append("\n");
    let ghost head = out@;
    let ghost all = field_views(class.fields@);
    proof {
        reveal_strlit("");
        assert(""@ =~= Seq::<char>::empty());
        assert(all.take(0) =~= Seq::empty());
        assert(head =~= old(out)@ + docs_text(class@.docs, Seq::empty()) + "---@class "@
            + exact_text(class.exact) + trim_start_spec(class.name@) + "\n"@);
    }
    let mut i: usize = 0;
    while i < class.fields.len()
        invariant
            i <= class.fields.len(),
            all == field_views(class.fields@),
            ""@ == Seq::<char>::empty(),
            out@ == head + fields_text(all.take(i as int)),
        decreases class.fields.len() - i,
    {
        let field = &class.fields[i];
        write_docs(out, &field.docs, "");
        out.append("---@field ");
        out.append(trim_start(field.name.as_str()));
        out.append(" ");
        out.append(trim_start(field.ty.as_str()));
        out.append("\n");
        proof {
            assert(all.take(i + 1).drop_last() =~= all.take(i as int));
            assert(all.take(i + 1).last() == class.fields@[i as int]@);
            assert(out@ =~= head + fields_text(all.take(i + 1)));
        }
        i = i + 1;
    }
    assert(all.take(class.fields.len() as int) =~= all);
    out.append(name);
    out.append(" = { }\n");
    out.append("\n");
    assert(out@ =~= old(out)@ + class_text(class@));
}

/// Appends the annotation of `enum_` to `out`.
pub fn generate_enum(out: &mut String, enum_: &Enum)
    ensures
        final(out)@ == old(out)@ + enum_text(enum_@),
{
    let name = trim_start(enum_.name.as_str());
    write_docs(out, &enum_.docs, "");
    out.append("---@enum ");
    out.append(name);
    out.append("\n");
    out.append(name);
    out.append(" = {\n");
    let ghost head = out@;
    let ghost all = variant_views(enum_.variants@);
    proof {
        reveal_strlit("");
        assert(""@ =~= Seq::<char>::empty());
        assert(all.take(0) =~= Seq::empty());
        assert(head =~= old(out)@ + docs_text(enum_@.docs, Seq::empty()) + "---@enum "@
            + trim_start_spec(enum_.name@) + "\n"@ + trim_start_spec(enum_.name@) + " = {\n"@);
    }
    let mut i: usize = 0;
    while i < enum_.variants.len()
        invariant
            i <= enum_.variants.len(),
            all == variant_views(enum_.variants@),
            out@ == head + variants_text(all.take(i as int)),
        decreases enum_.variants.len() - i,
    {
        let variant = &enum_.variants[i];
        write_docs(out, &variant.docs, "    ");
        out.append("    ");
        out.append(trim_start(variant.name.as_str()));
        out.append(" = ");
        match &variant.discriminant {
            Discriminant::Number(n) => {
                let digits = decimal_text(*n);
                out.append(digits.as_str());
            },
            Discriminant::Named(n) => {
                out.append(trim_start(n.as_str()));
            },
        }
        out.append(",\n");
        proof {
            assert(all.take(i + 1).drop_last() =~= all.take(i as int));
            assert(all.take(i + 1).last() == enum_.variants@[i as int]@);
            assert(out@ =~= head + variants_text(all.take(i + 1)));
        }
        i = i + 1;
    }
    assert(all.take(enum_.variants.len() as int) =~= all);
    out.append("}\n");
    out.append("\n");
    assert(out@ =~= old(out)@ + enum_text(enum_@));
}

/// Appends the annotation of the descriptor `ty` to `out`.
pub fn generate_type(out: &mut String, ty: &Type)
    ensures
        final(out)@ == old(out)@ + type_text(ty@),
{
    match ty {
        Type::Class(class) => generate_class(out, class),
        Type::Enum(enum_) => generate_enum(out, enum_),
    }
}

/// Appends the annotation of the type `T` to `out`: the text of whatever
/// descriptor `T` gives of itself.
pub fn generate<T: Anno>(out: &mut String)
    ensures
        exists|t: TypeView| final(out)@ == old(out)@ + type_text(t),
{
    let ty = T::lua_type();
    generate_type(out, &ty);
}

} // verus!
