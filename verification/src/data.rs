//! The descriptors that modeling produces and rendering consumes.

use vstd::prelude::*;

verus! {

/// A handle on a region of the declaration's source. The library never looks
/// inside it: it only carries it from the input to the diagnostics.
#[derive(Clone, Copy, Debug, PartialEq, Eq, PartialOrd, Ord, Hash, Structural)]
pub struct Span {
    pub id: usize,
}

/// One field of a class.
#[derive(Clone, Debug, PartialEq, Eq, PartialOrd, Ord, Hash)]
pub struct Field {
    pub name: String,
    pub ty: String,
    pub docs: Vec<String>,
}

/// The value that a rendered enum member takes.
#[derive(Clone, Debug, PartialEq, Eq, PartialOrd, Ord, Hash)]
pub enum Discriminant {
    Number(isize),
    Named(String),
}

/// One member of an enum.
#[derive(Clone, Debug, PartialEq, Eq, PartialOrd, Ord, Hash)]
pub struct Variant {
    /// Where the member was declared.
    pub span: Span,
    /// The member's own identifier.
    pub variant: String,
    /// The name under which the member is rendered.
    pub name: String,
    pub discriminant: Discriminant,
    pub docs: Vec<String>,
}

/// The validated model of a record.
#[derive(Clone, Debug, PartialEq, Eq, PartialOrd, Ord, Hash)]
pub struct Class {
    pub exact: bool,
    pub docs: Vec<String>,
    pub name: String,
    pub fields: Vec<Field>,
}

/// The validated model of an enumeration of unit members.
#[derive(Clone, Debug, PartialEq, Eq, PartialOrd, Ord, Hash)]
pub struct Enum {
    pub docs: Vec<String>,
    pub name: String,
    pub variants: Vec<Variant>,
}

/// Either kind of descriptor.
#[derive(Clone, Debug, PartialEq, Eq, PartialOrd, Ord, Hash)]
pub enum Type {
    Class(Class),
    Enum(Enum),
}

pub struct FieldView {
    pub name: Seq<char>,
    pub ty: Seq<char>,
    pub docs: Seq<Seq<char>>,
}

pub enum DiscriminantView {
    Number(int),
    Named(Seq<char>),
}

pub struct VariantView {
    pub span: Span,
    pub variant: Seq<char>,
    pub name: Seq<char>,
    pub discriminant: DiscriminantView,
    pub docs: Seq<Seq<char>>,
}

pub struct ClassView {
    pub exact: bool,
    pub docs: Seq<Seq<char>>,
    pub name: Seq<char>,
    pub fields: Seq<FieldView>,
}

pub struct EnumView {
    pub docs: Seq<Seq<char>>,
    pub name: Seq<char>,
    pub variants: Seq<VariantView>,
}

pub enum TypeView {
    Class(ClassView),
    Enum(EnumView),
}

/// Whether the fields `fields` have different names.
pub open spec fn field_names_differ(fields: Seq<FieldView>) -> bool {
    forall|i: int, j: int|
        0 <= i < j < fields.len() ==> (#[trigger] fields[i]).name != (#[trigger] fields[j]).name
}

/// Whether the members `variants` have different names.
pub open spec fn variant_names_differ(variants: Seq<VariantView>) -> bool {
    forall|i: int, j: int|
        0 <= i < j < variants.len() ==> (#[trigger] variants[i]).name != (
        #[trigger] variants[j]).name
}

impl ClassView {
    /// The fields of a class have different names.
    pub open spec fn wf(self) -> bool {
        field_names_differ(self.fields)
    }
}

impl EnumView {
    /// The members of an enum have different names.
    pub open spec fn wf(self) -> bool {
        variant_names_differ(self.variants)
    }
}

impl TypeView {
    /// The descriptor is a class or an enum with members of different names.
    pub open spec fn wf(self) -> bool {
        match self {
            TypeView::Class(c) => c.wf(),
            TypeView::Enum(e) => e.wf(),
        }
    }
}

/// The texts that a list of strings holds.
pub open spec fn texts(v: Seq<String>) -> Seq<Seq<char>> {
    Seq::new(v.len(), |i: int| v[i]@)
}

impl View for Field {
    type V = FieldView;

    open spec fn view(&self) -> FieldView {
        FieldView { name: self.name@, ty: self.ty@, docs: texts(self.docs@) }
    }
}

impl View for Discriminant {
    type V = DiscriminantView;

    open spec fn view(&self) -> DiscriminantView {
        match self {
            Discriminant::Number(n) => DiscriminantView::Number(*n as int),
            Discriminant::Named(s) => DiscriminantView::Named(s@),
        }
    }
}

impl View for Variant {
    type V = VariantView;

    open spec fn view(&self) -> VariantView {
        VariantView {
            span: self.span,
            variant: self.variant@,
            name: self.name@,
            discriminant: self.discriminant@,
            docs: texts(self.docs@),
        }
    }
}

/// The views of a list of fields.
pub open spec fn field_views(v: Seq<Field>) -> Seq<FieldView> {
    Seq::new(v.len(), |i: int| v[i]@)
}

/// The views of a list of variants.
pub open spec fn variant_views(v: Seq<Variant>) -> Seq<VariantView> {
    Seq::new(v.len(), |i: int| v[i]@)
}

impl View for Class {
    type V = ClassView;

    open spec fn view(&self) -> ClassView {
        ClassView {
            exact: self.exact,
            docs: texts(self.docs@),
            name: self.name@,
            fields: field_views(self.fields@),
        }
    }
}

impl View for Enum {
    type V = EnumView;

    open spec fn view(&self) -> EnumView {
        EnumView {
            docs: texts(self.docs@),
            name: self.name@,
            variants: variant_views(self.variants@),
        }
    }
}

impl View for Type {
    type V = TypeView;

    open spec fn view(&self) -> TypeView {
        match self {
            Type::Class(c) => TypeView::Class(c@),
            Type::Enum(e) => TypeView::Enum(e@),
        }
    }
}

/// A type that has a Lua annotation.
pub trait Anno {
    /// The descriptor of this type.
    fn lua_type() -> Type;
}

/// The rendered names of an enum's members, each with the member it names.
pub trait AnnoEnum: Sized {
    /// Every member, under its rendered name.
    fn variants() -> Vec<(String, Self)>;

    /// The rendered name of this member.
    fn variant_name(&self) -> String;
}

} // verus!
