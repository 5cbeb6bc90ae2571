//! Documentation comments of a declaration or a member.

use crate::data::texts;
use crate::text::{same_text, trim, trim_spec};
use crate::token::{attribute_views, Attribute, AttributeView, Meta, Token};
use vstd::prelude::*;

verus! {

/// The documentation line that the attribute `a` is, if it is one: the text
/// of `doc = "text"`, without the white space around it.
pub open spec fn doc_line(a: AttributeView) -> Option<Seq<char>> {
    if a.name == "doc"@ && a.meta is NameValue && a.meta->NameValue_0 is Str {
        Some(trim_spec(a.meta->NameValue_0->Str_value))
    } else {
        None
    }
}

/// The documentation lines among `attrs`, in source order.
pub open spec fn collected_docs(attrs: Seq<AttributeView>) -> Seq<Seq<char>>
    decreases attrs.len(),
{
    if attrs.len() == 0 {
        Seq::empty()
    } else {
        match doc_line(attrs.last()) {
            Some(line) => collected_docs(attrs.drop_last()).push(line),
            None => collected_docs(attrs.drop_last()),
        }
    }
}

/// The documentation lines among `attrs`, in source order. Attributes that
/// are no documentation are passed over.
pub fn collect_docs(attrs: &Vec<Attribute>) -> (r: Vec<String>)
    ensures
        texts(r@) == collected_docs(attribute_views(attrs@)),
{
    let ghost all = attribute_views(attrs@);
    let mut out: Vec<String> = Vec::new();
    let mut i: usize = 0;
    assert(all.take(0) =~= Seq::empty());
    assert(texts(out@) =~= Seq::empty());
    while i < attrs.len()
        invariant
            i <= attrs.len(),
            all == attribute_views(attrs@),
            texts(out@) == collected_docs(all.take(i as int)),
        decreases attrs.len() - i,
    {
        proof {
            assert(all.take(i + 1).drop_last() =~= all.take(i as int));
            assert(all.take(i + 1).last() == attrs@[i as int]@);
        }
        let ghost before = texts(out@);
        let attr = &attrs[i];
        if same_text(attr.name.as_str(), "doc") {
            match &attr.meta {
                Meta::NameValue(Token::Str { value, .. }) => {
                    out.push(trim(value.as_str()).to_owned());
                    assert(texts(out@) =~= before.push(trim_spec(value@)));
                },
                _ => {},
            }
        }
        i = i + 1;
    }
    assert(all.take(attrs.len() as int) =~= all);
    out
}

} // verus!
