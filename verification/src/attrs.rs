//! The parser of `anno(...)` metadata: keys and quoted values, checked
//! against the keys that the place accepts.

use crate::data::{texts, Span};
use crate::error::{error_views, Error, ErrorView, Report};
use crate::text::{blank, comes_before, is_blank, same_text, text_before};
use crate::token::{
    attribute_views, token_views, Attribute, AttributeView, Meta, MetaView, Token, TokenView,
};
use vstd::prelude::*;

verus! {

/// What a key of the metadata stands for.
#[derive(Copy, Clone, Debug, PartialEq, Eq, PartialOrd, Ord, Hash, Structural)]
pub enum Kind {
    /// The Lua type of a field: a key with a value.
    Type,
    /// The rendered name: a key with a value.
    Name,
    /// Leave the member out: a key without a value.
    Ignore,
}

/// One entry of the metadata: where its key and its value stand, and the
/// value. A key without a value has the key's place for both, and no text.
#[derive(Clone, Debug, PartialEq, Eq)]
pub struct Attr {
    pub key: Span,
    pub value: Span,
    pub data: String,
}

pub struct AttrView {
    pub key: Span,
    pub value: Span,
    pub data: Seq<char>,
}

impl View for Attr {
    type V = AttrView;

    open spec fn view(&self) -> AttrView {
        AttrView { key: self.key, value: self.value, data: self.data@ }
    }
}

/// The entries of one metadata block, at most one of each kind.
#[derive(Clone, Debug, PartialEq, Eq)]
pub struct AttrMap {
    pub ty: Option<Attr>,
    pub name: Option<Attr>,
    pub ignore: Option<Attr>,
}

impl AttrMap {
    /// The entry of `kind`, if there is one.
    pub open spec fn slot(&self, kind: Kind) -> Option<Attr> {
        match kind {
            Kind::Type => self.ty,
            Kind::Name => self.name,
            Kind::Ignore => self.ignore,
        }
    }
}

impl View for AttrMap {
    type V = Map<Kind, AttrView>;

    open spec fn view(&self) -> Map<Kind, AttrView> {
        Map::new(|k: Kind| self.slot(k) is Some, |k: Kind| self.slot(k)->0@)
    }
}

impl AttrMap {
    /// The map without entries.
    pub fn new() -> (r: AttrMap)
        ensures
            r@ == Map::<Kind, AttrView>::empty(),
    {
        let r = AttrMap { ty: None, name: None, ignore: None };
        assert(r@ =~= Map::<Kind, AttrView>::empty());
        r
    }

    /// Whether there is an entry of `kind`.
    pub fn contains(&self, kind: Kind) -> (r: bool)
        ensures
            r == self@.dom().contains(kind),
    {
        match kind {
            Kind::Type => self.ty.is_some(),
            Kind::Name => self.name.is_some(),
            Kind::Ignore => self.ignore.is_some(),
        }
    }

    /// The entry of `kind`, if there is one.
    pub fn get(&self, kind: Kind) -> (r: Option<&Attr>)
        ensures
            r is Some <==> self@.dom().contains(kind),
            r matches Some(attr) ==> attr@ == self@[kind],
    {
        match kind {
            Kind::Type => self.ty.as_ref(),
            Kind::Name => self.name.as_ref(),
            Kind::Ignore => self.ignore.as_ref(),
        }
    }

    /// Puts `attr` under `kind` and gives back the entry that was there.
    pub fn insert(&mut self, kind: Kind, attr: Attr) -> (r: Option<Attr>)
        ensures
            final(self)@ == old(self)@.insert(kind, attr@),
            r is Some <==> old(self)@.dom().contains(kind),
            r matches Some(previous) ==> previous@ == old(self)@[kind],
    {
        let mut slot = Some(attr);
        match kind {
            Kind::Type => std::mem::swap(&mut self.ty, &mut slot),
            Kind::Name => std::mem::swap(&mut self.name, &mut slot),
            Kind::Ignore => std::mem::swap(&mut self.ignore, &mut slot),
        }
        assert(self@ =~= old(self)@.insert(kind, attr@));
        slot
    }

    /// Takes the entry of `kind` out, if there is one.
    pub fn remove(&mut self, kind: Kind) -> (r: Option<Attr>)
        ensures
            final(self)@ == old(self)@.remove(kind),
            r is Some <==> old(self)@.dom().contains(kind),
            r matches Some(taken) ==> taken@ == old(self)@[kind],
    {
        let mut slot = None;
        match kind {
            Kind::Type => std::mem::swap(&mut self.ty, &mut slot),
            Kind::Name => std::mem::swap(&mut self.name, &mut slot),
            Kind::Ignore => std::mem::swap(&mut self.ignore, &mut slot),
        }
        assert(self@ =~= old(self)@.remove(kind));
        slot
    }
}

/// The keys that a place accepts, each with its kind.
pub open spec fn allowed_view(allowed: Seq<(&str, Kind)>) -> Seq<(Seq<char>, Kind)> {
    Seq::new(allowed.len(), |i: int| (allowed[i].0@, allowed[i].1))
}

/// The names `names`, which are in ascending order, with `name` at its place
/// among them, unless it is among them already.
pub open spec fn with_name(names: Seq<Seq<char>>, name: Seq<char>) -> Seq<Seq<char>>
    decreases names.len(),
{
    if names.len() == 0 {
        seq![name]
    } else if names.last() == name {
        names
    } else if text_before(names.last(), name) {
        names.push(name)
    } else {
        with_name(names.drop_last(), name).push(names.last())
    }
}

/// The names of the keys that a place accepts, in ascending order, each
/// once.
pub open spec fn key_names(allowed: Seq<(Seq<char>, Kind)>) -> Seq<Seq<char>>
    decreases allowed.len(),
{
    if allowed.len() == 0 {
        Seq::empty()
    } else {
        with_name(key_names(allowed.drop_last()), allowed.last().0)
    }
}

/// The kind of `key`: that of the last entry of `allowed` under that name,
/// so that a later entry replaces an earlier one of the same name.
pub open spec fn kind_of(allowed: Seq<(Seq<char>, Kind)>, key: Seq<char>) -> Option<Kind>
    decreases allowed.len(),
{
    if allowed.len() == 0 {
        None
    } else if allowed.last().0 == key {
        Some(allowed.last().1)
    } else {
        kind_of(allowed.drop_last(), key)
    }
}

/// The kind of `key`: that of the last entry of `allowed` under that name.
pub fn lookup(allowed: &[(&str, Kind)], key: &str) -> (r: Option<Kind>)
    ensures
        r == kind_of(allowed_view(allowed@), key@),
{
    let ghost all = allowed_view(allowed@);
    let mut i: usize = allowed.len();
    assert(all.take(i as int) =~= all);
    while i > 0
        invariant
            i <= allowed.len(),
            all == allowed_view(allowed@),
            kind_of(all, key@) == kind_of(all.take(i as int), key@),
        decreases i,
    {
        proof {
            assert(all.take(i as int).last() == all[i - 1]);
            assert(all.take(i as int).drop_last() =~= all.take(i - 1));
        }
        if same_text(allowed[i - 1].0, key) {
            return Some(allowed[i - 1].1);
        }
        i = i - 1;
    }
    None
}

/// Puts `name` at its place among the names `names`, which are in ascending
/// order, unless it is among them already.
fn add_name(names: &mut Vec<String>, name: &str)
    ensures
        texts(final(names)@) == with_name(texts(old(names)@), name@),
{
    let ghost all = texts(names@);
    let mut j: usize = names.len();
    assert(all.take(j as int) =~= all);
    assert(all.skip(j as int) =~= Seq::empty());
    assert(with_name(all, name@) =~= with_name(all.take(j as int), name@) + all.skip(j as int));
    while j > 0
        invariant
            j <= names@.len(),
            names == old(names),
            all == texts(names@),
            with_name(all, name@) == with_name(all.take(j as int), name@) + all.skip(j as int),
        decreases j,
    {
        let ghost head = all.take(j as int);
        proof {
            assert(head.last() == all[j - 1]);
            assert(head.drop_last() =~= all.take(j - 1));
        }
        if same_text(names[j - 1].as_str(), name) {
            assert(head + all.skip(j as int) =~= all);
            return ;
        }
        if comes_before(names[j - 1].as_str(), name) {
            proof {
                assert(head.push(name@) + all.skip(j as int) =~= all.insert(j as int, name@));
            }
            names.insert(j, name.to_owned());
            assert(texts(names@) =~= all.insert(j as int, name@));
            return ;
        }
        proof {
            let shorter = with_name(all.take(j - 1), name@);
            assert(with_name(head, name@) == shorter.push(all[j - 1]));
            assert(shorter.push(all[j - 1]) + all.skip(j as int) =~= shorter + all.skip(j - 1));
        }
        j = j - 1;
    }
    proof {
        assert(all.take(0) =~= Seq::empty());
        assert(seq![name@] + all.skip(0) =~= all.insert(0, name@));
    }
    names.insert(0, name.to_owned());
    assert(texts(names@) =~= all.insert(0, name@));
}

/// The names of the keys that a place accepts, in ascending order, each
/// once.
fn supported_keys(allowed: &[(&str, Kind)]) -> (r: Vec<String>)
    ensures
        texts(r@) == key_names(allowed_view(allowed@)),
{
    let ghost all = allowed_view(allowed@);
    let mut out: Vec<String> = Vec::new();
    let mut i: usize = 0;
    assert(all.take(0) =~= Seq::empty());
    assert(texts(out@) =~= Seq::empty());
    while i < allowed.len()
        invariant
            i <= allowed.len(),
            all == allowed_view(allowed@),
            texts(out@) == key_names(all.take(i as int)),
        decreases allowed.len() - i,
    {
        proof {
            assert(all.take(i + 1).last() == all[i as int]);
            assert(all.take(i + 1).drop_last() =~= all.take(i as int));
        }
        add_name(&mut out, allowed[i].0);
        i = i + 1;
    }
    assert(all.take(allowed.len() as int) =~= all);
    out
}

/// The place of the token at `pos`, or `end` where the tokens stop before it.
pub open spec fn span_at(tokens: Seq<TokenView>, pos: int, end: Span) -> Span {
    if 0 <= pos < tokens.len() {
        tokens[pos].span()
    } else {
        end
    }
}

/// Whether the token at `pos` is the punctuation `ch`.
pub open spec fn punct_at(tokens: Seq<TokenView>, pos: int, ch: char) -> bool {
    &&& 0 <= pos < tokens.len()
    &&& tokens[pos] is Punct
    &&& tokens[pos]->Punct_ch == ch
}

/// The key at `pos`: the name and the place of the identifier there. Any
/// other token, or none, is a syntax error.
pub open spec fn key_at(tokens: Seq<TokenView>, pos: int, end: Span) -> Result<
    (Seq<char>, Span),
    ErrorView,
> {
    if 0 <= pos < tokens.len() && tokens[pos] is Ident {
        Ok((tokens[pos]->Ident_name, tokens[pos]->Ident_span))
    } else {
        Err(ErrorView::Syntax(span_at(tokens, pos, end)))
    }
}

/// The value that starts at `pos`: an equals sign and a string literal, whose
/// text and place are given. Anything else is a syntax error, at the first
/// token that does not fit.
pub open spec fn value_at(tokens: Seq<TokenView>, pos: int, end: Span) -> Result<
    (Seq<char>, Span),
    ErrorView,
> {
    if !punct_at(tokens, pos, '=') {
        Err(ErrorView::Syntax(span_at(tokens, pos, end)))
    } else if pos + 1 < tokens.len() && tokens[pos + 1] is Str {
        Ok((tokens[pos + 1]->Str_value, tokens[pos + 1]->Str_span))
    } else {
        Err(ErrorView::Syntax(span_at(tokens, pos + 1, end)))
    }
}

/// Where the next item starts, for an item that ends before `pos`: at the end
/// of the tokens where nothing follows, else behind the comma that must
/// follow. Any other token is a syntax error.
pub open spec fn next_item_at(tokens: Seq<TokenView>, pos: int) -> Result<int, ErrorView> {
    if pos >= tokens.len() {
        Ok(tokens.len() as int)
    } else if punct_at(tokens, pos, ',') {
        Ok(pos + 1)
    } else {
        Err(ErrorView::Syntax(tokens[pos].span()))
    }
}

/// The key at `pos`.
pub fn read_key(tokens: &Vec<Token>, pos: usize, end: Span) -> (r: Result<(&str, Span), Error>)
    ensures
        match r {
            Ok((name, span)) => key_at(token_views(tokens@), pos as int, end) == Ok::<
                _,
                ErrorView,
            >((name@, span)),
            Err(e) => key_at(token_views(tokens@), pos as int, end) == Err::<
                (Seq<char>, Span),
                _,
            >(e@),
        },
{
    if pos < tokens.len() {
        match &tokens[pos] {
            Token::Ident { name, span } => Ok((name.as_str(), *span)),
            other => Err(Error::Syntax(other.span())),
        }
    } else {
        Err(Error::Syntax(end))
    }
}

/// The value that starts at `pos`.
pub fn read_value(tokens: &Vec<Token>, pos: usize, end: Span) -> (r: Result<(&str, Span), Error>)
    ensures
        match r {
            Ok((value, span)) => value_at(token_views(tokens@), pos as int, end) == Ok::<
                _,
                ErrorView,
            >((value@, span)),
            Err(e) => value_at(token_views(tokens@), pos as int, end) == Err::<
                (Seq<char>, Span),
                _,
            >(e@),
        },
        r is Ok ==> pos + 2 <= tokens@.len(),
{
    if pos >= tokens.len() {
        return Err(Error::Syntax(end));
    }
    match &tokens[pos] {
        Token::Punct { ch, .. } => {
            if *ch != '=' {
                return Err(Error::Syntax(tokens[pos].span()));
            }
        },
        other => {
            return Err(Error::Syntax(other.span()));
        },
    }
    if pos + 1 >= tokens.len() {
        return Err(Error::Syntax(end));
    }
    match &tokens[pos + 1] {
        Token::Str { value, span } => Ok((value.as_str(), *span)),
        other => Err(Error::Syntax(other.span())),
    }
}

/// Where the next item starts, for an item that ends before `pos`.
pub fn read_separator(tokens: &Vec<Token>, pos: usize) -> (r: Result<usize, Error>)
    ensures
        match r {
            Ok(next) => next_item_at(token_views(tokens@), pos as int) == Ok::<int, ErrorView>(
                next as int,
            ),
            Err(e) => next_item_at(token_views(tokens@), pos as int) == Err::<int, _>(e@),
        },
        r matches Ok(next) ==> next <= tokens@.len() && (pos < tokens@.len() ==> next == pos + 1),
{
    if pos >= tokens.len() {
        return Ok(tokens.len());
    }
    match &tokens[pos] {
        Token::Punct { ch, span } => {
            if *ch == ',' {
                Ok(pos + 1)
            } else {
                Err(Error::Syntax(*span))
            }
        },
        other => Err(Error::Syntax(other.span())),
    }
}

/// What has been read of a block so far: the entries, and the findings in
/// the order in which they were made.
pub struct Progress {
    pub entries: Map<Kind, AttrView>,
    pub errors: Seq<ErrorView>,
}

/// The entries and the findings made so far, as one value.
pub open spec fn so_far(entries: Map<Kind, AttrView>, errors: Seq<ErrorView>) -> Progress {
    Progress { entries, errors }
}

/// Nothing read yet.
pub open spec fn nothing_read() -> Progress {
    Progress { entries: Map::empty(), errors: Seq::empty() }
}

/// `p` after the entry `attr` of `kind`: the entry is kept where the kind has
/// none yet. Where it has one, that one stays, and the repeat is a finding at
/// the new key which refers to the key of the entry that stays.
pub open spec fn recorded(p: Progress, kind: Kind, attr: AttrView) -> Progress {
    if p.entries.dom().contains(kind) {
        Progress {
            errors: p.errors.push(
                ErrorView::DuplicateKey { span: attr.key, previous: p.entries[kind].key },
            ),
            ..p
        }
    } else {
        Progress { entries: p.entries.insert(kind, attr), ..p }
    }
}

/// Whether `key` is followed by a value: every key is, but the one that
/// `allowed` makes a flag.
pub open spec fn takes_value(allowed: Seq<(Seq<char>, Kind)>, key: Seq<char>) -> bool {
    kind_of(allowed, key) != Some(Kind::Ignore)
}

/// `p` after the item `key`, which stands at `key_span`, with the value that
/// was read for it if it takes one.
///
/// A flag is recorded with the key's place for its value and no text. A key
/// that `allowed` does not hold is a finding that names the keys it holds. A
/// value of white space alone is a finding at the value. Any other item is
/// recorded under its kind.
pub open spec fn accepted(
    p: Progress,
    allowed: Seq<(Seq<char>, Kind)>,
    key: Seq<char>,
    key_span: Span,
    value: Option<(Seq<char>, Span)>,
) -> Progress {
    match kind_of(allowed, key) {
        Some(Kind::Ignore) => recorded(
            p,
            Kind::Ignore,
            AttrView { key: key_span, value: key_span, data: Seq::empty() },
        ),
        None => Progress {
            errors: p.errors.push(
                ErrorView::UnknownKey { span: key_span, key, supported: key_names(allowed) },
            ),
            ..p
        },
        Some(kind) => match value {
            Some((text, value_span)) => if blank(text) {
                Progress { errors: p.errors.push(ErrorView::EmptyValue(value_span)), ..p }
            } else {
                recorded(p, kind, AttrView { key: key_span, value: value_span, data: text })
            },
            None => p,
        },
    }
}

/// What the tokens from `pos` on add to `p`, where an item starts at `pos`.
///
/// Items are `key` or `key = "value"`, with a comma between two and
/// optionally one after the last. The first token that does not fit ends the
/// reading with a syntax error at that token, or at `end` where the tokens
/// stop too early.
pub open spec fn parsed_from(
    tokens: Seq<TokenView>,
    pos: int,
    allowed: Seq<(Seq<char>, Kind)>,
    p: Progress,
    end: Span,
) -> Result<Progress, ErrorView>
    decreases tokens.len() - pos,
{
    if pos < 0 || pos >= tokens.len() {
        Ok(p)
    } else {
        match key_at(tokens, pos, end) {
            Err(e) => Err(e),
            Ok((key, key_span)) => if takes_value(allowed, key) {
                match value_at(tokens, pos + 1, end) {
                    Err(e) => Err(e),
                    Ok(value) => match next_item_at(tokens, pos + 3) {
                        Err(e) => Err(e),
                        Ok(next) => parsed_from(
                            tokens,
                            next,
                            allowed,
                            accepted(p, allowed, key, key_span, Some(value)),
                            end,
                        ),
                    },
                }
            } else {
                match next_item_at(tokens, pos + 1) {
                    Err(e) => Err(e),
                    Ok(next) => parsed_from(
                        tokens,
                        next,
                        allowed,
                        accepted(p, allowed, key, key_span, None),
                        end,
                    ),
                }
            },
        }
    }
}

/// The entries of the block `tokens`, or what is wrong with it: a syntax
/// error alone, or else every finding, the last one made first.
pub open spec fn parsed_block(
    tokens: Seq<TokenView>,
    allowed: Seq<(Seq<char>, Kind)>,
    end: Span,
) -> Result<Map<Kind, AttrView>, Seq<ErrorView>> {
    match parsed_from(tokens, 0, allowed, nothing_read(), end) {
        Err(e) => Err(seq![e]),
        Ok(p) => if p.errors.len() == 0 {
            Ok(p.entries)
        } else {
            Err(p.errors.reverse())
        },
    }
}

/// The position of the first attribute named `name`, or the number of
/// attributes where none has that name.
pub open spec fn first_named(attrs: Seq<AttributeView>, name: Seq<char>) -> int
    decreases attrs.len(),
{
    if attrs.len() == 0 {
        0
    } else if attrs[0].name == name {
        0
    } else {
        1 + first_named(attrs.drop_first(), name)
    }
}

/// The metadata of a declaration or a member with the attributes `attrs`:
/// nothing where no attribute is named `anno`; else the block of the first
/// such attribute, which must be a list in parentheses.
pub open spec fn parsed_attrs(attrs: Seq<AttributeView>, allowed: Seq<(Seq<char>, Kind)>) -> Result<
    Map<Kind, AttrView>,
    Seq<ErrorView>,
> {
    let i = first_named(attrs, "anno"@);
    if i >= attrs.len() {
        Ok(Map::empty())
    } else {
        match attrs[i].meta {
            MetaView::List(tokens) => parsed_block(tokens, allowed, attrs[i].span),
            _ => Err(seq![ErrorView::Syntax(attrs[i].span)]),
        }
    }
}

/// What a parse gives, seen as plain values.
pub open spec fn outcome_view(r: Result<AttrMap, Report>) -> Result<
    Map<Kind, AttrView>,
    Seq<ErrorView>,
> {
    match r {
        Ok(map) => Ok(map@),
        Err(report) => Err(report@),
    }
}

/// Records the entry `attr` of `kind`.
fn record(entries: &mut AttrMap, errors: &mut Vec<Error>, kind: Kind, attr: Attr)
    ensures
        so_far(final(entries)@, error_views(final(errors)@)) == recorded(
            so_far(old(entries)@, error_views(old(errors)@)),
            kind,
            attr@,
        ),
{
    let earlier = match entries.get(kind) {
        Some(first) => Some(first.key),
        None => None,
    };
    match earlier {
        Some(previous) => {
            errors.push(Error::DuplicateKey { span: attr.key, previous });
            assert(error_views(errors@) =~= error_views(old(errors)@).push(
                ErrorView::DuplicateKey { span: attr.key, previous },
            ));
        },
        None => {
            entries.insert(kind, attr);
        },
    }
}

/// Takes one item into what has been read: the key `key` at `key_span`, with
/// the value that was read for it. A key that takes a value and comes without
/// one changes nothing.
pub fn accept(
    entries: &mut AttrMap,
    errors: &mut Vec<Error>,
    allowed: &[(&str, Kind)],
    key: &str,
    key_span: Span,
    value: Option<(&str, Span)>,
)
    ensures
        so_far(final(entries)@, error_views(final(errors)@)) == accepted(
            so_far(old(entries)@, error_views(old(errors)@)),
            allowed_view(allowed@),
            key@,
            key_span,
            match value {
                Some((text, span)) => Some((text@, span)),
                None => None,
            },
        ),
{
    match lookup(allowed, key) {
        Some(Kind::Ignore) => {
            record(
                entries,
                errors,
                Kind::Ignore,
                Attr { key: key_span, value: key_span, data: String::new() },
            );
        },
        None => {
            errors.push(
                Error::UnknownKey {
                    span: key_span,
                    key: key.to_owned(),
                    supported: supported_keys(allowed),
                },
            );
            assert(error_views(errors@) =~= error_views(old(errors)@).push(
                ErrorView::UnknownKey {
                    span: key_span,
                    key: key@,
                    supported: key_names(allowed_view(allowed@)),
                },
            ));
        },
        Some(kind) => {
            match value {
                Some((text, value_span)) => {
                    if is_blank(text) {
                        errors.push(Error::EmptyValue(value_span));
                        assert(error_views(errors@) =~= error_views(old(errors)@).push(
                            ErrorView::EmptyValue(value_span),
                        ));
                    } else {
                        record(
                            entries,
                            errors,
                            kind,
                            Attr { key: key_span, value: value_span, data: text.to_owned() },
                        );
                    }
                },
                None => {},
            }
        },
    }
}

/// The findings of `errors` in the opposite order.
fn reversed(errors: Vec<Error>) -> (r: Vec<Error>)
    ensures
        error_views(r@) == error_views(errors@).reverse(),
        r@.len() == errors@.len(),
{
    let ghost all = error_views(errors@);
    let mut errors = errors;
    let mut out: Vec<Error> = Vec::new();
    while errors.len() > 0
        invariant
            errors@.len() + out@.len() == all.len(),
            error_views(errors@) =~= all.take(errors@.len() as int),
            forall|j: int|
                0 <= j < out@.len() ==> (#[trigger] out@[j])@ == all[all.len() - 1 - j],
        decreases errors.len(),
    {
        let ghost n = errors@.len();
        let ghost before = error_views(errors@);
        let e = errors.pop().unwrap();
        assert(e@ == before[n - 1]);
        assert(e@ == all.take(n as int)[n - 1]);
        out.push(e);
        assert(error_views(errors@) =~= all.take(errors@.len() as int));
    }
    assert(error_views(out@) =~= all.reverse());
    out
}

/// Parses the tokens of one metadata block against the keys `allowed`. `end`
/// is the place to blame where the tokens stop too early.
pub fn parse_tokens(tokens: &Vec<Token>, allowed: &[(&str, Kind)], end: Span) -> (r: Result<
    AttrMap,
    Report,
>)
    ensures
        outcome_view(r) == parsed_block(token_views(tokens@), allowed_view(allowed@), end),
        r matches Err(report) ==> report.wf(),
{
    let ghost all = token_views(tokens@);
    let ghost keys = allowed_view(allowed@);
    let mut entries = AttrMap::new();
    let mut errors: Vec<Error> = Vec::new();
    let mut pos: usize = 0;
    assert(error_views(errors@) =~= Seq::empty());
    while pos < tokens.len()
        invariant
            pos <= tokens.len(),
            all == token_views(tokens@),
            keys == allowed_view(allowed@),
            parsed_from(all, 0, keys, nothing_read(), end) == parsed_from(
                all,
                pos as int,
                keys,
                so_far(entries@, error_views(errors@)),
                end,
            ),
        decreases tokens.len() - pos,
    {
        let (key, key_span) = match read_key(tokens, pos, end) {
            Ok(found) => found,
            Err(e) => {
                return Err(Report::single(e));
            },
        };
        let valued = match lookup(allowed, key) {
            Some(Kind::Ignore) => false,
            _ => true,
        };
        if valued {
            let value = match read_value(tokens, pos + 1, end) {
                Ok(found) => found,
                Err(e) => {
                    return Err(Report::single(e));
                },
            };
            let next = match read_separator(tokens, pos + 3) {
                Ok(next) => next,
                Err(e) => {
                    return Err(Report::single(e));
                },
            };
            accept(&mut entries, &mut errors, allowed, key, key_span, Some(value));
            pos = next;
        } else {
            let next = match read_separator(tokens, pos + 1) {
                Ok(next) => next,
                Err(e) => {
                    return Err(Report::single(e));
                },
            };
            accept(&mut entries, &mut errors, allowed, key, key_span, None);
            pos = next;
        }
    }
    if errors.len() == 0 {
        Ok(entries)
    } else {
        Err(Report { findings: reversed(errors) })
    }
}

/// Parses the metadata attached to a declaration or to a member against the
/// keys `allowed`. Without an attribute named `anno` there is no metadata,
/// which is no error.
pub fn parse_attrs(attrs: &Vec<Attribute>, allowed: &[(&str, Kind)]) -> (r: Result<AttrMap, Report>)
    ensures
        outcome_view(r) == parsed_attrs(attribute_views(attrs@), allowed_view(allowed@)),
        r matches Err(report) ==> report.wf(),
{
    match find_anno(attrs) {
        None => Ok(AttrMap::new()),
        Some(i) => match &attrs[i].meta {
            Meta::List(tokens) => parse_tokens(tokens, allowed, attrs[i].span),
            _ => Err(Report::single(Error::Syntax(attrs[i].span))),
        },
    }
}

/// The position of the first attribute named `anno`, if there is one.
pub fn find_anno(attrs: &Vec<Attribute>) -> (r: Option<usize>)
    ensures
        match r {
            Some(i) => i < attrs@.len() && i == first_named(attribute_views(attrs@), "anno"@),
            None => first_named(attribute_views(attrs@), "anno"@) >= attrs@.len(),
        },
{
    let ghost all = attribute_views(attrs@);
    let mut i: usize = 0;
    assert(all.skip(0) =~= all);
    while i < attrs.len()
        invariant
            i <= attrs.len(),
            all == attribute_views(attrs@),
            first_named(all, "anno"@) == i + first_named(all.skip(i as int), "anno"@),
        decreases attrs.len() - i,
    {
        proof {
            assert(all.skip(i as int)[0] == all[i as int]);
            assert(all.skip(i as int).drop_first() =~= all.skip(i + 1));
        }
        if same_text(attrs[i].name.as_str(), "anno") {
            return Some(i);
        }
        i = i + 1;
    }
    assert(all.skip(attrs.len() as int) =~= Seq::empty());
    None
}

} // verus!
