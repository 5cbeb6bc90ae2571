//! The rendered names met so far among the members of one declaration.

use crate::data::Span;
use crate::text::same_text;
use vstd::prelude::*;

verus! {

/// Where `name` was last met among `seen`, if it was.
pub open spec fn last_seen(seen: Seq<(Seq<char>, Span)>, name: Seq<char>) -> Option<Span>
    decreases seen.len(),
{
    if seen.len() == 0 {
        None
    } else if seen.last().0 == name {
        Some(seen.last().1)
    } else {
        last_seen(seen.drop_last(), name)
    }
}

/// A name has been met exactly when `last_seen` finds it.
pub proof fn lemma_last_seen(seen: Seq<(Seq<char>, Span)>, name: Seq<char>)
    ensures
        last_seen(seen, name) is Some <==> exists|i: int|
            0 <= i < seen.len() && (#[trigger] seen[i]).0 == name,
    decreases seen.len(),
{
    if seen.len() > 0 {
        let rest = seen.drop_last();
        lemma_last_seen(rest, name);
        if seen.last().0 == name {
            assert(seen[seen.len() - 1].0 == name);
        } else if last_seen(rest, name) is Some {
            let i = choose|i: int| 0 <= i < rest.len() && (#[trigger] rest[i]).0 == name;
            assert(seen[i].0 == name);
        } else {
            assert forall|i: int| 0 <= i < seen.len() implies (#[trigger] seen[i]).0 != name by {
                if i < rest.len() {
                    assert(rest[i].0 != name);
                }
            }
        }
    }
}

/// The names met so far, each with the place where it was met, in order.
pub struct Seen {
    pub entries: Vec<(String, Span)>,
}

impl View for Seen {
    type V = Seq<(Seq<char>, Span)>;

    open spec fn view(&self) -> Seq<(Seq<char>, Span)> {
        Seq::new(self.entries@.len(), |i: int| (self.entries@[i].0@, self.entries@[i].1))
    }
}

impl Seen {
    /// No name met yet.
    pub fn new() -> (r: Seen)
        ensures
            r@ == Seq::<(Seq<char>, Span)>::empty(),
    {
        let r = Seen { entries: Vec::new() };
        assert(r@ =~= Seq::<(Seq<char>, Span)>::empty());
        r
    }

    /// Notes that `name` is met at `span`, and says where it was last met
    /// before, if it was.
    pub fn note(&mut self, name: &str, span: Span) -> (r: Option<Span>)
        ensures
            final(self)@ == old(self)@.push((name@, span)),
            r == last_seen(old(self)@, name@),
    {
        let ghost all = self@;
        let mut found: Option<Span> = None;
        let mut i: usize = self.entries.len();
        assert(all.take(i as int) =~= all);
        while i > 0
            invariant_except_break
                found is None,
            invariant
                i <= self.entries@.len(),
                all == self@,
                self == old(self),
                last_seen(all, name@) == last_seen(all.take(i as int), name@),
            ensures
                found == last_seen(all, name@),
                self == old(self),
            decreases i,
        {
            proof {
                assert(all.take(i as int).drop_last() =~= all.take(i - 1));
                assert(all.take(i as int).last() == all[i - 1]);
            }
            if same_text(self.entries[i - 1].0.as_str(), name) {
                found = Some(self.entries[i - 1].1);
                break ;
            }
            i = i - 1;
        }
        self.entries.push((name.to_owned(), span));
        assert(self@ =~= old(self)@.push((name@, span)));
        found
    }
}

} // verus!
