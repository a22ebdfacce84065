//! The tests by which records are picked out of a listing.

use vstd::prelude::*;
use crate::session::{lemma_views_push, views, Session, SessionView};
use crate::text::{chars_contain, chars_equal, has_infix, to_chars};

verus! {

/// A test on one record against a key text.
#[derive(Clone, Copy, Debug)]
pub enum Matcher {
    /// The identifier equals the key.
    IdIs,
    /// The identifier differs from the key.
    IdIsNot,
    /// The identifier contains the key.
    IdHas,
    /// The identifier does not contain the key.
    IdLacks,
    /// The title or the identifier contains the key.
    Mentions,
}

impl Matcher {
    /// Whether record `r` passes the test for `key`.
    pub open spec fn accepts(self, key: Seq<char>, r: SessionView) -> bool {
        match self {
            Matcher::IdIs => r.id == key,
            Matcher::IdIsNot => r.id != key,
            Matcher::IdHas => has_infix(r.id, key),
            Matcher::IdLacks => !has_infix(r.id, key),
            Matcher::Mentions => has_infix(r.title, key) || has_infix(r.id, key),
        }
    }

    /// The test for `key` as a predicate on records.
    pub open spec fn pred(self, key: Seq<char>) -> spec_fn(SessionView) -> bool {
        |r: SessionView| self.accepts(key, r)
    }

    /// Whether record `s` passes the test for `key`.
    pub fn holds(self, key: &Vec<char>, s: &Session) -> (pass: bool)
        ensures
            pass == self.accepts(key@, s@),
    {
        let id = to_chars(s.id.as_str());
        match self {
            Matcher::IdIs => chars_equal(&id, key),
            Matcher::IdIsNot => !chars_equal(&id, key),
            Matcher::IdHas => chars_contain(&id, key),
            Matcher::IdLacks => !chars_contain(&id, key),
            Matcher::Mentions => {
                let title = to_chars(s.title.as_str());
                chars_contain(&title, key) || chars_contain(&id, key)
            },
        }
    }
}

/// The records of `rows` that pass the test, in their order.
pub fn select(rows: &Vec<Session>, m: Matcher, key: &Vec<char>) -> (out: Vec<Session>)
    ensures
        views(out@) == views(rows@).filter(m.pred(key@)),
{
    let mut out: Vec<Session> = Vec::new();
    let mut i: usize = 0;
    proof {
        reveal(Seq::filter);
        assert(views(rows@).take(0) =~= Seq::<SessionView>::empty());
        assert(views(out@) =~= Seq::<SessionView>::empty());
    }
    while i < rows.len()
        invariant
            i <= rows.len(),
            views(out@) == views(rows@).take(i as int).filter(m.pred(key@)),
        decreases rows.len() - i,
    {
        proof {
            let before = views(rows@).take(i as int);
            assert(views(rows@).take(i + 1) =~= before.push(rows@[i as int]@));
            before.lemma_filter_push(rows@[i as int]@, m.pred(key@));
        }
        if m.holds(key, &rows[i]) {
            let s = rows[i].clone();
            proof {
                lemma_views_push(out@, s);
            }
            out.push(s);
        }
        i += 1;
    }
    proof {
        assert(views(rows@).take(rows@.len() as int) =~= views(rows@));
    }
    out
}

/// Where every record passes, all are picked.
pub proof fn lemma_filter_all(s: Seq<SessionView>, p: spec_fn(SessionView) -> bool)
    requires
        forall|i: int| 0 <= i < s.len() ==> p(#[trigger] s[i]),
    ensures
        s.filter(p) == s,
    decreases s.len(),
{
    reveal(Seq::filter);
    if s.len() > 0 {
        lemma_filter_all(s.drop_last(), p);
        assert(s.drop_last().push(s.last()) =~= s);
    }
}

/// Each record is picked by a test or by its opposite, never by both.
pub proof fn lemma_filter_split(
    s: Seq<SessionView>,
    p: spec_fn(SessionView) -> bool,
    q: spec_fn(SessionView) -> bool,
)
    requires
        forall|r: SessionView| #[trigger] p(r) == !q(r),
    ensures
        s.filter(p).len() + s.filter(q).len() == s.len(),
    decreases s.len(),
{
    reveal(Seq::filter);
    if s.len() > 0 {
        lemma_filter_split(s.drop_last(), p, q);
        assert(p(s.last()) == !q(s.last()));
    }
}

} // verus!
