//! The store: session records with distinct identifiers, newest first.

use vstd::prelude::*;
use crate::clock::local_timestamp;
use crate::matcher::{lemma_filter_all, lemma_filter_split, select, Matcher};
use crate::session::{copy_rows, views, Session, SessionView};
use crate::text::{
    chars_equal, chars_ordered, lemma_ordered_total, lemma_ordered_transitive, ordered, to_chars,
};

verus! {

/// Records `i` and `j` may stand in this order in a listing: their
/// identifiers differ and the later one is not the newer.
pub open spec fn in_order(s: Seq<SessionView>, i: int, j: int) -> bool {
    s[i].id != s[j].id && ordered(s[j].created_at, s[i].created_at)
}

/// No identifier occurs twice, and the records run from newest to oldest.
pub open spec fn well_formed(s: Seq<SessionView>) -> bool {
    forall|i: int, j: int| 0 <= i < j < s.len() ==> #[trigger] in_order(s, i, j)
}

/// The first offset from `i` on whose record is older than `ts`.
pub open spec fn slot_from(s: Seq<SessionView>, ts: Seq<char>, i: int) -> int
    decreases s.len() - i,
{
    if i < 0 || i >= s.len() || !ordered(ts, s[i].created_at) {
        i
    } else {
        slot_from(s, ts, i + 1)
    }
}

/// Where a record written at `ts` goes: behind every record that is at least
/// as new.
pub open spec fn slot(s: Seq<SessionView>, ts: Seq<char>) -> int {
    slot_from(s, ts, 0)
}

/// The listing after `rec` was saved: any record with its identifier is
/// gone, and `rec` stands at its slot.
pub open spec fn upserted(s: Seq<SessionView>, rec: SessionView) -> Seq<SessionView> {
    let rest = s.filter(Matcher::IdIsNot.pred(rec.id));
    rest.insert(slot(rest, rec.created_at), rec)
}

/// Picking records out of a well-formed listing leaves it well formed.
pub proof fn lemma_filter_well_formed(s: Seq<SessionView>, p: spec_fn(SessionView) -> bool)
    requires
        well_formed(s),
    ensures
        well_formed(s.filter(p)),
    decreases s.len(),
{
    reveal(Seq::filter);
    if s.len() > 0 {
        let front = s.drop_last();
        assert forall|i: int, j: int| 0 <= i < j < front.len() implies #[trigger] in_order(
            front,
            i,
            j,
        ) by {
            assert(in_order(s, i, j));
        }
        lemma_filter_well_formed(front, p);
        let f = front.filter(p);
        if p(s.last()) {
            let out = f.push(s.last());
            assert forall|i: int, j: int| 0 <= i < j < out.len() implies #[trigger] in_order(
                out,
                i,
                j,
            ) by {
                if j == f.len() {
                    assert(f.contains(f[i]));
                    front.lemma_filter_contains_rev(p, f[i]);
                    let m = choose|m: int| 0 <= m < front.len() && front[m] == f[i];
                    assert(in_order(s, m, s.len() - 1));
                } else {
                    assert(in_order(f, i, j));
                }
            }
        }
    }
}

/// The slot lies behind the records that are at least as new as `ts` and
/// before one that is older.
pub proof fn lemma_slot(s: Seq<SessionView>, ts: Seq<char>, i: int)
    requires
        0 <= i <= s.len(),
    ensures
        i <= slot_from(s, ts, i) <= s.len(),
        forall|j: int| i <= j < slot_from(s, ts, i) ==> ordered(ts, #[trigger] s[j].created_at),
        slot_from(s, ts, i) < s.len() ==> !ordered(ts, s[slot_from(s, ts, i)].created_at),
    decreases s.len() - i,
{
    if i < s.len() && ordered(ts, s[i].created_at) {
        lemma_slot(s, ts, i + 1);
    }
}

/// Saving into a well-formed listing leaves it well formed, with the saved
/// record at its slot.
pub proof fn lemma_upserted(s: Seq<SessionView>, rec: SessionView)
    requires
        well_formed(s),
    ensures
        well_formed(upserted(s, rec)),
        0 <= slot(s.filter(Matcher::IdIsNot.pred(rec.id)), rec.created_at) < upserted(s, rec).len(),
        upserted(s, rec)[slot(s.filter(Matcher::IdIsNot.pred(rec.id)), rec.created_at)] == rec,
{
    let p = Matcher::IdIsNot.pred(rec.id);
    let rest = s.filter(p);
    let ts = rec.created_at;
    let k = slot(rest, ts);
    let out = upserted(s, rec);
    lemma_filter_well_formed(s, p);
    lemma_slot(rest, ts, 0);
    assert forall|i: int| 0 <= i < rest.len() implies (#[trigger] rest[i]).id != rec.id by {
        s.lemma_filter_pred(p, i);
    }
    assert forall|i: int, j: int| 0 <= i < j < out.len() implies #[trigger] in_order(out, i, j) by {
        if j < k {
            assert(in_order(rest, i, j));
        } else if j == k {
            assert(out[i] == rest[i]);
        } else if i < k {
            assert(in_order(rest, i, j - 1));
        } else if i == k {
            assert(out[j] == rest[j - 1]);
            lemma_ordered_total(ts, rest[k].created_at, 0);
            if j - 1 > k {
                assert(in_order(rest, k, j - 1));
                lemma_ordered_transitive(rest[j - 1].created_at, rest[k].created_at, ts, 0);
            }
        } else {
            assert(in_order(rest, i - 1, j - 1));
        }
    }
}

/// Leaving out the records that share an identifier with the record at
/// offset `k` of a well-formed listing takes away that record alone.
pub proof fn lemma_remove_by_id(s: Seq<SessionView>, k: int)
    requires
        well_formed(s),
        0 <= k < s.len(),
    ensures
        s.filter(Matcher::IdIsNot.pred(s[k].id)) == s.remove(k),
    decreases s.len(),
{
    let p = Matcher::IdIsNot.pred(s[k].id);
    let front = s.drop_last();
    reveal(Seq::filter);
    if k == s.len() - 1 {
        assert forall|i: int| 0 <= i < front.len() implies p(#[trigger] front[i]) by {
            assert(in_order(s, i, k));
        }
        lemma_filter_all(front, p);
        assert(s.remove(k) =~= front);
    } else {
        assert forall|i: int, j: int| 0 <= i < j < front.len() implies #[trigger] in_order(
            front,
            i,
            j,
        ) by {
            assert(in_order(s, i, j));
        }
        lemma_remove_by_id(front, k);
        assert(in_order(s, k, s.len() - 1));
        assert(front.remove(k).push(s.last()) =~= s.remove(k));
    }
}

/// In a well-formed listing at most one record has a given identifier.
pub proof fn lemma_one_per_id(s: Seq<SessionView>, id: Seq<char>)
    requires
        well_formed(s),
    ensures
        s.filter(Matcher::IdIs.pred(id)).len() <= 1,
        s.filter(Matcher::IdIs.pred(id)).len() == 1 <==> exists|i: int|
            0 <= i < s.len() && (#[trigger] s[i]).id == id,
    decreases s.len(),
{
    let p = Matcher::IdIs.pred(id);
    reveal(Seq::filter);
    if s.len() > 0 {
        let front = s.drop_last();
        assert forall|i: int, j: int| 0 <= i < j < front.len() implies #[trigger] in_order(
            front,
            i,
            j,
        ) by {
            assert(in_order(s, i, j));
        }
        lemma_one_per_id(front, id);
        if p(s.last()) {
            if front.filter(p).len() == 1 {
                let m = choose|m: int| 0 <= m < front.len() && (#[trigger] front[m]).id == id;
                assert(in_order(s, m, s.len() - 1));
            }
            assert(s[s.len() - 1].id == id);
        } else {
            if exists|i: int| 0 <= i < s.len() && (#[trigger] s[i]).id == id {
                let m = choose|m: int| 0 <= m < s.len() && (#[trigger] s[m]).id == id;
                assert(front[m].id == id);
            }
            if front.filter(p).len() == 1 {
                let m = choose|m: int| 0 <= m < front.len() && (#[trigger] front[m]).id == id;
                assert(s[m].id == id);
            }
        }
    }
}

/// Whether the records have distinct identifiers and run from newest to
/// oldest.
pub fn rows_well_formed(rows: &Vec<Session>) -> (ok: bool)
    ensures
        ok == well_formed(views(rows@)),
{
    let mut j: usize = 0;
    while j < rows.len()
        invariant
            j <= rows.len(),
            forall|a: int, b: int| 0 <= a < b < j ==> #[trigger] in_order(views(rows@), a, b),
        decreases rows.len() - j,
    {
        let id_j = to_chars(rows[j].id.as_str());
        let ts_j = to_chars(rows[j].created_at.as_str());
        let mut i: usize = 0;
        while i < j
            invariant
                i <= j < rows.len(),
                id_j@ == views(rows@)[j as int].id,
                ts_j@ == views(rows@)[j as int].created_at,
                forall|a: int| 0 <= a < i ==> #[trigger] in_order(views(rows@), a, j as int),
            decreases j - i,
        {
            let id_i = to_chars(rows[i].id.as_str());
            let ts_i = to_chars(rows[i].created_at.as_str());
            if chars_equal(&id_i, &id_j) || !chars_ordered(&ts_j, &ts_i) {
                proof {
                    assert(!in_order(views(rows@), i as int, j as int));
                }
                return false;
            }
            i += 1;
        }
        j += 1;
    }
    true
}

/// The offset at which a record written at `ts` goes into `rows`.
fn find_slot(rows: &Vec<Session>, ts: &Vec<char>) -> (k: usize)
    ensures
        k == slot(views(rows@), ts@),
        k <= rows.len(),
{
    let mut k: usize = 0;
    while k < rows.len()
        invariant
            k <= rows.len(),
            slot(views(rows@), ts@) == slot_from(views(rows@), ts@, k as int),
        decreases rows.len() - k,
    {
        let other = to_chars(rows[k].created_at.as_str());
        if !chars_ordered(ts, &other) {
            return k;
        }
        k += 1;
    }
    k
}

/// The session records, held with distinct identifiers and newest first.
pub struct Store {
    rows: Vec<Session>,
}

impl View for Store {
    type V = Seq<SessionView>;

    closed spec fn view(&self) -> Seq<SessionView> {
        views(self.rows@)
    }
}

impl Store {
    /// The store's invariant: distinct identifiers, newest first.
    pub open spec fn wf(&self) -> bool {
        well_formed(self@)
    }

    /// A store without records.
    pub fn new() -> (s: Store)
        ensures
            s.wf(),
            s@ == Seq::<SessionView>::empty(),
    {
        let s = Store { rows: Vec::new() };
        proof {
            assert(s@ =~= Seq::<SessionView>::empty());
        }
        s
    }

    /// A store of the given records, if they have distinct identifiers and
    /// run from newest to oldest.
    pub fn from_rows(rows: Vec<Session>) -> (r: Option<Store>)
        ensures
            r.is_some() == well_formed(views(rows@)),
            r matches Some(s) ==> s.wf() && s@ == views(rows@),
    {
        if rows_well_formed(&rows) {
            Some(Store { rows })
        } else {
            None
        }
    }

    /// The number of records.
    pub fn len(&self) -> (n: usize)
        ensures
            n == self@.len(),
    {
        self.rows.len()
    }

    /// The records as they are held, newest first.
    pub fn rows(&self) -> (rows: &Vec<Session>)
        ensures
            views(rows@) == self@,
    {
        &self.rows
    }

    /// Every record, newest first.
    pub fn all(&self) -> (out: Vec<Session>)
        ensures
            views(out@) == self@,
    {
        let out = copy_rows(&self.rows, self.rows.len());
        proof {
            assert(self@.take(self@.len() as int) =~= self@);
        }
        out
    }

    /// The `limit` newest records, newest first; all of them where there are
    /// fewer.
    pub fn list(&self, limit: usize) -> (out: Vec<Session>)
        requires
            self.wf(),
        ensures
            views(out@) == self@.take(if limit <= self@.len() { limit as int } else { self@.len() as int }),
            out@.len() <= limit,
            well_formed(views(out@)),
    {
        let count: usize = if limit <= self.rows.len() {
            limit
        } else {
            self.rows.len()
        };
        let out = copy_rows(&self.rows, count);
        proof {
            let v = views(out@);
            assert(v.len() == out@.len());
            assert forall|i: int, j: int| 0 <= i < j < v.len() implies #[trigger] in_order(v, i, j) by {
                assert(in_order(self@, i, j));
            }
        }
        out
    }

    /// The records whose title or identifier contains `query`, newest first.
    pub fn search(&self, query: &str) -> (out: Vec<Session>)
        requires
            self.wf(),
        ensures
            views(out@) == self@.filter(Matcher::Mentions.pred(query@)),
            well_formed(views(out@)),
    {
        let key = to_chars(query);
        proof {
            lemma_filter_well_formed(self@, Matcher::Mentions.pred(query@));
        }
        select(&self.rows, Matcher::Mentions, &key)
    }

    /// The record with identifier `id`, if there is one.
    pub fn find_by_id(&self, id: &str) -> (out: Option<Session>)
        ensures
            out.is_some() == (self@.filter(Matcher::IdIs.pred(id@)).len() > 0),
            out matches Some(s) ==> s@ == self@.filter(Matcher::IdIs.pred(id@))[0],
    {
        let key = to_chars(id);
        let hits = select(&self.rows, Matcher::IdIs, &key);
        if hits.len() > 0 {
            Some(hits[0].clone())
        } else {
            None
        }
    }

    /// The records whose identifier contains `pattern`, newest first.
    pub fn find_by_pattern(&self, pattern: &str) -> (out: Vec<Session>)
        ensures
            views(out@) == self@.filter(Matcher::IdHas.pred(pattern@)),
    {
        let key = to_chars(pattern);
        select(&self.rows, Matcher::IdHas, &key)
    }

    /// Saves a record: one with the same identifier is replaced, and the new
    /// record takes the place that its time of writing gives it.
    pub fn upsert(&mut self, id: &str, title: &str, pwd: &str, now: &str)
        requires
            old(self).wf(),
        ensures
            final(self).wf(),
            final(self)@ == upserted(
                old(self)@,
                (SessionView { id: id@, title: title@, pwd: pwd@, created_at: now@ }),
            ),
    {
        let key = to_chars(id);
        let ts = to_chars(now);
        let mut rest = select(&self.rows, Matcher::IdIsNot, &key);
        let k = find_slot(&rest, &ts);
        let rec = Session::new(id, title, pwd, now);
        proof {
            lemma_upserted(old(self)@, rec@);
            assert(views(rest@.insert(k as int, rec)) =~= views(rest@).insert(k as int, rec@));
        }
        rest.insert(k, rec);
        self.rows = rest;
    }

    /// Saves a record at the present moment, and returns the time that it
    /// was given.
    pub fn save(&mut self, id: &str, title: &str, pwd: &str) -> (now: String)
        requires
            old(self).wf(),
        ensures
            final(self).wf(),
            final(self)@ == upserted(
                old(self)@,
                (SessionView { id: id@, title: title@, pwd: pwd@, created_at: now@ }),
            ),
    {
        let now = local_timestamp();
        self.upsert(id, title, pwd, now.as_str());
        now
    }

    /// Removes the record with identifier `id` and no other; returns how many
    /// records left, 0 or 1.
    pub fn delete_by_id(&mut self, id: &str) -> (n: usize)
        requires
            old(self).wf(),
        ensures
            final(self).wf(),
            final(self)@ == old(self)@.filter(Matcher::IdIsNot.pred(id@)),
            n == old(self)@.filter(Matcher::IdIs.pred(id@)).len(),
            n == old(self)@.len() - final(self)@.len(),
            n <= 1,
            n == 1 <==> exists|i: int| 0 <= i < old(self)@.len() && (#[trigger] old(self)@[i]).id == id@,
    {
        let key = to_chars(id);
        let gone = select(&self.rows, Matcher::IdIs, &key);
        let rest = select(&self.rows, Matcher::IdIsNot, &key);
        proof {
            lemma_filter_well_formed(self@, Matcher::IdIsNot.pred(id@));
            lemma_filter_split(self@, Matcher::IdIs.pred(id@), Matcher::IdIsNot.pred(id@));
            lemma_one_per_id(self@, id@);
        }
        self.rows = rest;
        gone.len()
    }

    /// Removes every record whose identifier contains `pattern`; returns how
    /// many left.
    pub fn delete_by_pattern(&mut self, pattern: &str) -> (n: usize)
        requires
            old(self).wf(),
        ensures
            final(self).wf(),
            final(self)@ == old(self)@.filter(Matcher::IdLacks.pred(pattern@)),
            n == old(self)@.filter(Matcher::IdHas.pred(pattern@)).len(),
            n == old(self)@.len() - final(self)@.len(),
    {
        let key = to_chars(pattern);
        let gone = select(&self.rows, Matcher::IdHas, &key);
        let rest = select(&self.rows, Matcher::IdLacks, &key);
        proof {
            lemma_filter_well_formed(self@, Matcher::IdLacks.pred(pattern@));
            lemma_filter_split(self@, Matcher::IdHas.pred(pattern@), Matcher::IdLacks.pred(pattern@));
        }
        self.rows = rest;
        gone.len()
    }
}

} // verus!
