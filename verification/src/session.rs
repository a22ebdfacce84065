//! The session record and its mathematical view.

use vstd::prelude::*;

verus! {

/// A saved session: an opaque identifier, a title, the working directory at
/// save time and the time of the write.
#[derive(Debug)]
pub struct Session {
    pub id: String,
    pub title: String,
    pub pwd: String,
    pub created_at: String,
}

/// What a session record is to the contracts: four texts.
pub struct SessionView {
    pub id: Seq<char>,
    pub title: Seq<char>,
    pub pwd: Seq<char>,
    pub created_at: Seq<char>,
}

impl View for Session {
    type V = SessionView;

    open spec fn view(&self) -> SessionView {
        SessionView {
            id: self.id@,
            title: self.title@,
            pwd: self.pwd@,
            created_at: self.created_at@,
        }
    }
}

impl Clone for Session {
    fn clone(&self) -> (copy: Session)
        ensures
            copy@ == self@,
    {
        Session {
            id: self.id.clone(),
            title: self.title.clone(),
            pwd: self.pwd.clone(),
            created_at: self.created_at.clone(),
        }
    }
}

impl Session {
    /// A record with the four given texts.
    pub fn new(id: &str, title: &str, pwd: &str, created_at: &str) -> (s: Session)
        ensures
            s@ == (SessionView { id: id@, title: title@, pwd: pwd@, created_at: created_at@ }),
    {
        Session {
            id: id.to_owned(),
            title: title.to_owned(),
            pwd: pwd.to_owned(),
            created_at: created_at.to_owned(),
        }
    }
}

/// The views of a run of records, in the same order.
pub open spec fn views(rows: Seq<Session>) -> Seq<SessionView> {
    rows.map_values(|s: Session| s@)
}

/// Appending a record appends its view.
pub proof fn lemma_views_push(rows: Seq<Session>, s: Session)
    ensures
        views(rows.push(s)) == views(rows).push(s@),
{
    assert(views(rows.push(s)) =~= views(rows).push(s@));
}

/// A copy of a run of records.
pub fn copy_rows(rows: &Vec<Session>, count: usize) -> (out: Vec<Session>)
    requires
        count <= rows.len(),
    ensures
        views(out@) == views(rows@).take(count as int),
{
    let mut out: Vec<Session> = Vec::new();
    let mut i: usize = 0;
    proof {
        assert(views(out@) =~= views(rows@).take(0));
    }
    while i < count
        invariant
            i <= count <= rows.len(),
            views(out@) == views(rows@).take(i as int),
        decreases count - i,
    {
        let s = rows[i].clone();
        proof {
            lemma_views_push(out@, s);
            assert(views(rows@).take(i + 1) =~= views(rows@).take(i as int).push(rows@[i as int]@));
        }
        out.push(s);
        i += 1;
    }
    out
}

} // verus!
