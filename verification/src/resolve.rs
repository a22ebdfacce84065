//! From what a user typed to one record: by position, then by exact
//! identifier, then by a part of an identifier.

use vstd::prelude::*;
use crate::matcher::{select, Matcher};
use crate::position::{parse_position, position_of, Position};
use crate::session::{views, Session, SessionView};
use crate::store::{lemma_remove_by_id, Store};
use crate::text::to_chars;

verus! {

/// The outcome of resolving an identifier.
#[derive(Debug)]
pub enum Resolution {
    /// The identifier names this record.
    Found(Session),
    /// The identifier is a position, and the listing has no such position.
    OutOfRange,
    /// The identifier is no position and names no record.
    NotFound,
}

/// A resolution's outcome over record views.
pub enum ResolutionView {
    Found(SessionView),
    OutOfRange,
    NotFound,
}

impl View for Resolution {
    type V = ResolutionView;

    open spec fn view(&self) -> ResolutionView {
        match self {
            Resolution::Found(s) => ResolutionView::Found(s@),
            Resolution::OutOfRange => ResolutionView::OutOfRange,
            Resolution::NotFound => ResolutionView::NotFound,
        }
    }
}

/// The outcome of deleting by an identifier.
#[derive(Debug)]
pub enum Deletion {
    /// The identifier was a position; the record that stood there left.
    AtPosition(Session),
    /// These records left: the one with that identifier, or else all whose
    /// identifier contains it.
    Matched(Vec<Session>),
    /// The identifier is a position, and the listing has no such position.
    OutOfRange,
    /// The identifier is no position and names no record.
    NotFound,
}

/// A deletion's outcome over record views.
pub enum DeletionView {
    AtPosition(SessionView),
    Matched(Seq<SessionView>),
    OutOfRange,
    NotFound,
}

impl View for Deletion {
    type V = DeletionView;

    open spec fn view(&self) -> DeletionView {
        match self {
            Deletion::AtPosition(s) => DeletionView::AtPosition(s@),
            Deletion::Matched(rows) => DeletionView::Matched(views(rows@)),
            Deletion::OutOfRange => DeletionView::OutOfRange,
            Deletion::NotFound => DeletionView::NotFound,
        }
    }
}

/// Which record `ident` names in the listing `rows`. A position counts from
/// 1 at the newest record and is never taken for an identifier, however far
/// beyond the listing it lies; zero is no position. An exact
/// identifier goes before one that merely contains `ident`, and of several
/// of those the newest is taken.
pub open spec fn resolved(rows: Seq<SessionView>, ident: Seq<char>) -> ResolutionView {
    let exact = rows.filter(Matcher::IdIs.pred(ident));
    let loose = rows.filter(Matcher::IdHas.pred(ident));
    match position_of(ident) {
        Some(n) => if 1 <= n <= rows.len() {
            ResolutionView::Found(rows[n - 1])
        } else {
            ResolutionView::OutOfRange
        },
        None => if exact.len() > 0 {
            ResolutionView::Found(exact[0])
        } else if loose.len() > 0 {
            ResolutionView::Found(loose[0])
        } else {
            ResolutionView::NotFound
        },
    }
}

/// What deleting by `ident` reports of the listing `rows`.
pub open spec fn deletion(rows: Seq<SessionView>, ident: Seq<char>) -> DeletionView {
    let exact = rows.filter(Matcher::IdIs.pred(ident));
    let loose = rows.filter(Matcher::IdHas.pred(ident));
    match position_of(ident) {
        Some(n) => if 1 <= n <= rows.len() {
            DeletionView::AtPosition(rows[n - 1])
        } else {
            DeletionView::OutOfRange
        },
        None => if exact.len() > 0 {
            DeletionView::Matched(exact)
        } else if loose.len() > 0 {
            DeletionView::Matched(loose)
        } else {
            DeletionView::NotFound
        },
    }
}

/// The listing that deleting by `ident` leaves of `rows`.
pub open spec fn after_deletion(rows: Seq<SessionView>, ident: Seq<char>) -> Seq<SessionView> {
    let exact = rows.filter(Matcher::IdIs.pred(ident));
    let loose = rows.filter(Matcher::IdHas.pred(ident));
    match position_of(ident) {
        Some(n) => if 1 <= n <= rows.len() {
            rows.remove(n - 1)
        } else {
            rows
        },
        None => if exact.len() > 0 {
            rows.filter(Matcher::IdIsNot.pred(ident))
        } else if loose.len() > 0 {
            rows.filter(Matcher::IdLacks.pred(ident))
        } else {
            rows
        },
    }
}

/// Resolves `identifier` against a listing that runs from newest to oldest.
pub fn resolve(rows: &Vec<Session>, identifier: &str) -> (r: Resolution)
    ensures
        r@ == resolved(views(rows@), identifier@),
{
    let count: usize = rows.len();
    match parse_position(identifier) {
        Position::At(n) => {
            if n <= count {
                Resolution::Found(rows[n - 1].clone())
            } else {
                Resolution::OutOfRange
            }
        },
        Position::Beyond => Resolution::OutOfRange,
        Position::Absent => {
            let key = to_chars(identifier);
            let exact = select(rows, Matcher::IdIs, &key);
            if exact.len() > 0 {
                Resolution::Found(exact[0].clone())
            } else {
                let loose = select(rows, Matcher::IdHas, &key);
                if loose.len() > 0 {
                    Resolution::Found(loose[0].clone())
                } else {
                    Resolution::NotFound
                }
            }
        },
    }
}

/// Deletes from `store` by `identifier`: the record at a position, else the
/// record with exactly that identifier, else every record whose identifier
/// contains it.
pub fn delete(store: &mut Store, identifier: &str) -> (d: Deletion)
    requires
        old(store).wf(),
    ensures
        final(store).wf(),
        d@ == deletion(old(store)@, identifier@),
        final(store)@ == after_deletion(old(store)@, identifier@),
{
    let count: usize = store.len();
    match parse_position(identifier) {
        Position::At(n) => {
            if n <= count {
                let target = store.rows()[n - 1].clone();
                proof {
                    lemma_remove_by_id(store@, n - 1);
                }
                store.delete_by_id(target.id.as_str());
                Deletion::AtPosition(target)
            } else {
                Deletion::OutOfRange
            }
        },
        Position::Beyond => Deletion::OutOfRange,
        Position::Absent => {
            let key = to_chars(identifier);
            let exact = select(store.rows(), Matcher::IdIs, &key);
            if exact.len() > 0 {
                store.delete_by_id(identifier);
                Deletion::Matched(exact)
            } else {
                let loose = select(store.rows(), Matcher::IdHas, &key);
                if loose.len() > 0 {
                    store.delete_by_pattern(identifier);
                    Deletion::Matched(loose)
                } else {
                    Deletion::NotFound
                }
            }
        },
    }
}

} // verus!
