//! What holds of the store and of the resolver on every input.

use vstd::prelude::*;
use crate::matcher::{lemma_filter_all, Matcher};
use crate::position::{
    all_digits, decimal, decimal_digits, is_digit, lemma_decimal_digits, position_of,
    unsigned_part,
};
use crate::resolve::{after_deletion, deletion, resolved, DeletionView, ResolutionView};
use crate::session::SessionView;
use crate::store::{
    in_order, lemma_one_per_id, lemma_slot, lemma_upserted, slot, upserted, well_formed,
};
use crate::text::{has_infix, lemma_has_infix_self, ordered};

verus! {

/// Saving under one identifier twice leaves exactly one record with that
/// identifier, and it is the second one, with the second time of writing.
pub proof fn law_save_twice(
    s: Seq<SessionView>,
    id: Seq<char>,
    title: Seq<char>,
    pwd: Seq<char>,
    first: Seq<char>,
    second: Seq<char>,
)
    requires
        well_formed(s),
    ensures
        ({
            let one = SessionView { id: id, title: title, pwd: pwd, created_at: first };
            let two = SessionView { id: id, title: title, pwd: pwd, created_at: second };
            let after = upserted(upserted(s, one), two);
            well_formed(after) && after.filter(Matcher::IdIs.pred(id)) == seq![two]
        }),
{
    let one = SessionView { id: id, title: title, pwd: pwd, created_at: first };
    let two = SessionView { id: id, title: title, pwd: pwd, created_at: second };
    let mid = upserted(s, one);
    let after = upserted(mid, two);
    lemma_upserted(s, one);
    lemma_upserted(mid, two);
    let k = slot(mid.filter(Matcher::IdIsNot.pred(id)), second);
    assert(after[k] == two);
    lemma_one_per_id(after, id);
    let hits = after.filter(Matcher::IdIs.pred(id));
    assert(hits.len() == 1);
    after.lemma_filter_pred(Matcher::IdIs.pred(id), 0);
    assert(hits.contains(hits[0]));
    after.lemma_filter_contains_rev(Matcher::IdIs.pred(id), hits[0]);
    let m = choose|m: int| 0 <= m < after.len() && after[m] == hits[0];
    if m < k {
        assert(in_order(after, m, k));
    } else if k < m {
        assert(in_order(after, k, m));
    }
    assert(hits =~= seq![two]);
}

/// A saved record is among the records on which the save leaves the store.
pub proof fn law_saved_is_held(s: Seq<SessionView>, rec: SessionView)
    requires
        well_formed(s),
    ensures
        upserted(s, rec).contains(rec),
{
    lemma_upserted(s, rec);
    let k = slot(s.filter(Matcher::IdIsNot.pred(rec.id)), rec.created_at);
    assert(upserted(s, rec)[k] == rec);
}

/// A search for any part of a held record's identifier includes that record.
pub proof fn law_search_includes(s: Seq<SessionView>, i: int, query: Seq<char>)
    requires
        0 <= i < s.len(),
        has_infix(s[i].id, query),
    ensures
        s.filter(Matcher::Mentions.pred(query)).contains(s[i]),
{
    s.lemma_filter_contains(Matcher::Mentions.pred(query), i);
}

/// After a save, a search for any part of the saved identifier includes the
/// saved record.
pub proof fn law_search_finds_saved(s: Seq<SessionView>, rec: SessionView, query: Seq<char>)
    requires
        well_formed(s),
        has_infix(rec.id, query),
    ensures
        upserted(s, rec).filter(Matcher::Mentions.pred(query)).contains(rec),
{
    lemma_upserted(s, rec);
    let k = slot(s.filter(Matcher::IdIsNot.pred(rec.id)), rec.created_at);
    law_search_includes(upserted(s, rec), k, query);
}

/// A listing of at most `limit` records has no more than `limit` records,
/// and none of them is newer than one before it.
pub proof fn law_list_bounded_newest_first(s: Seq<SessionView>, limit: nat)
    requires
        well_formed(s),
    ensures
        ({
            let out = s.take(if limit <= s.len() { limit as int } else { s.len() as int });
            &&& out.len() <= limit
            &&& forall|i: int, j: int|
                0 <= i < j < out.len() ==> ordered(
                    #[trigger] out[j].created_at,
                    #[trigger] out[i].created_at,
                )
        }),
{
    let out = s.take(if limit <= s.len() { limit as int } else { s.len() as int });
    assert forall|i: int, j: int| 0 <= i < j < out.len() implies ordered(
        #[trigger] out[j].created_at,
        #[trigger] out[i].created_at,
    ) by {
        assert(in_order(s, i, j));
    }
}

/// An identifier that writes a position within the listing resolves to the
/// record at that position, whatever the identifiers of the records are.
pub proof fn law_position_wins(rows: Seq<SessionView>, ident: Seq<char>, n: nat)
    requires
        position_of(ident) == Some(n),
        n <= rows.len(),
    ensures
        resolved(rows, ident) == ResolutionView::Found(rows[n - 1]),
{
}

/// An identifier that writes a position outside the listing, however
/// large, resolves to "out of range", never to "not found" and never to a
/// record; deleting by it reports the same and changes nothing.
pub proof fn law_position_out_of_range(rows: Seq<SessionView>, ident: Seq<char>, n: nat)
    requires
        position_of(ident) == Some(n),
        n > rows.len(),
    ensures
        resolved(rows, ident) == ResolutionView::OutOfRange,
        deletion(rows, ident) == DeletionView::OutOfRange,
        after_deletion(rows, ident) == rows,
{
}

/// A position is at least 1: digits that write zero are no position, and
/// neither is a text that is not an optional plus sign before digits.
pub proof fn law_position_is_positive(ident: Seq<char>)
    ensures
        position_of(ident) matches Some(n) ==> n >= 1,
        position_of(ident) is Some <==> {
            &&& unsigned_part(ident).len() > 0
            &&& all_digits(unsigned_part(ident))
            &&& decimal(unsigned_part(ident)) != 0
        },
{
}

/// An identifier that writes no position resolves by the identifiers alone:
/// to the record with exactly that identifier where there is one, else to a
/// record whose identifier contains it, and to "not found" exactly where no
/// identifier contains it. It is never "out of range".
pub proof fn law_identifier_resolves(rows: Seq<SessionView>, ident: Seq<char>)
    requires
        position_of(ident) is None,
    ensures
        !(resolved(rows, ident) is OutOfRange),
        resolved(rows, ident) is NotFound <==> forall|i: int|
            0 <= i < rows.len() ==> !has_infix((#[trigger] rows[i]).id, ident),
        resolved(rows, ident) matches ResolutionView::Found(r) ==> {
            &&& rows.contains(r)
            &&& has_infix(r.id, ident)
            &&& (exists|i: int| 0 <= i < rows.len() && (#[trigger] rows[i]).id == ident) ==> r.id
                == ident
        },
{
    let is = Matcher::IdIs.pred(ident);
    let has = Matcher::IdHas.pred(ident);
    let exact = rows.filter(is);
    let loose = rows.filter(has);
    lemma_has_infix_self(ident);
    if exact.len() > 0 {
        rows.lemma_filter_pred(is, 0);
        assert(exact.contains(exact[0]));
        rows.lemma_filter_contains_rev(is, exact[0]);
        let m = choose|m: int| 0 <= m < rows.len() && rows[m] == exact[0];
        assert(has_infix(rows[m].id, ident));
    } else {
        assert forall|i: int| 0 <= i < rows.len() implies (#[trigger] rows[i]).id != ident by {
            if rows[i].id == ident {
                rows.lemma_filter_contains(is, i);
            }
        }
        if loose.len() > 0 {
            rows.lemma_filter_pred(has, 0);
            assert(loose.contains(loose[0]));
            rows.lemma_filter_contains_rev(has, loose[0]);
            let m = choose|m: int| 0 <= m < rows.len() && rows[m] == loose[0];
            assert(has_infix(rows[m].id, ident));
        } else {
            assert forall|i: int| 0 <= i < rows.len() implies !has_infix(
                (#[trigger] rows[i]).id,
                ident,
            ) by {
                if has_infix(rows[i].id, ident) {
                    rows.lemma_filter_contains(has, i);
                }
            }
        }
    }
}

/// Deleting by an identifier that writes no position goes by the
/// identifiers alone: where a record has exactly that identifier, the
/// records with it leave and no other; else every record whose identifier
/// contains it leaves; and "not found" is reported exactly where no
/// identifier contains it.
pub proof fn law_identifier_deletes(rows: Seq<SessionView>, ident: Seq<char>)
    requires
        position_of(ident) is None,
    ensures
        !(deletion(rows, ident) is OutOfRange),
        (exists|i: int| 0 <= i < rows.len() && (#[trigger] rows[i]).id == ident) ==> {
            &&& deletion(rows, ident) == DeletionView::Matched(rows.filter(Matcher::IdIs.pred(ident)))
            &&& after_deletion(rows, ident) == rows.filter(Matcher::IdIsNot.pred(ident))
        },
        !(exists|i: int| 0 <= i < rows.len() && (#[trigger] rows[i]).id == ident) ==> {
            &&& after_deletion(rows, ident) == rows.filter(Matcher::IdLacks.pred(ident))
            &&& deletion(rows, ident) is Matched ==> deletion(rows, ident) == DeletionView::Matched(
                rows.filter(Matcher::IdHas.pred(ident)),
            )
        },
        deletion(rows, ident) is NotFound <==> forall|i: int|
            0 <= i < rows.len() ==> !has_infix((#[trigger] rows[i]).id, ident),
{
    let is = Matcher::IdIs.pred(ident);
    let has = Matcher::IdHas.pred(ident);
    let exact = rows.filter(is);
    let loose = rows.filter(has);
    law_identifier_resolves(rows, ident);
    if exact.len() > 0 {
        rows.lemma_filter_pred(is, 0);
        assert(exact.contains(exact[0]));
        rows.lemma_filter_contains_rev(is, exact[0]);
        let m = choose|m: int| 0 <= m < rows.len() && rows[m] == exact[0];
        assert(rows[m].id == ident);
    } else {
        assert forall|i: int| 0 <= i < rows.len() implies (#[trigger] rows[i]).id != ident by {
            if rows[i].id == ident {
                rows.lemma_filter_contains(is, i);
            }
        }
        if loose.len() == 0 {
            assert forall|i: int| 0 <= i < rows.len() implies Matcher::IdLacks.pred(ident)(
                #[trigger] rows[i],
            ) by {
                if has_infix(rows[i].id, ident) {
                    rows.lemma_filter_contains(has, i);
                }
            }
            lemma_filter_all(rows, Matcher::IdLacks.pred(ident));
        }
    }
}

/// Deleting by exact identifier keeps every record with another identifier
/// and none with that one, whether or not one identifier is part of another.
pub proof fn law_delete_exact(s: Seq<SessionView>, id: Seq<char>, r: SessionView)
    ensures
        s.filter(Matcher::IdIsNot.pred(id)).contains(r) <==> (s.contains(r) && r.id != id),
{
    let p = Matcher::IdIsNot.pred(id);
    let kept = s.filter(p);
    if kept.contains(r) {
        s.lemma_filter_contains_rev(p, r);
        let m = choose|m: int| 0 <= m < kept.len() && kept[m] == r;
        s.lemma_filter_pred(p, m);
    }
    if s.contains(r) && r.id != id {
        let m = choose|m: int| 0 <= m < s.len() && s[m] == r;
        s.lemma_filter_contains(p, m);
    }
}

/// Deleting an identifier that no record has leaves the listing as it was.
pub proof fn law_delete_absent(s: Seq<SessionView>, id: Seq<char>)
    requires
        forall|i: int| 0 <= i < s.len() ==> (#[trigger] s[i]).id != id,
    ensures
        s.filter(Matcher::IdIsNot.pred(id)) == s,
{
    lemma_filter_all(s, Matcher::IdIsNot.pred(id));
}

/// Deleting goes by the same precedence as resolving: it reports "out of
/// range" or "not found" exactly where resolving does, and then changes
/// nothing; and where the identifier writes a position within the listing,
/// the record that resolving finds is the one record that leaves.
pub proof fn law_delete_follows_resolve(rows: Seq<SessionView>, ident: Seq<char>)
    ensures
        resolved(rows, ident) is OutOfRange <==> deletion(rows, ident) is OutOfRange,
        resolved(rows, ident) is NotFound <==> deletion(rows, ident) is NotFound,
        !(resolved(rows, ident) is Found) ==> after_deletion(rows, ident) == rows,
        forall|n: nat|
            position_of(ident) == Some(n) && n <= rows.len() ==> {
                &&& resolved(rows, ident) == ResolutionView::Found(rows[n - 1])
                &&& deletion(rows, ident) == DeletionView::AtPosition(rows[n - 1])
                &&& after_deletion(rows, ident) == rows.remove(n - 1)
            },
{
}

/// A save neither drops nor adds a record with another identifier.
pub proof fn law_save_keeps_others(s: Seq<SessionView>, rec: SessionView, r: SessionView)
    requires
        r.id != rec.id,
    ensures
        upserted(s, rec).contains(r) <==> s.contains(r),
{
    let rest = s.filter(Matcher::IdIsNot.pred(rec.id));
    let k = slot(rest, rec.created_at);
    let out = upserted(s, rec);
    lemma_slot(rest, rec.created_at, 0);
    law_delete_exact(s, rec.id, r);
    if out.contains(r) {
        let m = choose|m: int| 0 <= m < out.len() && out[m] == r;
        if m < k {
            assert(rest[m] == r);
        } else {
            assert(rest[m - 1] == r);
        }
    }
    if rest.contains(r) {
        let m = choose|m: int| 0 <= m < rest.len() && rest[m] == r;
        if m < k {
            assert(out[m] == r);
        } else {
            assert(out[m + 1] == r);
        }
    }
}

/// The number under which a listing shows a record resolves to that
/// record.
pub proof fn law_listed_number_resolves(rows: Seq<SessionView>, k: int)
    requires
        0 <= k < rows.len(),
    ensures
        resolved(rows, decimal_digits((k + 1) as nat)) == ResolutionView::Found(rows[k]),
{
    let ds = decimal_digits((k + 1) as nat);
    lemma_decimal_digits((k + 1) as nat);
    assert(is_digit(ds[0]));
    assert(unsigned_part(ds) == ds);
    assert(position_of(ds) == Some((k + 1) as nat));
}

} // verus!
