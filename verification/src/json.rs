//! The listing as JSON text: strings are quoted by `serde_json`, and the
//! objects and the array around them are put together here.

use vstd::prelude::*;
use vstd::string::*;
use crate::session::{views, Session, SessionView};

verus! {

/// The error of `serde_json`, carried through and never looked into.
#[verifier::external_type_specification]
#[verifier::external_body]
pub struct ExJsonError(serde_json::Error);

/// The JSON string literal that `serde_json::to_string` writes for a text:
/// the text between double quotes, with the escapes that JSON asks for.
pub uninterp spec fn json_string(text: Seq<char>) -> Seq<char>;

/// Calls `serde_json::to_string` on a string slice. Trusted: the call
/// succeeds, since a string has no key to refuse and is written into memory,
/// and what it returns is the JSON string literal of `text`, the same for
/// the same text.
#[verifier::external_body]
fn to_json_string(text: &str) -> (r: Result<String, serde_json::Error>)
    ensures
        r is Ok,
        r matches Ok(quoted) ==> quoted@ == json_string(text@),
{
    serde_json::to_string(text)
}

/// The JSON object of one record, given its four fields as JSON values.
pub open spec fn object_text(
    id: Seq<char>,
    title: Seq<char>,
    pwd: Seq<char>,
    created_at: Seq<char>,
) -> Seq<char> {
    "{\"id\":"@ + id + ",\"title\":"@ + title + ",\"pwd\":"@ + pwd + ",\"created_at\":"@
        + created_at + "}"@
}

/// The JSON object of one record.
pub open spec fn row_text(r: SessionView) -> Seq<char> {
    object_text(
        json_string(r.id),
        json_string(r.title),
        json_string(r.pwd),
        json_string(r.created_at),
    )
}

/// The JSON objects of a listing, in its order.
pub open spec fn row_texts(rows: Seq<SessionView>) -> Seq<Seq<char>> {
    rows.map_values(|r: SessionView| row_text(r))
}

/// The views of a run of strings.
pub open spec fn texts(items: Seq<String>) -> Seq<Seq<char>> {
    items.map_values(|s: String| s@)
}

/// The items with a comma between each two.
pub open spec fn joined(items: Seq<Seq<char>>) -> Seq<char>
    decreases items.len(),
{
    if items.len() == 0 {
        Seq::empty()
    } else if items.len() == 1 {
        items[0]
    } else {
        joined(items.drop_last()) + ","@ + items.last()
    }
}

/// The JSON array of the given values.
pub open spec fn array_text(items: Seq<Seq<char>>) -> Seq<char> {
    "["@ + joined(items) + "]"@
}

/// Writes the JSON object of one record from its four fields, each given as
/// a JSON value.
pub fn object_json(id: &str, title: &str, pwd: &str, created_at: &str) -> (out: String)
    ensures
        out@ == object_text(id@, title@, pwd@, created_at@),
{
    let mut out: String = "{\"id\":".to_owned();
    out.append(id);
    out.append(",\"title\":");
    out.append(title);
    out.append(",\"pwd\":");
    out.append(pwd);
    out.append(",\"created_at\":");
    out.append(created_at);
    out.append("}");
    out
}

/// Writes the JSON array of the given values.
pub fn array_json(items: &Vec<String>) -> (out: String)
    ensures
        out@ == array_text(texts(items@)),
{
    let mut out: String = "[".to_owned();
    let mut i: usize = 0;
    proof {
        assert(texts(items@).take(0) =~= Seq::<Seq<char>>::empty());
        assert(out@ =~= "["@ + joined(texts(items@).take(0)));
    }
    while i < items.len()
        invariant
            i <= items.len(),
            out@ == "["@ + joined(texts(items@).take(i as int)),
        decreases items.len() - i,
    {
        let ghost before = out@;
        let ghost next = texts(items@).take(i + 1);
        proof {
            assert(next.drop_last() =~= texts(items@).take(i as int));
            assert(next.last() == items@[i as int]@);
        }
        if i > 0 {
            out.append(",");
            out.append(items[i].as_str());
            proof {
                assert(out@ =~= "["@ + joined(next));
            }
        } else {
            out.append(items[i].as_str());
            proof {
                assert(joined(texts(items@).take(0)) =~= Seq::<char>::empty());
                assert(out@ =~= "["@ + joined(next));
            }
        }
        i += 1;
    }
    proof {
        assert(texts(items@).take(items@.len() as int) =~= texts(items@));
    }
    out.append("]");
    out
}

/// The JSON object of one record. It is always there: `None` stands for a
/// field that could not be written, and every field can.
pub fn row_json(s: &Session) -> (out: Option<String>)
    ensures
        out is Some,
        out matches Some(text) ==> text@ == row_text(s@),
{
    let id = match to_json_string(s.id.as_str()) {
        Ok(q) => q,
        Err(_) => { return None; },
    };
    let title = match to_json_string(s.title.as_str()) {
        Ok(q) => q,
        Err(_) => { return None; },
    };
    let pwd = match to_json_string(s.pwd.as_str()) {
        Ok(q) => q,
        Err(_) => { return None; },
    };
    let created_at = match to_json_string(s.created_at.as_str()) {
        Ok(q) => q,
        Err(_) => { return None; },
    };
    Some(object_json(id.as_str(), title.as_str(), pwd.as_str(), created_at.as_str()))
}

/// The listing as a JSON array of objects with the fields `id`, `title`,
/// `pwd` and `created_at`, in the listing's order.
pub fn sessions_json(rows: &Vec<Session>) -> (out: String)
    ensures
        out@ == array_text(row_texts(views(rows@))),
{
    let mut items: Vec<String> = Vec::new();
    let mut i: usize = 0;
    proof {
        assert(texts(items@) =~= row_texts(views(rows@)).take(0));
    }
    while i < rows.len()
        invariant
            i <= rows.len(),
            texts(items@) == row_texts(views(rows@)).take(i as int),
        decreases rows.len() - i,
    {
        match row_json(&rows[i]) {
            Some(text) => {
                proof {
                    let all = row_texts(views(rows@));
                    assert(all[i as int] == row_text(rows@[i as int]@));
                    assert(texts(items@.push(text)) =~= texts(items@).push(text@));
                    assert(all.take(i + 1) =~= all.take(i as int).push(all[i as int]));
                }
                items.push(text);
            },
            None => {
                return "[]".to_owned();
            },
        }
        i += 1;
    }
    proof {
        assert(row_texts(views(rows@)).take(rows@.len() as int) =~= row_texts(views(rows@)));
    }
    array_json(&items)
}

} // verus!
