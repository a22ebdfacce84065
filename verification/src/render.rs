//! How a listing is shown: its entries, and in them the time and the
//! identifier of a record.

use vstd::prelude::*;
use vstd::string::*;
use crate::position::{decimal_digits, position_text};
use crate::session::{views, Session, SessionView};

verus! {

/// How many characters of a time are shown: date, hour and minute.
pub const TIME_WIDTH: usize = 16;

/// How many characters of an identifier are shown where it is abridged.
pub const SHORT_ID_WIDTH: usize = 8;

/// The first `width` characters of `text`; all of it where it is shorter.
pub open spec fn clipped(text: Seq<char>, width: int) -> Seq<char> {
    if text.len() <= width {
        text
    } else {
        text.take(width)
    }
}

/// A character of a time as it is shown: the `T` between date and time
/// becomes a space.
pub open spec fn shown_char(c: char) -> Seq<char> {
    if (c as u32) == 84 {
        " "@
    } else {
        seq![c]
    }
}

/// The first `n` characters of a time as they are shown.
pub open spec fn shown_upto(text: Seq<char>, n: int) -> Seq<char>
    decreases n,
{
    if n <= 0 {
        Seq::empty()
    } else {
        shown_upto(text, n - 1) + shown_char(text[n - 1])
    }
}

/// A time as it is shown: clipped to the minute, with a space for the `T`.
pub open spec fn shown_time(created_at: Seq<char>) -> Seq<char> {
    shown_upto(created_at, clipped(created_at, TIME_WIDTH as int).len() as int)
}

/// The time of a record as a listing shows it.
pub fn display_time(created_at: &str) -> (out: String)
    ensures
        out@ == shown_time(created_at@),
{
    let len: usize = created_at.unicode_len();
    let count: usize = if len <= TIME_WIDTH {
        len
    } else {
        TIME_WIDTH
    };
    let mut out: String = String::new();
    let mut i: usize = 0;
    proof {
        assert(out@ =~= shown_upto(created_at@, 0));
    }
    while i < count
        invariant
            i <= count <= len,
            len == created_at@.len(),
            out@ == shown_upto(created_at@, i as int),
        decreases count - i,
    {
        let c = created_at.get_char(i);
        if (c as u32) == 84 {
            out.append(" ");
        } else {
            let one = created_at.substring_char(i, i + 1);
            proof {
                assert(one@ =~= seq![c]);
            }
            out.append(one);
        }
        i += 1;
    }
    out
}

/// The identifier of a record, abridged to its first characters.
pub fn short_id(id: &str) -> (out: String)
    ensures
        out@ == clipped(id@, SHORT_ID_WIDTH as int),
{
    let len: usize = id.unicode_len();
    if len <= SHORT_ID_WIDTH {
        id.to_owned()
    } else {
        id.substring_char(0, SHORT_ID_WIDTH).to_owned()
    }
}

/// One entry of a listing: its number and title, the identifier, the
/// command that resumes the session with `program`, and the directory with
/// the time.
pub open spec fn entry_text(number: nat, s: SessionView, program: Seq<char>) -> Seq<char> {
    "["@ + decimal_digits(number) + "] "@ + s.title + "\n    ID:  "@ + s.id + "\n    Cmd: "@
        + program + " --resume "@ + s.id + " --dangerously-skip-permissions\n    Dir: "@ + s.pwd
        + "  ("@ + shown_time(s.created_at) + ")\n"@
}

/// The first `n` entries of a listing, numbered from 1, with an empty line
/// between each two.
pub open spec fn listing_upto(rows: Seq<SessionView>, program: Seq<char>, n: int) -> Seq<char>
    decreases n,
{
    if n <= 0 {
        Seq::empty()
    } else if n == 1 {
        entry_text(1, rows[0], program)
    } else {
        listing_upto(rows, program, n - 1) + "\n"@ + entry_text(n as nat, rows[n - 1], program)
    }
}

/// Writes one entry of a listing.
pub fn entry(number: usize, s: &Session, program: &str) -> (out: String)
    ensures
        out@ == entry_text(number as nat, s@, program@),
{
    let mut out: String = "[".to_owned();
    out.append(position_text(number).as_str());
    out.append("] ");
    out.append(s.title.as_str());
    out.append("\n    ID:  ");
    out.append(s.id.as_str());
    out.append("\n    Cmd: ");
    out.append(program);
    out.append(" --resume ");
    out.append(s.id.as_str());
    out.append(" --dangerously-skip-permissions\n    Dir: ");
    out.append(s.pwd.as_str());
    out.append("  (");
    out.append(display_time(s.created_at.as_str()).as_str());
    out.append(")\n");
    out
}

/// Writes a listing: every record as an entry, numbered from 1 in the
/// listing's order.
pub fn listing(rows: &Vec<Session>, program: &str) -> (out: String)
    ensures
        out@ == listing_upto(views(rows@), program@, rows@.len() as int),
{
    let mut out: String = String::new();
    let mut i: usize = 0;
    proof {
        assert(out@ =~= listing_upto(views(rows@), program@, 0));
    }
    while i < rows.len()
        invariant
            i <= rows.len(),
            out@ == listing_upto(views(rows@), program@, i as int),
        decreases rows.len() - i,
    {
        let ghost before = out@;
        if i > 0 {
            out.append("\n");
        }
        out.append(entry(i + 1, &rows[i], program).as_str());
        proof {
            assert(views(rows@)[i as int] == rows@[i as int]@);
            if i == 0 {
                assert(out@ =~= entry_text(1, rows@[0]@, program@));
            }
        }
        i += 1;
    }
    out
}

} // verus!
