//! The words of the command line, and the short form of a save.

use vstd::prelude::*;
use crate::text::{chars_equal, to_chars};

verus! {

/// `word` is a verb of the command line, one of its short forms, or a call
/// for help.
pub open spec fn known_word(word: Seq<char>) -> bool {
    ||| word == "save"@
    ||| word == "s"@
    ||| word == "ls"@
    ||| word == "list"@
    ||| word == "find"@
    ||| word == "f"@
    ||| word == "resume"@
    ||| word == "r"@
    ||| word == "rm"@
    ||| word == "del"@
    ||| word == "web"@
    ||| word == "w"@
    ||| word == "-h"@
    ||| word == "--help"@
    ||| word == "help"@
}

/// The arguments are the short form of a save: the program's name, then an
/// identifier that is no known word, then a title.
pub open spec fn shorthand_save(args: Seq<Seq<char>>) -> bool {
    args.len() >= 3 && !known_word(args[1])
}

/// Whether `word` and `other` are the same text.
fn same(word: &Vec<char>, other: &str) -> (b: bool)
    ensures
        b == (word@ == other@),
{
    let o = to_chars(other);
    chars_equal(word, &o)
}

/// Whether `word` is a known word of the command line.
pub fn is_known_word(word: &str) -> (b: bool)
    ensures
        b == known_word(word@),
{
    let w = to_chars(word);
    same(&w, "save") || same(&w, "s") || same(&w, "ls") || same(&w, "list") || same(&w, "find")
        || same(&w, "f") || same(&w, "resume") || same(&w, "r") || same(&w, "rm") || same(
        &w,
        "del",
    ) || same(&w, "web") || same(&w, "w") || same(&w, "-h") || same(&w, "--help") || same(
        &w,
        "help",
    )
}

/// Whether the arguments, the program's name first, are the short form of a
/// save. The identifier is then the second of them and the title the third.
pub fn is_shorthand_save(args: &Vec<String>) -> (b: bool)
    ensures
        b == shorthand_save(args@.map_values(|a: String| a@)),
{
    args.len() >= 3 && !is_known_word(args[1].as_str())
}

} // verus!
