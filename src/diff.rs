//! Diffs of whole texts, by line or by character.
use vstd::prelude::*;

use crate::align::{align, chosen_script, myers_runs};
use crate::render::{DiffChange, hunk_scoped, render_structured, render_unified, select_hunks, shaped, unified_text};
use crate::script::{Change, expand, expansion_of, steps_of, toks};
use crate::tokenize::{is_line_split, split_chars, split_lines};

verus! {

/// How many `Equal` records of context a hunk keeps on each side.
pub const CONTEXT: usize = 3;

/// `r` is the change stream of the script chosen for `old` and `new`.
pub open spec fn diff_stream(r: Seq<Change>, old: Seq<Seq<char>>, new: Seq<Seq<char>>) -> bool {
    expansion_of(r, steps_of(chosen_script(myers_runs(old, new), old, new)), old, new)
}

/// `r` is the change stream between the lines of two texts.
pub open spec fn line_diff(r: Seq<Change>, old_text: Seq<char>, new_text: Seq<char>) -> bool {
    exists|o: Seq<Seq<char>>, n: Seq<Seq<char>>|
        #![trigger is_line_split(o, old_text), is_line_split(n, new_text)]
        is_line_split(o, old_text) && is_line_split(n, new_text) && diff_stream(r, o, n)
}

/// The characters of a text, one token each.
pub open spec fn chars_of(s: Seq<char>) -> Seq<Seq<char>> {
    Seq::new(s.len(), |i: int| seq![s[i]])
}

/// `r` is the change stream between the characters of two texts.
pub open spec fn char_diff(r: Seq<Change>, old_text: Seq<char>, new_text: Seq<char>) -> bool {
    diff_stream(r, chars_of(old_text), chars_of(new_text))
}

/// The full change stream between two token sequences.
pub fn diff_tokens(old: &Vec<String>, new: &Vec<String>) -> (r: Vec<Change>)
    ensures
        diff_stream(r@, toks(old@), toks(new@)),
{
    let script = align(old, new);
    expand(&script, old, new)
}

/// The full change stream between the lines of two texts.
pub fn diff_lines(old_text: &str, new_text: &str) -> (r: Vec<Change>)
    ensures
        line_diff(r@, old_text@, new_text@),
{
    let old = split_lines(old_text);
    let new = split_lines(new_text);
    let r = diff_tokens(&old, &new);
    assert(is_line_split(toks(old@), old_text@) && is_line_split(toks(new@), new_text@));
    r
}

/// The full change stream between the characters of two texts.
pub fn diff_chars(old_text: &str, new_text: &str) -> (r: Vec<Change>)
    ensures
        char_diff(r@, old_text@, new_text@),
{
    let old = split_chars(old_text);
    let new = split_chars(new_text);
    assert(toks(old@) =~= chars_of(old_text@));
    assert(toks(new@) =~= chars_of(new_text@));
    diff_tokens(&old, &new)
}

/// Unified text of the line diff between two texts: every line of the full
/// change stream behind its marker.
pub fn diff_lines_unified(old_text: &str, new_text: &str) -> (r: String)
    ensures
        exists|c: Seq<Change>| line_diff(c, old_text@, new_text@) && r@ == unified_text(c),
{
    let c = diff_lines(old_text, new_text);
    render_unified(&c)
}

/// The same text as `diff_lines_unified`.
pub fn diff_lines_simple(old_text: &str, new_text: &str) -> (r: String)
    ensures
        exists|c: Seq<Change>| line_diff(c, old_text@, new_text@) && r@ == unified_text(c),
{
    let c = diff_lines(old_text, new_text);
    render_unified(&c)
}

/// Unified text of the character diff between two texts.
pub fn diff_chars_unified(old_text: &str, new_text: &str) -> (r: String)
    ensures
        exists|c: Seq<Change>| char_diff(c, old_text@, new_text@) && r@ == unified_text(c),
{
    let c = diff_chars(old_text, new_text);
    render_unified(&c)
}

/// The records of the line diff's hunks, with the default context, in the
/// shape handed to callers.
pub fn diff_lines_structured(old_text: &str, new_text: &str) -> (r: Vec<DiffChange>)
    ensures
        exists|c: Seq<Change>|
            line_diff(c, old_text@, new_text@) && r@.len() == hunk_scoped(c, CONTEXT as nat).len()
                && forall|k: int|
                0 <= k < r@.len() ==> #[trigger] shaped(r@[k], hunk_scoped(c, CONTEXT as nat)[k]),
{
    let c = diff_lines(old_text, new_text);
    let h = select_hunks(&c, CONTEXT);
    render_structured(&h)
}

} // verus!
