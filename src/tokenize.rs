//! Splitting text into the tokens that a diff compares.
use vstd::prelude::*;

use crate::script::toks;

verus! {

/// The tokens written one after another.
pub open spec fn concat(ts: Seq<Seq<char>>) -> Seq<char>
    decreases ts.len(),
{
    if ts.len() == 0 {
        Seq::empty()
    } else {
        concat(ts.drop_last()) + ts.last()
    }
}

/// `ts` are the lines of `s`: together they spell `s`, none is empty, a line
/// break can only end a line, and every line but the last ends with one. A
/// carriage return before the break stays on its line.
pub open spec fn is_line_split(ts: Seq<Seq<char>>, s: Seq<char>) -> bool {
    &&& concat(ts) == s
    &&& forall|k: int| 0 <= k < ts.len() ==> #[trigger] ts[k].len() > 0
    &&& forall|k: int, j: int|
        0 <= k < ts.len() && 0 <= j < ts[k].len() - 1 ==> #[trigger] ts[k][j] != '\n'
    &&& forall|k: int| 0 <= k < ts.len() - 1 ==> #[trigger] ts[k].last() == '\n'
}

/// `ts` holds one token per character of `s`, in order.
pub open spec fn is_char_split(ts: Seq<Seq<char>>, s: Seq<char>) -> bool {
    &&& ts.len() == s.len()
    &&& forall|k: int| 0 <= k < ts.len() ==> #[trigger] ts[k] == seq![s[k]]
}

/// Splits text into lines, each with its line break.
pub fn split_lines(text: &str) -> (r: Vec<String>)
    ensures
        is_line_split(toks(r@), text@),
{
    let n = text.unicode_len();
    let mut r: Vec<String> = Vec::new();
    let mut start: usize = 0;
    let mut i: usize = 0;
    while i < n
        invariant
            start <= i <= n,
            n == text@.len(),
            concat(toks(r@)) == text@.subrange(0, start as int),
            forall|k: int| 0 <= k < r@.len() ==> #[trigger] r@[k]@.len() > 0,
            forall|k: int, j: int|
                0 <= k < r@.len() && 0 <= j < r@[k]@.len() - 1 ==> #[trigger] r@[k]@[j] != '\n',
            forall|k: int| 0 <= k < r@.len() ==> #[trigger] r@[k]@.last() == '\n',
            forall|j: int| start <= j < i ==> text@[j] != '\n',
        decreases n - i,
    {
        let c = text.get_char(i);
        if c == '\n' {
            let piece = String::from_str(text.substring_char(start, i + 1));
            let ghost before = toks(r@);
            r.push(piece);
            proof {
                assert(toks(r@).drop_last() =~= before);
                assert(text@.subrange(0, i + 1) =~= text@.subrange(0, start as int)
                    + text@.subrange(start as int, i + 1));
            }
            start = i + 1;
        }
        i += 1;
    }
    if start < n {
        let piece = String::from_str(text.substring_char(start, n));
        let ghost before = toks(r@);
        r.push(piece);
        proof {
            assert(toks(r@).drop_last() =~= before);
            assert(text@ =~= text@.subrange(0, start as int) + text@.subrange(start as int, n as int));
        }
    } else {
        assert(text@ =~= text@.subrange(0, start as int));
    }
    r
}

/// Splits text into its characters, one token each.
pub fn split_chars(text: &str) -> (r: Vec<String>)
    ensures
        is_char_split(toks(r@), text@),
{
    let n = text.unicode_len();
    let mut r: Vec<String> = Vec::new();
    let mut i: usize = 0;
    while i < n
        invariant
            i <= n,
            n == text@.len(),
            r@.len() == i,
            forall|k: int| 0 <= k < i ==> #[trigger] r@[k]@ == seq![text@[k]],
        decreases n - i,
    {
        let piece = String::from_str(text.substring_char(i, i + 1));
        assert(piece@ =~= seq![text@[i as int]]);
        r.push(piece);
        i += 1;
    }
    r
}

} // verus!
