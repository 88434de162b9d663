//! Hunk selection and rendering of change streams.
use vstd::prelude::*;

use crate::script::{Change, ChangeTag};

verus! {

/// The marker written before a token in unified text.
pub open spec fn marker(t: ChangeTag) -> char {
    match t {
        ChangeTag::Equal => ' ',
        ChangeTag::Delete => '-',
        ChangeTag::Insert => '+',
    }
}

/// Unified text: each record's marker followed by its token, in order.
pub open spec fn unified_text(r: Seq<Change>) -> Seq<char>
    decreases r.len(),
{
    if r.len() == 0 {
        Seq::empty()
    } else {
        unified_text(r.drop_last()) + seq![marker(r.last().tag)] + r.last().value@
    }
}

/// Renders a change stream as unified text.
pub fn render_unified(changes: &Vec<Change>) -> (r: String)
    ensures
        r@ == unified_text(changes@),
{
    let mut r = String::new();
    let mut i: usize = 0;
    while i < changes.len()
        invariant
            i <= changes.len(),
            r@ == unified_text(changes@.subrange(0, i as int)),
        decreases changes.len() - i,
    {
        let c = &changes[i];
        let sign: &str = match c.tag {
            ChangeTag::Equal => " ",
            ChangeTag::Delete => "-",
            ChangeTag::Insert => "+",
        };
        proof {
            reveal_strlit(" ");
            reveal_strlit("-");
            reveal_strlit("+");
            assert(sign@ =~= seq![marker(c.tag)]);
            let pre = changes@.subrange(0, i + 1);
            assert(pre.drop_last() =~= changes@.subrange(0, i as int));
        }
        r.append(sign);
        r.append(c.value.as_str());
        i += 1;
    }
    assert(changes@.subrange(0, changes.len() as int) =~= changes@);
    r
}

/// Record `k` lies within `n` records of a record that is not `Equal`.
pub open spec fn near_change(r: Seq<Change>, k: int, n: nat) -> bool {
    exists|j: int| 0 <= j < r.len() && r[j].tag != ChangeTag::Equal && k - n <= j <= k + n
}

/// The records among the first `i` that lie within `n` records of a change.
pub open spec fn scoped_prefix(r: Seq<Change>, n: nat, i: int) -> Seq<Change>
    decreases i,
{
    if i <= 0 {
        Seq::empty()
    } else if near_change(r, i - 1, n) {
        scoped_prefix(r, n, i - 1).push(r[i - 1])
    } else {
        scoped_prefix(r, n, i - 1)
    }
}

/// The records of all hunks with `n` records of context, in order: every
/// change, and every `Equal` record within `n` records of one.
pub open spec fn hunk_scoped(r: Seq<Change>, n: nat) -> Seq<Change> {
    scoped_prefix(r, n, r.len() as int)
}

/// Tells whether record `k` lies within `n` records of a change.
fn is_near_change(changes: &Vec<Change>, k: usize, n: usize) -> (r: bool)
    requires
        k < changes@.len(),
    ensures
        r == near_change(changes@, k as int, n as nat),
{
    let last = changes.len() - 1;
    let lo: usize = if k < n { 0 } else { k - n };
    let hi: usize = if last - k < n { last } else { k + n };
    let mut j: usize = lo;
    while j <= hi
        invariant
            lo <= j <= hi + 1,
            hi <= last,
            last == changes@.len() - 1,
            changes@.len() <= usize::MAX,
            lo == if k < n { 0 } else { k - n },
            hi == if last - k < n { last as int } else { k + n },
            forall|m: int| lo <= m < j ==> changes@[m].tag == ChangeTag::Equal,
        decreases hi + 1 - j,
    {
        if changes[j].tag != ChangeTag::Equal {
            return true;
        }
        j += 1;
    }
    assert forall|m: int|
        0 <= m < changes@.len() && changes@[m].tag != ChangeTag::Equal implies !(k - n <= m <= k
        + n) by {
        if k - n <= m <= k + n {
            assert(lo <= m <= hi);
        }
    }
    false
}

/// Keeps the records of all hunks with `n` records of context.
pub fn select_hunks(changes: &Vec<Change>, n: usize) -> (r: Vec<Change>)
    ensures
        r@ == hunk_scoped(changes@, n as nat),
{
    let mut r: Vec<Change> = Vec::new();
    let mut i: usize = 0;
    while i < changes.len()
        invariant
            i <= changes.len(),
            r@ == scoped_prefix(changes@, n as nat, i as int),
        decreases changes.len() - i,
    {
        if is_near_change(changes, i, n) {
            r.push(changes[i].duplicate());
        }
        i += 1;
    }
    r
}

/// Records `s` up to `e` form one hunk: each lies within `n` records of a
/// change, and neither neighbour outside the range does.
pub open spec fn is_hunk_range(r: Seq<Change>, n: nat, s: int, e: int) -> bool {
    &&& 0 <= s < e <= r.len()
    &&& forall|k: int| s <= k < e ==> #[trigger] near_change(r, k, n)
    &&& s == 0 || !near_change(r, s - 1, n)
    &&& e == r.len() || !near_change(r, e, n)
}

/// `h` lists the hunks of `r` with `n` records of context, in order, as start
/// and end indices: every range is a hunk, and every record near a change lies
/// in one of them.
pub open spec fn hunk_ranges_of(r: Seq<Change>, n: nat, h: Seq<(usize, usize)>) -> bool {
    &&& forall|i: int| 0 <= i < h.len() ==> #[trigger] is_hunk_range(r, n, h[i].0 as int, h[i].1 as int)
    &&& forall|i: int| 0 <= i < h.len() - 1 ==> #[trigger] h[i].1 < h[i + 1].0
    &&& forall|k: int|
        0 <= k < r.len() && #[trigger] near_change(r, k, n) ==> exists|i: int|
            #![trigger h[i]]
            0 <= i < h.len() && h[i].0 <= k < h[i].1
}

/// Groups a change stream into hunks with `n` records of context, given as
/// index ranges.
pub fn hunk_ranges(changes: &Vec<Change>, n: usize) -> (h: Vec<(usize, usize)>)
    ensures
        hunk_ranges_of(changes@, n as nat, h@),
{
    let ghost r = changes@;
    let mut h: Vec<(usize, usize)> = Vec::new();
    let mut open: Option<usize> = None;
    let mut k: usize = 0;
    while k < changes.len()
        invariant
            k <= changes.len(),
            r == changes@,
            forall|i: int| 0 <= i < h@.len() ==> #[trigger] is_hunk_range(r, n as nat, h@[i].0 as int, h@[i].1 as int),
            forall|i: int| 0 <= i < h@.len() - 1 ==> #[trigger] h@[i].1 < h@[i + 1].0,
            h@.len() > 0 ==> h@.last().1 <= k,
            match open {
                Some(s) => {
                    &&& s < k
                    &&& (forall|m: int| s <= m < k ==> #[trigger] near_change(r, m, n as nat))
                    &&& (s == 0 || !near_change(r, s - 1, n as nat))
                    &&& (h@.len() > 0 ==> h@.last().1 < s)
                },
                None => (k == 0 || !near_change(r, k - 1, n as nat)) && (h@.len() > 0 ==> h@.last().1
                    < k),
            },
            forall|m: int|
                0 <= m < k && #[trigger] near_change(r, m, n as nat) ==> (exists|i: int|
                    #![trigger h@[i]]
                    0 <= i < h@.len() && h@[i].0 <= m < h@[i].1) || (match open {
                    Some(s) => s <= m,
                    None => false,
                }),
        decreases changes.len() - k,
    {
        let near = is_near_change(changes, k, n);
        match open {
            Some(s) => {
                if !near {
                    let ghost prev = h@;
                    h.push((s, k));
                    open = None;
                    assert(is_hunk_range(r, n as nat, h@.last().0 as int, h@.last().1 as int));
                    assert forall|m: int|
                        0 <= m < k + 1 && #[trigger] near_change(r, m, n as nat) implies exists|i: int|
                        #![trigger h@[i]]
                        0 <= i < h@.len() && h@[i].0 <= m < h@[i].1 by {
                        if s <= m {
                            assert(h@[h@.len() - 1].0 <= m < h@[h@.len() - 1].1);
                        } else {
                            let i = choose|i: int| #![trigger prev[i]] 0 <= i < prev.len() && prev[i].0 <= m < prev[i].1;
                            assert(h@[i] == prev[i]);
                        }
                    }
                }
            },
            None => {
                if near {
                    open = Some(k);
                }
            },
        }
        k += 1;
    }
    match open {
        Some(s) => {
            let ghost prev = h@;
            h.push((s, k));
            assert(is_hunk_range(r, n as nat, h@.last().0 as int, h@.last().1 as int));
            assert forall|m: int|
                0 <= m < r.len() && #[trigger] near_change(r, m, n as nat) implies exists|i: int|
                #![trigger h@[i]]
                0 <= i < h@.len() && h@[i].0 <= m < h@[i].1 by {
                if s <= m {
                    assert(h@[h@.len() - 1].0 <= m < h@[h@.len() - 1].1);
                } else {
                    let i = choose|i: int| #![trigger prev[i]] 0 <= i < prev.len() && prev[i].0 <= m < prev[i].1;
                    assert(h@[i] == prev[i]);
                }
            }
        },
        None => {},
    }
    h
}

/// Every hunk holds at least one record that is not `Equal`.
pub proof fn lemma_hunk_has_change(r: Seq<Change>, n: nat, s: int, e: int)
    requires
        is_hunk_range(r, n, s, e),
    ensures
        exists|j: int| s <= j < e && #[trigger] r[j].tag != ChangeTag::Equal,
{
    assert(near_change(r, s, n));
    let j = choose|j: int| 0 <= j < r.len() && r[j].tag != ChangeTag::Equal && s - n <= j <= s + n;
    if j < s {
        assert(near_change(r, s - 1, n));
    } else if j >= e {
        assert(near_change(r, e, n));
    }
}

/// Copies records `s` up to `e`.
fn copy_range(changes: &Vec<Change>, s: usize, e: usize) -> (r: Vec<Change>)
    requires
        s <= e <= changes@.len(),
    ensures
        r@ == changes@.subrange(s as int, e as int),
{
    let mut r: Vec<Change> = Vec::new();
    let mut k: usize = s;
    while k < e
        invariant
            s <= k <= e,
            e <= changes@.len(),
            r@ == changes@.subrange(s as int, k as int),
        decreases e - k,
    {
        r.push(changes[k].duplicate());
        k += 1;
        assert(r@ =~= changes@.subrange(s as int, k as int));
    }
    r
}

/// Groups a change stream into hunks with `n` records of context, in order.
pub fn group_hunks(changes: &Vec<Change>, n: usize) -> (g: Vec<Vec<Change>>)
    ensures
        exists|h: Seq<(usize, usize)>|
            hunk_ranges_of(changes@, n as nat, h) && g@.len() == h.len() && forall|i: int|
                0 <= i < h.len() ==> #[trigger] g@[i]@ == changes@.subrange(
                    h[i].0 as int,
                    h[i].1 as int,
                ),
{
    let h = hunk_ranges(changes, n);
    let mut g: Vec<Vec<Change>> = Vec::new();
    let mut i: usize = 0;
    while i < h.len()
        invariant
            i <= h@.len(),
            hunk_ranges_of(changes@, n as nat, h@),
            g@.len() == i,
            forall|j: int|
                0 <= j < i ==> #[trigger] g@[j]@ == changes@.subrange(h@[j].0 as int, h@[j].1 as int),
        decreases h.len() - i,
    {
        assert(is_hunk_range(changes@, n as nat, h@[i as int].0 as int, h@[i as int].1 as int));
        let (s, e) = h[i];
        g.push(copy_range(changes, s, e));
        i += 1;
    }
    g
}

/// A change record in the shape handed to callers: the marker as text, the
/// token, and the positions it comes from.
#[derive(Debug)]
pub struct DiffChange {
    pub tag: String,
    pub value: String,
    pub old_index: Option<usize>,
    pub new_index: Option<usize>,
}

/// `d` is the record `c` in the shape handed to callers.
pub open spec fn shaped(d: DiffChange, c: Change) -> bool {
    &&& d.tag@ == seq![marker(c.tag)]
    &&& d.value@ == c.value@
    &&& d.old_index == c.old_index
    &&& d.new_index == c.new_index
}

/// Projects a change stream, record by record, into the shape handed to callers.
pub fn render_structured(changes: &Vec<Change>) -> (r: Vec<DiffChange>)
    ensures
        r@.len() == changes@.len(),
        forall|k: int| 0 <= k < r@.len() ==> #[trigger] shaped(r@[k], changes@[k]),
{
    let mut r: Vec<DiffChange> = Vec::new();
    let mut i: usize = 0;
    while i < changes.len()
        invariant
            i <= changes.len(),
            r@.len() == i,
            forall|k: int| 0 <= k < i ==> #[trigger] shaped(r@[k], changes@[k]),
        decreases changes.len() - i,
    {
        let c = &changes[i];
        let sign: &str = match c.tag {
            ChangeTag::Equal => " ",
            ChangeTag::Delete => "-",
            ChangeTag::Insert => "+",
        };
        proof {
            reveal_strlit(" ");
            reveal_strlit("-");
            reveal_strlit("+");
            assert(sign@ =~= seq![marker(c.tag)]);
        }
        r.push(
            DiffChange {
                tag: String::from_str(sign),
                value: c.value.clone(),
                old_index: c.old_index,
                new_index: c.new_index,
            },
        );
        i += 1;
    }
    r
}

} // verus!
