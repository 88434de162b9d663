//! Edit scripts and the change records they expand to.
use vstd::prelude::*;

verus! {

/// What a single step of a diff does.
#[derive(PartialEq, Eq, Structural, Clone, Copy, Debug)]
pub enum ChangeTag {
    Equal,
    Delete,
    Insert,
}

/// One run of an edit script: `count` steps of the same kind.
#[derive(PartialEq, Eq, Structural, Clone, Copy, Debug)]
pub struct EditOp {
    pub tag: ChangeTag,
    pub count: usize,
}

/// The token sequence that a vector of strings stands for.
pub open spec fn toks(v: Seq<String>) -> Seq<Seq<char>> {
    v.map_values(|s: String| s@)
}

/// The steps of a script, one tag per consumed token slot.
pub open spec fn steps_of(s: Seq<EditOp>) -> Seq<ChangeTag>
    decreases s.len(),
{
    if s.len() == 0 {
        Seq::empty()
    } else {
        steps_of(s.drop_last()) + Seq::new(s.last().count as nat, |i: int| s.last().tag)
    }
}

/// How many old tokens the first `k` steps consume.
pub open spec fn old_pos(t: Seq<ChangeTag>, k: int) -> nat
    decreases k,
{
    if k <= 0 {
        0
    } else {
        old_pos(t, k - 1) + if t[k - 1] != ChangeTag::Insert { 1nat } else { 0nat }
    }
}

/// How many new tokens the first `k` steps consume.
pub open spec fn new_pos(t: Seq<ChangeTag>, k: int) -> nat
    decreases k,
{
    if k <= 0 {
        0
    } else {
        new_pos(t, k - 1) + if t[k - 1] != ChangeTag::Delete { 1nat } else { 0nat }
    }
}

/// The steps replay `old` into `new`: every old and every new token is consumed
/// exactly once, and each `Equal` step pairs two equal tokens.
pub open spec fn fits(t: Seq<ChangeTag>, old: Seq<Seq<char>>, new: Seq<Seq<char>>) -> bool {
    &&& old_pos(t, t.len() as int) == old.len()
    &&& new_pos(t, t.len() as int) == new.len()
    &&& forall|k: int|
        0 <= k < t.len() && t[k] == ChangeTag::Equal ==> #[trigger] old[old_pos(t, k) as int]
            == new[new_pos(t, k) as int]
}

pub proof fn lemma_pos_monotone(t: Seq<ChangeTag>, j: int, k: int)
    requires
        0 <= j <= k <= t.len(),
    ensures
        old_pos(t, j) <= old_pos(t, k),
        new_pos(t, j) <= new_pos(t, k),
        old_pos(t, k) <= old_pos(t, j) + (k - j),
        new_pos(t, k) <= new_pos(t, j) + (k - j),
    decreases k - j,
{
    if j < k {
        lemma_pos_monotone(t, j, k - 1);
    }
}

/// One record of a change stream.
#[derive(Debug)]
pub struct Change {
    pub tag: ChangeTag,
    pub value: String,
    pub old_index: Option<usize>,
    pub new_index: Option<usize>,
}

impl Change {
    /// An equal record with a copy of the token.
    pub fn duplicate(&self) -> (r: Change)
        ensures
            r == *self,
    {
        Change {
            tag: self.tag,
            value: self.value.clone(),
            old_index: self.old_index,
            new_index: self.new_index,
        }
    }
}

/// Record `c` is step `k` of `t` replayed against `old` and `new`: `Equal`
/// carries both indices, `Delete` only the old one, `Insert` only the new one.
pub open spec fn record_at(
    c: Change,
    t: Seq<ChangeTag>,
    old: Seq<Seq<char>>,
    new: Seq<Seq<char>>,
    k: int,
) -> bool {
    &&& c.tag == t[k]
    &&& c.value@ == if t[k] == ChangeTag::Insert {
        new[new_pos(t, k) as int]
    } else {
        old[old_pos(t, k) as int]
    }
    &&& c.old_index == if t[k] != ChangeTag::Insert {
        Some(old_pos(t, k) as usize)
    } else {
        None
    }
    &&& c.new_index == if t[k] != ChangeTag::Delete {
        Some(new_pos(t, k) as usize)
    } else {
        None
    }
}

/// `r` is the change stream of the steps `t` replayed against `old` and `new`.
pub open spec fn expansion_of(
    r: Seq<Change>,
    t: Seq<ChangeTag>,
    old: Seq<Seq<char>>,
    new: Seq<Seq<char>>,
) -> bool {
    &&& r.len() == t.len()
    &&& forall|k: int| 0 <= k < t.len() ==> #[trigger] record_at(r[k], t, old, new, k)
}

/// Spells a script out step by step.
pub fn steps(script: &Vec<EditOp>) -> (r: Vec<ChangeTag>)
    ensures
        r@ == steps_of(script@),
{
    let mut r: Vec<ChangeTag> = Vec::new();
    let mut i: usize = 0;
    while i < script.len()
        invariant
            i <= script.len(),
            r@ == steps_of(script@.subrange(0, i as int)),
        decreases script.len() - i,
    {
        let op = script[i];
        let ghost before = r@;
        let mut j: usize = 0;
        while j < op.count
            invariant
                j <= op.count,
                r@ == before + Seq::new(j as nat, |x: int| op.tag),
            decreases op.count - j,
        {
            r.push(op.tag);
            j += 1;
            assert(r@ =~= before + Seq::new(j as nat, |x: int| op.tag));
        }
        proof {
            let pre = script@.subrange(0, i + 1);
            assert(pre.drop_last() =~= script@.subrange(0, i as int));
            assert(pre.last() == op);
        }
        i += 1;
    }
    assert(script@.subrange(0, script.len() as int) =~= script@);
    r
}

/// Tells whether the steps `t` replay `old` into `new`.
pub fn check_fits(t: &Vec<ChangeTag>, old: &Vec<String>, new: &Vec<String>) -> (r: bool)
    ensures
        r == fits(t@, toks(old@), toks(new@)),
{
    let ghost o = toks(old@);
    let ghost n = toks(new@);
    let mut oi: usize = 0;
    let mut ni: usize = 0;
    let mut k: usize = 0;
    while k < t.len()
        invariant
            k <= t.len(),
            oi == old_pos(t@, k as int),
            ni == new_pos(t@, k as int),
            oi <= old.len(),
            ni <= new.len(),
            o == toks(old@),
            n == toks(new@),
            forall|m: int|
                0 <= m < k && t@[m] == ChangeTag::Equal ==> #[trigger] o[old_pos(t@, m) as int]
                    == n[new_pos(t@, m) as int],
        decreases t.len() - k,
    {
        let tag = t[k];
        proof {
            lemma_pos_monotone(t@, k + 1, t@.len() as int);
        }
        if tag != ChangeTag::Insert && oi >= old.len() {
            return false;
        }
        if tag != ChangeTag::Delete && ni >= new.len() {
            return false;
        }
        if tag == ChangeTag::Equal {
            if old[oi] != new[ni] {
                assert(o[old_pos(t@, k as int) as int] != n[new_pos(t@, k as int) as int]);
                return false;
            }
        }
        if tag != ChangeTag::Insert {
            oi += 1;
        }
        if tag != ChangeTag::Delete {
            ni += 1;
        }
        k += 1;
    }
    oi == old.len() && ni == new.len()
}

/// Replays steps against the two sequences, one record per step.
pub fn expand_steps(t: &Vec<ChangeTag>, old: &Vec<String>, new: &Vec<String>) -> (r: Vec<Change>)
    requires
        fits(t@, toks(old@), toks(new@)),
    ensures
        expansion_of(r@, t@, toks(old@), toks(new@)),
{
    let ghost o = toks(old@);
    let ghost n = toks(new@);
    let mut r: Vec<Change> = Vec::new();
    let mut oi: usize = 0;
    let mut ni: usize = 0;
    let mut k: usize = 0;
    while k < t.len()
        invariant
            k <= t.len(),
            oi == old_pos(t@, k as int),
            ni == new_pos(t@, k as int),
            o == toks(old@),
            n == toks(new@),
            fits(t@, o, n),
            oi <= old.len(),
            ni <= new.len(),
            r@.len() == k,
            forall|m: int| 0 <= m < k ==> #[trigger] record_at(r@[m], t@, o, n, m),
        decreases t.len() - k,
    {
        let tag = t[k];
        proof {
            lemma_pos_monotone(t@, k + 1, t@.len() as int);
        }
        let c = if tag == ChangeTag::Equal {
            Change { tag, value: old[oi].clone(), old_index: Some(oi), new_index: Some(ni) }
        } else if tag == ChangeTag::Delete {
            Change { tag, value: old[oi].clone(), old_index: Some(oi), new_index: None }
        } else {
            Change { tag, value: new[ni].clone(), old_index: None, new_index: Some(ni) }
        };
        r.push(c);
        if tag != ChangeTag::Insert {
            oi += 1;
        }
        if tag != ChangeTag::Delete {
            ni += 1;
        }
        k += 1;
        assert(record_at(r@[k - 1], t@, o, n, k - 1));
    }
    r
}

/// Replays an edit script against the two sequences it was computed from.
pub fn expand(script: &Vec<EditOp>, old: &Vec<String>, new: &Vec<String>) -> (r: Vec<Change>)
    requires
        fits(steps_of(script@), toks(old@), toks(new@)),
    ensures
        expansion_of(r@, steps_of(script@), toks(old@), toks(new@)),
{
    let t = steps(script);
    expand_steps(&t, old, new)
}

} // verus!
