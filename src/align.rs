//! The alignment engine: a minimal edit script between two token sequences.
use vstd::prelude::*;

use crate::script::{ChangeTag, EditOp, check_fits, fits, new_pos, old_pos, steps, steps_of, toks};

verus! {

/// The kind of one run reported by the Myers diff.
#[derive(PartialEq, Eq, Structural, Clone, Copy, Debug)]
pub enum RunTag {
    Equal,
    Delete,
    Insert,
    Replace,
}

/// A run of the Myers diff: its kind, then its range in the old sequence and
/// its range in the new one, each as start and end.
pub type Run = (RunTag, usize, usize, usize, usize);

/// The runs that the Myers diff reports for two token sequences.
pub uninterp spec fn myers_runs(old: Seq<Seq<char>>, new: Seq<Seq<char>>) -> Seq<Run>;

/// Relies on `similar::capture_diff_slices` with `Algorithm::Myers` and no
/// deadline: its ops, each read through `DiffOp::as_tag_tuple`, depend on the
/// two token sequences alone.
#[verifier::external_body]
fn myers_diff(old: &Vec<String>, new: &Vec<String>) -> (r: Vec<Run>)
    ensures
        r@ == myers_runs(toks(old@), toks(new@)),
{
    let ops = similar::capture_diff_slices(similar::Algorithm::Myers, old, new);
    ops.iter().map(|op| {
        let (tag, o, n) = op.as_tag_tuple();
        let tag = match tag {
            similar::DiffTag::Equal => RunTag::Equal,
            similar::DiffTag::Delete => RunTag::Delete,
            similar::DiffTag::Insert => RunTag::Insert,
            similar::DiffTag::Replace => RunTag::Replace,
        };
        (tag, o.start, o.end, n.start, n.end)
    }).collect()
}

/// The length of a range given by its start and end, zero if it is reversed.
pub open spec fn span(start: usize, end: usize) -> usize {
    if start <= end {
        (end - start) as usize
    } else {
        0
    }
}

/// The script ops of one run; a replacement deletes before it inserts.
pub open spec fn ops_of_run(r: Run) -> Seq<EditOp> {
    let d = EditOp { tag: ChangeTag::Delete, count: span(r.1, r.2) };
    let i = EditOp { tag: ChangeTag::Insert, count: span(r.3, r.4) };
    match r.0 {
        RunTag::Equal => seq![EditOp { tag: ChangeTag::Equal, count: span(r.1, r.2) }],
        RunTag::Delete => seq![d],
        RunTag::Insert => seq![i],
        RunTag::Replace => seq![d, i],
    }
}

/// The script that a list of runs spells out.
pub open spec fn script_of_runs(runs: Seq<Run>) -> Seq<EditOp>
    decreases runs.len(),
{
    if runs.len() == 0 {
        Seq::empty()
    } else {
        script_of_runs(runs.drop_last()) + ops_of_run(runs.last())
    }
}

/// Delete every old token, then insert every new one.
pub open spec fn replace_all(o: nat, n: nat) -> Seq<EditOp> {
    seq![
        EditOp { tag: ChangeTag::Delete, count: o as usize },
        EditOp { tag: ChangeTag::Insert, count: n as usize },
    ]
}

/// Keep all `n` tokens.
pub open spec fn keep_all(n: nat) -> Seq<EditOp> {
    if n == 0 {
        Seq::empty()
    } else {
        seq![EditOp { tag: ChangeTag::Equal, count: n as usize }]
    }
}

/// The script chosen for `old` and `new` given the runs of a diff: a single
/// keep for equal sequences, else the runs where they replay `old` into `new`,
/// else a deletion of everything followed by an insertion of everything.
pub open spec fn chosen_script(runs: Seq<Run>, old: Seq<Seq<char>>, new: Seq<Seq<char>>) -> Seq<
    EditOp,
> {
    if old == new {
        keep_all(old.len())
    } else if fits(steps_of(script_of_runs(runs)), old, new) {
        script_of_runs(runs)
    } else {
        replace_all(old.len(), new.len())
    }
}

/// Every op of the script keeps tokens.
pub open spec fn all_keep(s: Seq<EditOp>) -> bool {
    forall|i: int| 0 <= i < s.len() ==> #[trigger] s[i].tag == ChangeTag::Equal
}

fn run_span(start: usize, end: usize) -> (r: usize)
    ensures
        r == span(start, end),
{
    if start <= end {
        end - start
    } else {
        0
    }
}

/// Turns the runs of a diff into script ops.
pub fn script_from_runs(runs: &Vec<Run>) -> (r: Vec<EditOp>)
    ensures
        r@ == script_of_runs(runs@),
{
    let mut r: Vec<EditOp> = Vec::new();
    let mut i: usize = 0;
    while i < runs.len()
        invariant
            i <= runs.len(),
            r@ == script_of_runs(runs@.subrange(0, i as int)),
        decreases runs.len() - i,
    {
        let run = runs[i];
        let d = EditOp { tag: ChangeTag::Delete, count: run_span(run.1, run.2) };
        let n = EditOp { tag: ChangeTag::Insert, count: run_span(run.3, run.4) };
        match run.0 {
            RunTag::Equal => r.push(EditOp { tag: ChangeTag::Equal, count: run_span(run.1, run.2) }),
            RunTag::Delete => r.push(d),
            RunTag::Insert => r.push(n),
            RunTag::Replace => {
                r.push(d);
                r.push(n);
            },
        }
        proof {
            let pre = runs@.subrange(0, i + 1);
            assert(pre.drop_last() =~= runs@.subrange(0, i as int));
            assert(pre.last() == run);
            assert(r@ =~= script_of_runs(pre));
        }
        i += 1;
    }
    assert(runs@.subrange(0, runs.len() as int) =~= runs@);
    r
}

/// Tells whether two token sequences are equal.
pub fn same_tokens(old: &Vec<String>, new: &Vec<String>) -> (r: bool)
    ensures
        r == (toks(old@) == toks(new@)),
{
    if old.len() != new.len() {
        assert(toks(old@).len() != toks(new@).len());
        return false;
    }
    let mut i: usize = 0;
    while i < old.len()
        invariant
            i <= old.len(),
            old.len() == new.len(),
            forall|j: int| 0 <= j < i ==> old@[j]@ == new@[j]@,
        decreases old.len() - i,
    {
        if old[i] != new[i] {
            assert(toks(old@)[i as int] != toks(new@)[i as int]);
            return false;
        }
        i += 1;
    }
    assert(toks(old@) =~= toks(new@));
    true
}

proof fn lemma_replace_all_positions(o: nat, n: nat, k: int)
    requires
        0 <= k <= o + n,
        o <= usize::MAX,
        n <= usize::MAX,
    ensures
        old_pos(steps_of(replace_all(o, n)), k) == if k <= o { k } else { o as int },
        new_pos(steps_of(replace_all(o, n)), k) == if k <= o { 0 } else { k - o },
    decreases k,
{
    lemma_replace_all_steps(o, n);
    if k > 0 {
        lemma_replace_all_positions(o, n, k - 1);
    }
}

proof fn lemma_replace_all_steps(o: nat, n: nat)
    requires
        o <= usize::MAX,
        n <= usize::MAX,
    ensures
        steps_of(replace_all(o, n)) == Seq::new(o, |i: int| ChangeTag::Delete) + Seq::new(
            n,
            |i: int| ChangeTag::Insert,
        ),
{
    let s = replace_all(o, n);
    let s1 = s.drop_last();
    assert(s1.drop_last() =~= Seq::<EditOp>::empty());
    assert(steps_of(s1.drop_last()) == Seq::<ChangeTag>::empty());
    assert(steps_of(s1) =~= Seq::new(o, |i: int| ChangeTag::Delete));
    assert(steps_of(s) =~= Seq::new(o, |i: int| ChangeTag::Delete) + Seq::new(
        n,
        |i: int| ChangeTag::Insert,
    ));
}

/// Replacing everything replays any `old` into any `new`.
proof fn lemma_replace_all_fits(old: Seq<Seq<char>>, new: Seq<Seq<char>>)
    requires
        old.len() <= usize::MAX,
        new.len() <= usize::MAX,
    ensures
        fits(steps_of(replace_all(old.len(), new.len())), old, new),
{
    let t = steps_of(replace_all(old.len(), new.len()));
    lemma_replace_all_steps(old.len(), new.len());
    lemma_replace_all_positions(old.len(), new.len(), t.len() as int);
}

pub proof fn lemma_keep_all_positions(n: nat, k: int)
    requires
        0 <= k <= n,
        n <= usize::MAX,
    ensures
        old_pos(steps_of(keep_all(n)), k) == k,
        new_pos(steps_of(keep_all(n)), k) == k,
    decreases k,
{
    lemma_keep_all_steps(n);
    if k > 0 {
        lemma_keep_all_positions(n, k - 1);
    }
}

pub proof fn lemma_keep_all_steps(n: nat)
    requires
        n <= usize::MAX,
    ensures
        steps_of(keep_all(n)) == Seq::new(n, |i: int| ChangeTag::Equal),
{
    if n > 0 {
        let s = keep_all(n);
        assert(s.drop_last() =~= Seq::<EditOp>::empty());
        assert(steps_of(s.drop_last()) == Seq::<ChangeTag>::empty());
    }
    assert(steps_of(keep_all(n)) =~= Seq::new(n, |i: int| ChangeTag::Equal));
}

/// Keeping everything replays a sequence into itself.
proof fn lemma_keep_all_fits(s: Seq<Seq<char>>)
    requires
        s.len() <= usize::MAX,
    ensures
        fits(steps_of(keep_all(s.len())), s, s),
{
    let t = steps_of(keep_all(s.len()));
    lemma_keep_all_steps(s.len());
    lemma_keep_all_positions(s.len(), t.len() as int);
    assert forall|k: int| 0 <= k < t.len() && t[k] == ChangeTag::Equal implies #[trigger] s[old_pos(
        t,
        k,
    ) as int] == s[new_pos(t, k) as int] by {
        lemma_keep_all_positions(s.len(), k);
    }
}

/// Chooses the script for `old` and `new` from the runs of a diff.
pub fn align_runs(runs: &Vec<Run>, old: &Vec<String>, new: &Vec<String>) -> (r: Vec<EditOp>)
    ensures
        r@ == chosen_script(runs@, toks(old@), toks(new@)),
        fits(steps_of(r@), toks(old@), toks(new@)),
{
    let old_len = old.len();
    let new_len = new.len();
    assert(toks(old@).len() == old_len && toks(new@).len() == new_len);
    if same_tokens(old, new) {
        proof {
            lemma_keep_all_fits(toks(old@));
        }
        let mut r: Vec<EditOp> = Vec::new();
        if old_len > 0 {
            r.push(EditOp { tag: ChangeTag::Equal, count: old_len });
        }
        assert(r@ =~= keep_all(old@.len()));
        return r;
    }
    let script = script_from_runs(runs);
    let t = steps(&script);
    if check_fits(&t, old, new) {
        script
    } else {
        proof {
            lemma_replace_all_fits(toks(old@), toks(new@));
        }
        let mut r: Vec<EditOp> = Vec::new();
        r.push(EditOp { tag: ChangeTag::Delete, count: old_len });
        r.push(EditOp { tag: ChangeTag::Insert, count: new_len });
        assert(r@ =~= replace_all(old@.len(), new@.len()));
        r
    }
}

/// A minimal edit script from `old` to `new`, computed with the Myers diff.
/// It always replays `old` into `new`, and keeps everything when they are equal.
pub fn align(old: &Vec<String>, new: &Vec<String>) -> (r: Vec<EditOp>)
    ensures
        r@ == chosen_script(myers_runs(toks(old@), toks(new@)), toks(old@), toks(new@)),
        fits(steps_of(r@), toks(old@), toks(new@)),
        toks(old@) == toks(new@) ==> all_keep(r@),
{
    let runs = myers_diff(old, new);
    align_runs(&runs, old, new)
}

/// The chosen script replays `old` into `new`, whatever runs the diff reported.
pub proof fn lemma_chosen_fits(runs: Seq<Run>, old: Seq<Seq<char>>, new: Seq<Seq<char>>)
    requires
        old.len() <= usize::MAX,
        new.len() <= usize::MAX,
    ensures
        fits(steps_of(chosen_script(runs, old, new)), old, new),
{
    if old == new {
        lemma_keep_all_fits(old);
    } else if !fits(steps_of(script_of_runs(runs)), old, new) {
        lemma_replace_all_fits(old, new);
    }
}

} // verus!
