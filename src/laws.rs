//! What holds of every diff the library computes.
use vstd::prelude::*;

use crate::align::{all_keep, chosen_script, keep_all, lemma_chosen_fits, lemma_keep_all_positions, lemma_keep_all_steps, myers_runs};
use crate::diff::{diff_stream, line_diff};
use crate::tokenize::{concat, is_line_split};
use crate::render::{marker, unified_text};
use crate::script::{Change, ChangeTag, expansion_of, fits, new_pos, old_pos, record_at, steps_of};

verus! {

/// The tokens that the records other than `Insert` carry, in order.
pub open spec fn old_side(r: Seq<Change>) -> Seq<Seq<char>>
    decreases r.len(),
{
    if r.len() == 0 {
        Seq::empty()
    } else if r.last().tag != ChangeTag::Insert {
        old_side(r.drop_last()).push(r.last().value@)
    } else {
        old_side(r.drop_last())
    }
}

/// The tokens that the records other than `Delete` carry, in order.
pub open spec fn new_side(r: Seq<Change>) -> Seq<Seq<char>>
    decreases r.len(),
{
    if r.len() == 0 {
        Seq::empty()
    } else if r.last().tag != ChangeTag::Delete {
        new_side(r.drop_last()).push(r.last().value@)
    } else {
        new_side(r.drop_last())
    }
}

/// How many records carry an old index.
pub open spec fn old_slots(r: Seq<Change>) -> nat
    decreases r.len(),
{
    if r.len() == 0 {
        0
    } else {
        old_slots(r.drop_last()) + if r.last().old_index is Some { 1nat } else { 0nat }
    }
}

/// How many records carry a new index.
pub open spec fn new_slots(r: Seq<Change>) -> nat
    decreases r.len(),
{
    if r.len() == 0 {
        0
    } else {
        new_slots(r.drop_last()) + if r.last().new_index is Some { 1nat } else { 0nat }
    }
}

proof fn lemma_prefix(r: Seq<Change>, t: Seq<ChangeTag>, old: Seq<Seq<char>>, new: Seq<Seq<char>>, k: int)
    requires
        fits(t, old, new),
        expansion_of(r, t, old, new),
        0 <= k <= r.len(),
    ensures
        old_side(r.take(k)) == old.take(old_pos(t, k) as int),
        new_side(r.take(k)) == new.take(new_pos(t, k) as int),
        old_slots(r.take(k)) == old_pos(t, k),
        new_slots(r.take(k)) == new_pos(t, k),
    decreases k,
{
    if k > 0 {
        lemma_prefix(r, t, old, new, k - 1);
        crate::script::lemma_pos_monotone(t, k, t.len() as int);
        assert(r.take(k).drop_last() =~= r.take(k - 1));
        assert(record_at(r[k - 1], t, old, new, k - 1));
        let p = old_pos(t, k - 1) as int;
        let q = new_pos(t, k - 1) as int;
        if t[k - 1] != ChangeTag::Insert {
            assert(old.take(p + 1) =~= old.take(p).push(old[p]));
        }
        if t[k - 1] != ChangeTag::Delete {
            if t[k - 1] == ChangeTag::Equal {
                assert(old[p] == new[q]);
            }
            assert(new.take(q + 1) =~= new.take(q).push(new[q]));
        }
    }
}

/// Round trip: in a diff of `old` against `new`, the records other than
/// inserts carry exactly `old`, and the records other than deletes carry
/// exactly `new`.
pub proof fn law_round_trip(r: Seq<Change>, old: Seq<Seq<char>>, new: Seq<Seq<char>>)
    requires
        diff_stream(r, old, new),
        old.len() <= usize::MAX,
        new.len() <= usize::MAX,
    ensures
        old_side(r) == old,
        new_side(r) == new,
{
    let t = steps_of(chosen_script(myers_runs(old, new), old, new));
    lemma_chosen_fits(myers_runs(old, new), old, new);
    lemma_prefix(r, t, old, new, r.len() as int);
    assert(r.take(r.len() as int) =~= r);
    assert(old.take(old.len() as int) =~= old);
    assert(new.take(new.len() as int) =~= new);
}

/// Totality: a diff of `old` against `new` gives an old index to exactly
/// `len(old)` records and a new index to exactly `len(new)` records; `Equal`
/// records carry both, `Delete` records only the old one, `Insert` records only
/// the new one.
pub proof fn law_totality(r: Seq<Change>, old: Seq<Seq<char>>, new: Seq<Seq<char>>)
    requires
        diff_stream(r, old, new),
        old.len() <= usize::MAX,
        new.len() <= usize::MAX,
    ensures
        old_slots(r) == old.len(),
        new_slots(r) == new.len(),
        forall|k: int|
            0 <= k < r.len() ==> (#[trigger] r[k].old_index is Some <==> r[k].tag
                != ChangeTag::Insert) && (r[k].new_index is Some <==> r[k].tag != ChangeTag::Delete),
{
    let t = steps_of(chosen_script(myers_runs(old, new), old, new));
    lemma_chosen_fits(myers_runs(old, new), old, new);
    lemma_prefix(r, t, old, new, r.len() as int);
    assert(r.take(r.len() as int) =~= r);
    assert forall|k: int| 0 <= k < r.len() implies (#[trigger] r[k].old_index is Some <==> r[k].tag
        != ChangeTag::Insert) && (r[k].new_index is Some <==> r[k].tag != ChangeTag::Delete) by {
        assert(record_at(r[k], t, old, new, k));
    }
}

/// The tokens, each behind a space, written one after another.
pub open spec fn spaced(s: Seq<Seq<char>>) -> Seq<char>
    decreases s.len(),
{
    if s.len() == 0 {
        Seq::empty()
    } else {
        spaced(s.drop_last()) + seq![' '] + s.last()
    }
}

/// Identity: diffing a sequence against itself gives a script of keeps only,
/// every record is `Equal`, and the unified text is every token behind a space.
pub proof fn law_identity(r: Seq<Change>, s: Seq<Seq<char>>)
    requires
        diff_stream(r, s, s),
        s.len() <= usize::MAX,
    ensures
        all_keep(chosen_script(myers_runs(s, s), s, s)),
        forall|k: int| 0 <= k < r.len() ==> #[trigger] r[k].tag == ChangeTag::Equal,
        unified_text(r) == spaced(s),
{
    let n = s.len();
    let t = steps_of(keep_all(n));
    lemma_keep_all_steps(n);
    assert forall|k: int| 0 <= k < r.len() implies #[trigger] r[k].tag == ChangeTag::Equal by {
        assert(record_at(r[k], t, s, s, k));
    }
    lemma_identity_text(r, s, n as int);
    assert(r.take(n as int) =~= r);
    assert(s.take(n as int) =~= s);
}

proof fn lemma_identity_text(r: Seq<Change>, s: Seq<Seq<char>>, k: int)
    requires
        expansion_of(r, steps_of(keep_all(s.len())), s, s),
        s.len() <= usize::MAX,
        0 <= k <= s.len(),
    ensures
        unified_text(r.take(k)) == spaced(s.take(k)),
    decreases k,
{
    let t = steps_of(keep_all(s.len()));
    lemma_keep_all_steps(s.len());
    if k > 0 {
        lemma_identity_text(r, s, k - 1);
        lemma_keep_all_positions(s.len(), k - 1);
        assert(record_at(r[k - 1], t, s, s, k - 1));
        assert(r.take(k).drop_last() =~= r.take(k - 1));
        assert(s.take(k).drop_last() =~= s.take(k - 1));
        assert(marker(r[k - 1].tag) == ' ');
    }
}

/// The tag with the roles of the two sequences swapped.
pub open spec fn mirror_tag(t: ChangeTag) -> ChangeTag {
    match t {
        ChangeTag::Equal => ChangeTag::Equal,
        ChangeTag::Delete => ChangeTag::Insert,
        ChangeTag::Insert => ChangeTag::Delete,
    }
}

/// Steps with every delete turned into an insert and every insert into a delete.
pub open spec fn mirror(t: Seq<ChangeTag>) -> Seq<ChangeTag> {
    t.map_values(|x: ChangeTag| mirror_tag(x))
}

proof fn lemma_mirror_pos(t: Seq<ChangeTag>, k: int)
    requires
        0 <= k <= t.len(),
    ensures
        old_pos(mirror(t), k) == new_pos(t, k),
        new_pos(mirror(t), k) == old_pos(t, k),
    decreases k,
{
    if k > 0 {
        lemma_mirror_pos(t, k - 1);
    }
}

/// Symmetry of scripts: swapping deletes and inserts in steps that replay `old`
/// into `new` gives steps that replay `new` into `old`, with the same keeps at
/// the same places.
pub proof fn law_mirror(t: Seq<ChangeTag>, old: Seq<Seq<char>>, new: Seq<Seq<char>>)
    requires
        fits(t, old, new),
    ensures
        fits(mirror(t), new, old),
        forall|k: int|
            0 <= k < t.len() ==> (#[trigger] mirror(t)[k] == ChangeTag::Equal <==> t[k]
                == ChangeTag::Equal),
{
    let m = mirror(t);
    lemma_mirror_pos(t, t.len() as int);
    assert forall|k: int| 0 <= k < m.len() && m[k] == ChangeTag::Equal implies #[trigger] new[old_pos(
        m,
        k,
    ) as int] == old[new_pos(m, k) as int] by {
        lemma_mirror_pos(t, k);
        assert(old[old_pos(t, k) as int] == new[new_pos(t, k) as int]);
    }
}

/// How many of the first `k` steps are not keeps.
pub open spec fn edits(t: Seq<ChangeTag>, k: int) -> nat
    decreases k,
{
    if k <= 0 {
        0
    } else {
        edits(t, k - 1) + if t[k - 1] != ChangeTag::Equal { 1nat } else { 0nat }
    }
}

proof fn lemma_edits(t: Seq<ChangeTag>, k: int)
    requires
        0 <= k <= t.len(),
    ensures
        edits(t, k) <= old_pos(t, k) + new_pos(t, k),
    decreases k,
{
    if k > 0 {
        lemma_edits(t, k - 1);
    }
}

/// Minimality bound: the steps of the script chosen for `old` and `new` hold
/// no more deletes and inserts than `len(old) + len(new)`.
pub proof fn law_edit_bound(old: Seq<Seq<char>>, new: Seq<Seq<char>>)
    requires
        old.len() <= usize::MAX,
        new.len() <= usize::MAX,
    ensures
        ({
            let t = steps_of(chosen_script(myers_runs(old, new), old, new));
            edits(t, t.len() as int) <= old.len() + new.len()
        }),
{
    let t = steps_of(chosen_script(myers_runs(old, new), old, new));
    lemma_chosen_fits(myers_runs(old, new), old, new);
    lemma_edits(t, t.len() as int);
}

proof fn lemma_line_count(ts: Seq<Seq<char>>)
    requires
        forall|k: int| 0 <= k < ts.len() ==> #[trigger] ts[k].len() > 0,
    ensures
        ts.len() <= concat(ts).len(),
    decreases ts.len(),
{
    if ts.len() > 0 {
        assert forall|k: int| 0 <= k < ts.drop_last().len() implies #[trigger] ts.drop_last()[k].len()
            > 0 by {
            assert(ts.drop_last()[k] == ts[k]);
        }
        lemma_line_count(ts.drop_last());
        assert(ts.last().len() > 0);
    }
}

/// Round trip on text: in a line diff, the lines of the records other than
/// inserts spell the old text, and those of the records other than deletes
/// spell the new text.
pub proof fn law_lines_round_trip(r: Seq<Change>, old_text: Seq<char>, new_text: Seq<char>)
    requires
        line_diff(r, old_text, new_text),
        old_text.len() <= usize::MAX,
        new_text.len() <= usize::MAX,
    ensures
        concat(old_side(r)) == old_text,
        concat(new_side(r)) == new_text,
{
    let (o, n) = choose|o: Seq<Seq<char>>, n: Seq<Seq<char>>|
        #![trigger is_line_split(o, old_text), is_line_split(n, new_text)]
        is_line_split(o, old_text) && is_line_split(n, new_text) && diff_stream(r, o, n);
    lemma_line_count(o);
    lemma_line_count(n);
    law_round_trip(r, o, n);
}

} // verus!
