use textdiff::align::align;
use textdiff::diff::{diff_chars, diff_lines, diff_tokens};
use textdiff::render::{group_hunks, hunk_ranges, render_unified, select_hunks};
use textdiff::script::{ChangeTag, EditOp};
use textdiff::tokenize::{split_chars, split_lines};
use textdiff::{diff_chars_unified, diff_lines_simple, diff_lines_structured, diff_lines_unified};

fn strings(items: &[&str]) -> Vec<String> {
    items.iter().map(|s| s.to_string()).collect()
}

#[test]
fn lines_one_changed_line() {
    assert_eq!(diff_lines_unified("a\nb\nc\n", "a\nx\nc\n"), " a\n-b\n+x\n c\n");
}

#[test]
fn chars_identical() {
    assert_eq!(diff_chars_unified("abc", "abc"), " a b c");
}

#[test]
fn lines_from_empty() {
    assert_eq!(diff_lines_unified("", "x\n"), "+x\n");
}

#[test]
fn lines_to_empty() {
    assert_eq!(diff_lines_unified("x\ny\n", ""), "-x\n-y\n");
}

#[test]
fn lines_both_empty() {
    assert_eq!(diff_lines_unified("", ""), "");
    assert!(diff_lines_structured("", "").is_empty());
}

#[test]
fn lines_simple_matches_unified() {
    let a = "one\ntwo\nthree\n";
    let b = "one\nthree\nfour\n";
    assert_eq!(diff_lines_simple(a, b), diff_lines_unified(a, b));
    assert_eq!(diff_lines_simple(a, b), " one\n-two\n three\n+four\n");
}

#[test]
fn lines_without_final_break() {
    assert_eq!(diff_lines_unified("a\nb", "a\nb\n"), " a\n-b+b\n");
}

#[test]
fn chars_one_replaced() {
    assert_eq!(diff_chars_unified("abc", "axc"), " a-b+x c");
}

#[test]
fn chars_disjoint() {
    assert_eq!(diff_chars_unified("ab", "xy"), "-a-b+x+y");
}

#[test]
fn chars_unicode_scalars() {
    assert_eq!(diff_chars_unified("héllo", "hallo"), " h-é+a l l o");
}

#[test]
fn structured_single_hunk_in_long_file() {
    let mut a = String::new();
    let mut b = String::new();
    for i in 0..100 {
        a.push_str(&format!("line{}\n", i));
        if i == 50 {
            b.push_str("changed\n");
        } else {
            b.push_str(&format!("line{}\n", i));
        }
    }
    let r = diff_lines_structured(&a, &b);
    assert_eq!(r.len(), 8);
    let tags: Vec<&str> = r.iter().map(|c| c.tag.as_str()).collect();
    assert_eq!(tags, vec![" ", " ", " ", "-", "+", " ", " ", " "]);
    assert_eq!(r[0].value, "line47\n");
    assert_eq!(r[0].old_index, Some(47));
    assert_eq!(r[0].new_index, Some(47));
    assert_eq!(r[3].value, "line50\n");
    assert_eq!(r[3].old_index, Some(50));
    assert_eq!(r[3].new_index, None);
    assert_eq!(r[4].value, "changed\n");
    assert_eq!(r[4].old_index, None);
    assert_eq!(r[4].new_index, Some(50));
    assert_eq!(r[7].value, "line53\n");
    assert_eq!(r[7].old_index, Some(53));
}

#[test]
fn structured_two_hunks_are_kept_apart() {
    let mut a = String::new();
    let mut b = String::new();
    for i in 0..20 {
        a.push_str(&format!("{}\n", i));
        if i == 2 || i == 15 {
            b.push_str("x\n");
        } else {
            b.push_str(&format!("{}\n", i));
        }
    }
    let r = diff_lines_structured(&a, &b);
    let olds: Vec<Option<usize>> = r.iter().map(|c| c.old_index).collect();
    assert_eq!(
        olds,
        vec![
            Some(0), Some(1), Some(2), None, Some(3), Some(4), Some(5),
            Some(12), Some(13), Some(14), Some(15), None, Some(16), Some(17), Some(18)
        ]
    );
}

#[test]
fn structured_equal_texts_have_no_hunk() {
    assert!(diff_lines_structured("a\nb\n", "a\nb\n").is_empty());
}

#[test]
fn split_lines_keeps_breaks() {
    let r = split_lines("a\r\nb\n\nc");
    assert_eq!(r, strings(&["a\r\n", "b\n", "\n", "c"]));
    assert!(split_lines("").is_empty());
}

#[test]
fn split_chars_one_per_scalar() {
    assert_eq!(split_chars("aé€"), strings(&["a", "é", "€"]));
}

#[test]
fn align_identical_keeps_all() {
    let s = strings(&["a", "b", "a", "b"]);
    let r = align(&s, &s);
    assert_eq!(r, vec![EditOp { tag: ChangeTag::Equal, count: 4 }]);
    assert!(align(&Vec::new(), &Vec::new()).is_empty());
}

#[test]
fn align_disjoint_deletes_then_inserts() {
    let a = strings(&["a", "b"]);
    let b = strings(&["x", "y", "z"]);
    let r = align(&a, &b);
    assert_eq!(
        r,
        vec![EditOp { tag: ChangeTag::Delete, count: 2 }, EditOp { tag: ChangeTag::Insert, count: 3 }]
    );
}

#[test]
fn align_empty_sides() {
    let a = strings(&["a", "b"]);
    assert_eq!(align(&Vec::new(), &a), vec![EditOp { tag: ChangeTag::Insert, count: 2 }]);
    assert_eq!(align(&a, &Vec::new()), vec![EditOp { tag: ChangeTag::Delete, count: 2 }]);
}

#[test]
fn align_is_minimal() {
    let a = strings(&["a", "b", "c", "d"]);
    let b = strings(&["a", "c", "d", "e"]);
    let r = align(&a, &b);
    let edits: usize = r.iter().filter(|o| o.tag != ChangeTag::Equal).map(|o| o.count).sum();
    assert_eq!(edits, 2);
    assert!(edits <= a.len() + b.len());
}

#[test]
fn identity_renders_every_token_behind_a_space() {
    let text = "x\ny\nz";
    let c = diff_lines(text, text);
    assert!(c.iter().all(|r| r.tag == ChangeTag::Equal));
    assert_eq!(render_unified(&c), " x\n y\n z");
}

#[test]
fn round_trip_rebuilds_both_sides() {
    let a = "the\nquick\nbrown\nfox\n";
    let b = "the\nslow\nbrown\ndog\nran\n";
    let c = diff_lines(a, b);
    let old_side: String = c.iter().filter(|r| r.tag != ChangeTag::Insert).map(|r| r.value.as_str()).collect();
    let new_side: String = c.iter().filter(|r| r.tag != ChangeTag::Delete).map(|r| r.value.as_str()).collect();
    assert_eq!(old_side, a);
    assert_eq!(new_side, b);
}

#[test]
fn totality_counts_slots() {
    let c = diff_chars("kitten", "sitting");
    assert_eq!(c.iter().filter(|r| r.old_index.is_some()).count(), 6);
    assert_eq!(c.iter().filter(|r| r.new_index.is_some()).count(), 7);
    for r in &c {
        match r.tag {
            ChangeTag::Equal => assert!(r.old_index.is_some() && r.new_index.is_some()),
            ChangeTag::Delete => assert!(r.old_index.is_some() && r.new_index.is_none()),
            ChangeTag::Insert => assert!(r.old_index.is_none() && r.new_index.is_some()),
        }
    }
}

#[test]
fn swapping_sides_swaps_deletes_and_inserts() {
    let a = strings(&["a", "b", "c"]);
    let b = strings(&["a", "x", "c"]);
    let forward = align(&a, &b);
    let backward = align(&b, &a);
    let mirrored: Vec<EditOp> = forward
        .iter()
        .map(|o| EditOp {
            tag: match o.tag {
                ChangeTag::Delete => ChangeTag::Insert,
                ChangeTag::Insert => ChangeTag::Delete,
                ChangeTag::Equal => ChangeTag::Equal,
            },
            count: o.count,
        })
        .collect();
    let keeps = |s: &Vec<EditOp>| -> Vec<usize> {
        s.iter().filter(|o| o.tag == ChangeTag::Equal).map(|o| o.count).collect()
    };
    assert_eq!(keeps(&mirrored), keeps(&backward));
    assert_eq!(backward.len(), mirrored.len());
}

#[test]
fn hunks_with_zero_context_keep_changes_only() {
    let a = strings(&["a", "b", "c"]);
    let b = strings(&["a", "x", "c"]);
    let c = diff_tokens(&a, &b);
    let h = select_hunks(&c, 0);
    let tags: Vec<ChangeTag> = h.iter().map(|r| r.tag).collect();
    assert_eq!(tags, vec![ChangeTag::Delete, ChangeTag::Insert]);
}

#[test]
fn hunks_grouped_with_context() {
    let a: Vec<String> = (0..20).map(|i| format!("{}\n", i)).collect();
    let mut b = a.clone();
    b[2] = "x\n".to_string();
    b[15] = "y\n".to_string();
    let c = diff_tokens(&a, &b);
    assert_eq!(hunk_ranges(&c, 3), vec![(0, 7), (13, 21)]);
    let g = group_hunks(&c, 3);
    assert_eq!(g.len(), 2);
    assert_eq!(g[0].len(), 7);
    assert_eq!(g[1].len(), 8);
    assert_eq!(g[1][0].old_index, Some(12));
    assert_eq!(g[1][3].tag, ChangeTag::Delete);
    assert!(group_hunks(&diff_tokens(&a, &a), 3).is_empty());
}

#[test]
fn hunks_merge_when_context_overlaps() {
    let a: Vec<String> = (0..10).map(|i| format!("{}\n", i)).collect();
    let mut b = a.clone();
    b[2] = "x\n".to_string();
    b[7] = "y\n".to_string();
    let c = diff_tokens(&a, &b);
    assert_eq!(hunk_ranges(&c, 2), vec![(0, 12)]);
    assert_eq!(hunk_ranges(&c, 1), vec![(1, 5), (7, 11)]);
}
