use vstd::prelude::*;

use crate::labels::{generate_labels, label_seq};

verus! {

/// A half-open range `[start, end)` of text positions where a match lies.
#[derive(Clone, Copy, PartialEq, Eq, Structural, Debug)]
pub struct Span {
    pub start: usize,
    pub end: usize,
}

/// The index focused first among `ms`, looking from index `i` on: the
/// first match that starts strictly after `caret`, or the last match if
/// none does.
pub open spec fn focus_from(ms: Seq<Span>, caret: usize, i: int) -> int
    decreases ms.len() - i,
{
    if i < 0 || i >= ms.len() {
        ms.len() - 1
    } else if ms[i].start > caret {
        i
    } else {
        focus_from(ms, caret, i + 1)
    }
}

/// The index focused first among `ms` for a caret at `caret`.
pub open spec fn focus_of(ms: Seq<Span>, caret: usize) -> int {
    focus_from(ms, caret, 0)
}

/// Picks the match focused when a choice among `matches` begins: the
/// first that starts strictly after the caret, else the last one.
/// There is none when there are no matches.
pub fn default_focus(matches: &Vec<Span>, caret: usize) -> (r: Option<usize>)
    ensures
        matches@.len() == 0 ==> r.is_none(),
        matches@.len() > 0 ==> r == Some(focus_of(matches@, caret) as usize),
{
    let n = matches.len();
    let mut i: usize = 0;
    while i < n
        invariant
            n == matches@.len(),
            i <= n,
            focus_of(matches@, caret) == focus_from(matches@, caret, i as int),
        decreases n - i,
    {
        if matches[i].start > caret {
            return Some(i);
        }
        i = i + 1;
    }
    if n == 0 {
        None
    } else {
        Some(n - 1)
    }
}

/// The focus rule spelled out: the focused match is the first one that
/// starts strictly after the caret; when no match does, it is the last.
pub proof fn lemma_focus_of(ms: Seq<Span>, caret: usize)
    requires
        ms.len() > 0,
    ensures
        0 <= focus_of(ms, caret) < ms.len(),
        (exists|j: int| 0 <= j < ms.len() && ms[j].start > caret) ==> {
            &&& ms[focus_of(ms, caret)].start > caret
            &&& forall|j: int| 0 <= j < focus_of(ms, caret) ==> ms[j].start <= caret
        },
        (forall|j: int| 0 <= j < ms.len() ==> ms[j].start <= caret) ==> focus_of(ms, caret)
            == ms.len() - 1,
{
    lemma_focus_from(ms, caret, 0);
}

proof fn lemma_focus_from(ms: Seq<Span>, caret: usize, i: int)
    requires
        0 <= i <= ms.len(),
        ms.len() > 0,
    ensures
        i <= focus_from(ms, caret, i) < ms.len() || focus_from(ms, caret, i) == ms.len() - 1,
        0 <= focus_from(ms, caret, i) < ms.len(),
        (exists|j: int| i <= j < ms.len() && ms[j].start > caret) ==> {
            &&& i <= focus_from(ms, caret, i)
            &&& ms[focus_from(ms, caret, i)].start > caret
            &&& forall|j: int| i <= j < focus_from(ms, caret, i) ==> ms[j].start <= caret
        },
        (forall|j: int| i <= j < ms.len() ==> ms[j].start <= caret) ==> focus_from(ms, caret, i)
            == ms.len() - 1,
    decreases ms.len() - i,
{
    if i < ms.len() && ms[i].start <= caret {
        lemma_focus_from(ms, caret, i + 1);
        if exists|j: int| i <= j < ms.len() && ms[j].start > caret {
            let j = choose|j: int| i <= j < ms.len() && ms[j].start > caret;
            assert(i + 1 <= j);
        }
    }
}

/// The matches among the first `k` of `ms` whose label in `labels` is `c`,
/// in their order. A match past the end of `labels` has no label.
pub open spec fn kept(ms: Seq<Span>, labels: Seq<char>, c: char, k: int) -> Seq<Span>
    decreases k,
{
    if k <= 0 {
        Seq::empty()
    } else {
        let rest = kept(ms, labels, c, k - 1);
        if k - 1 < labels.len() && labels[k - 1] == c {
            rest.push(ms[k - 1])
        } else {
            rest
        }
    }
}

/// The matches that keep their place when the label `c` is typed: those
/// whose label, over the labels for the current number of matches, is `c`.
pub open spec fn filter_spec(ms: Seq<Span>, c: char) -> Seq<Span> {
    kept(ms, label_seq(ms.len()), c, ms.len() as int)
}

/// Keeps the matches whose label is `c`, the labels being those for the
/// current number of matches.
pub fn filter_by_label(matches: &Vec<Span>, c: char) -> (r: Vec<Span>)
    ensures
        r@ == filter_spec(matches@, c),
{
    let labels = generate_labels(matches.len());
    let mut r: Vec<Span> = Vec::new();
    let mut i: usize = 0;
    while i < matches.len()
        invariant
            i <= matches@.len(),
            labels@ == label_seq(matches@.len()),
            r@ == kept(matches@, labels@, c, i as int),
        decreases matches@.len() - i,
    {
        if i < labels.len() && labels[i] == c {
            r.push(matches[i]);
        }
        i = i + 1;
    }
    r
}

/// A label that some match bears keeps at least that match.
pub proof fn lemma_kept_nonempty(ms: Seq<Span>, labels: Seq<char>, c: char, k: int, j: int)
    requires
        0 <= j < k,
        j < labels.len(),
        labels[j] == c,
    ensures
        kept(ms, labels, c, k).len() > 0,
    decreases k,
{
    if j < k - 1 {
        lemma_kept_nonempty(ms, labels, c, k - 1, j);
    }
}

/// A match among the first `k` that does not bear `c` is left out, so
/// fewer than `k` are kept.
pub proof fn lemma_kept_drops(ms: Seq<Span>, labels: Seq<char>, c: char, k: int, j: int)
    requires
        0 <= j < k,
        j >= labels.len() || labels[j] != c,
    ensures
        kept(ms, labels, c, k).len() < k,
    decreases k,
{
    if j < k - 1 {
        lemma_kept_drops(ms, labels, c, k - 1, j);
    } else {
        lemma_kept_len(ms, labels, c, k - 1);
    }
}

/// Every kept match is one of the first `k`, and there are at most `k`.
pub proof fn lemma_kept_len(ms: Seq<Span>, labels: Seq<char>, c: char, k: int)
    requires
        k >= 0,
    ensures
        kept(ms, labels, c, k).len() <= k,
    decreases k,
{
    if k > 0 {
        lemma_kept_len(ms, labels, c, k - 1);
    }
}

/// Every kept match is one of the matches.
pub proof fn lemma_kept_within(ms: Seq<Span>, labels: Seq<char>, c: char, k: int)
    requires
        0 <= k <= ms.len(),
    ensures
        forall|x: Span| #[trigger] kept(ms, labels, c, k).contains(x) ==> ms.contains(x),
    decreases k,
{
    if k > 0 {
        lemma_kept_within(ms, labels, c, k - 1);
        let rest = kept(ms, labels, c, k - 1);
        assert forall|x: Span| #[trigger] kept(ms, labels, c, k).contains(x) implies ms.contains(x) by {
            if !rest.contains(x) {
                let i = choose|i: int| 0 <= i < kept(ms, labels, c, k).len() && kept(ms, labels, c, k)[i] == x;
                assert(kept(ms, labels, c, k)[i] == ms[k - 1]);
            }
        }
    }
}

} // verus!
