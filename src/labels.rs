use vstd::prelude::*;

verus! {

/// Number of letters that labels are drawn from.
pub const LETTERS: usize = 26;

/// The `i`-th lowercase ASCII letter.
pub open spec fn letter(i: int) -> char {
    ((97 + i) as u8) as char
}

/// How many letters serve as group prefixes for `n` labels: the
/// letters `a`, `b`, ... each stand for a run of 26 matches.
pub open spec fn groups(n: nat) -> nat {
    if n / 26 <= 26 { n / 26 } else { 26 }
}

/// Every label that `g` group prefixes give, before the cut.
pub open spec fn all_labels(g: nat) -> Seq<char> {
    Seq::new((26 - g) as nat, |i: int| letter(g + i)) + Seq::new(26 * g, |i: int| letter(i / 26))
}

/// The label sequence for `n` matches: the letters that are not group
/// prefixes, once each and in order, then every group prefix 26 times
/// in a row, the whole cut to at most `n` labels.
pub open spec fn label_seq(n: nat) -> Seq<char> {
    let full = all_labels(groups(n));
    if full.len() <= n { full } else { full.take(n as int) }
}

/// There are never more labels than matches.
pub proof fn lemma_label_len(n: nat)
    ensures
        label_seq(n).len() <= n,
{
}

/// Different letters are different characters.
pub proof fn lemma_letter_injective(a: int, b: int)
    requires
        0 <= a < 26,
        0 <= b < 26,
        letter(a) == letter(b),
    ensures
        a == b,
{
    assert(((97 + a) as u8) as char == ((97 + b) as u8) as char);
    assert((((97 + a) as u8) as char) as u32 == (97 + a) as u8);
    assert((((97 + b) as u8) as char) as u32 == (97 + b) as u8);
}

/// As long as `n % 26 + n / 26` stays within 26, there is a label for
/// every one of `n` matches. Past that the scheme runs out of labels:
/// with 77 matches only 76 are labelled.
pub proof fn lemma_labels_cover(n: nat)
    requires
        n % 26 + n / 26 <= 26,
    ensures
        label_seq(n).len() == n,
{
    let g = groups(n);
    assert(g == n / 26);
    assert(n == 26 * (n / 26) + n % 26);
    assert(n <= 26 + 25 * g) by (nonlinear_arith)
        requires n == 26 * g + n % 26, n % 26 + g <= 26;
    assert(all_labels(g).len() == 26 + 25 * g) by (nonlinear_arith)
        requires all_labels(g).len() == (26 - g) + 26 * g, g <= 26;
}

/// Up to 26 matches, the labels are pairwise distinct: each is typed
/// once to pick its match.
pub proof fn lemma_labels_distinct(n: nat)
    requires
        n <= 26,
    ensures
        label_seq(n).len() == n,
        forall|i: int, j: int| 0 <= i < j < n ==> label_seq(n)[i] != label_seq(n)[j],
{
    lemma_labels_cover(n);
    let g = groups(n);
    assert forall|i: int, j: int| 0 <= i < j < n implies label_seq(n)[i] != label_seq(n)[j] by {
        if label_seq(n)[i] == label_seq(n)[j] {
            if n < 26 {
                assert(g == 0);
                lemma_letter_injective(i, j);
            } else {
                assert(g == 1);
                if j < 25 {
                    lemma_letter_injective(1 + i, 1 + j);
                } else {
                    assert(label_seq(n)[j] == letter(0));
                    lemma_letter_injective(1 + i, 0);
                }
            }
        }
    }
}

/// Labels that are alike stand together: whatever lies between two
/// equal labels is the same label again.
pub proof fn lemma_groups_contiguous(n: nat)
    ensures
        forall|i: int, j: int, k: int|
            0 <= i < j < k < label_seq(n).len() && label_seq(n)[i] == label_seq(n)[k]
                ==> label_seq(n)[j] == label_seq(n)[i],
{
    let g = groups(n);
    let s = 26 - g;
    let l = label_seq(n);
    assert forall|i: int, j: int, k: int|
        0 <= i < j < k < l.len() && l[i] == l[k] implies l[j] == l[i] by {
        assert(all_labels(g).len() == 26 + 25 * g) by (nonlinear_arith)
            requires all_labels(g).len() == (26 - g) + 26 * g, g <= 26;
        assert(k < all_labels(g).len());
        if i < s {
            if k < s {
                lemma_letter_injective(g + i, g + k);
            } else {
                assert((k - s) / 26 < g) by (nonlinear_arith)
                    requires k - s < 26 * g, k >= s;
                lemma_letter_injective(g + i, (k - s) / 26);
            }
        } else {
            assert((k - s) / 26 < g) by (nonlinear_arith)
                requires k - s < 26 * g, k >= s;
            assert((i - s) / 26 <= (k - s) / 26) by (nonlinear_arith)
                requires i <= k, i >= s;
            lemma_letter_injective((i - s) / 26, (k - s) / 26);
            assert((i - s) / 26 <= (j - s) / 26 <= (k - s) / 26) by (nonlinear_arith)
                requires i <= j <= k, i >= s;
        }
    }
}

/// From two matches on, the first and the last label differ: no label
/// is borne by every match.
pub proof fn lemma_labels_vary(n: nat)
    requires
        n >= 2,
    ensures
        label_seq(n).len() >= 2,
        label_seq(n)[0] != label_seq(n)[label_seq(n).len() - 1],
{
    let g = groups(n);
    let s = 26 - g;
    let l = label_seq(n);
    let full = all_labels(g);
    assert(full.len() == 26 + 25 * g) by (nonlinear_arith)
        requires full.len() == (26 - g) + 26 * g, g <= 26;
    let last = l.len() - 1;
    if g == 0 {
        assert(n < 26);
        if l[0] == l[last] {
            lemma_letter_injective(0, last);
        }
    } else if g < 26 {
        assert(n >= 26 * g) by (nonlinear_arith)
            requires g == n / 26;
        assert(l[0] == letter(g as int));
        assert(last >= s);
        assert((last - s) / 26 < g) by (nonlinear_arith)
            requires last - s < 26 * g, last >= s;
        assert(l[last] == letter((last - s) / 26));
        if l[0] == l[last] {
            lemma_letter_injective(g as int, (last - s) / 26);
        }
    } else {
        assert(n >= 676);
        assert(l.len() == 676);
        assert(l[0] == letter(0));
        assert(l[675] == letter(25));
        if l[0] == l[last] {
            lemma_letter_injective(0, 25);
        }
    }
}

/// The `i`-th letter, computed.
fn letter_at(i: usize) -> (c: char)
    requires
        i < 26,
    ensures
        c == letter(i as int),
{
    ((97 + i) as u8) as char
}

/// The labels shown over `total` matches, in match order.
///
/// With up to 26 matches every label is a distinct letter taken from
/// the end of the alphabet. Past that, the first letters become group
/// prefixes: each covers 26 matches, and typing it narrows the matches
/// down to its group. The sequence is never longer than `total`; it is
/// shorter when `total` is more than the scheme can cover.
pub fn generate_labels(total: usize) -> (r: Vec<char>)
    ensures
        r@ == label_seq(total as nat),
{
    let multiple: usize = if total / LETTERS <= LETTERS { total / LETTERS } else { LETTERS };
    let ghost g = groups(total as nat);
    let ghost full = all_labels(g);
    let mut r: Vec<char> = Vec::new();
    let mut i: usize = multiple;
    assert(g <= 26);
    assert(full.len() == 26 + 25 * g) by (nonlinear_arith)
        requires full.len() == (26 - g) + 26 * g, g <= 26;
    while i < LETTERS && r.len() < total
        invariant
            multiple == g,
            g <= 26,
            full.len() == 26 + 25 * g,
            forall|j: int| 0 <= j < 26 - g ==> #[trigger] full[j] == letter(g + j),
            g <= i <= 26,
            r.len() <= total,
            r@.len() == i - g || r@.len() == total,
            r@.len() <= full.len(),
            r@ =~= full.take(r@.len() as int),
        decreases 26 - i,
    {
        let c = letter_at(i);
        assert(full[r@.len() as int] == c);
        r.push(c);
        i = i + 1;
    }
    let mut k: usize = 0;
    let bound: usize = 26 * multiple;
    while k < bound && r.len() < total
        invariant
            multiple == g,
            g <= 26,
            bound == 26 * g,
            full.len() == 26 + 25 * g,
            forall|j: int| 26 - g <= j < full.len() ==> #[trigger] full[j] == letter((j - (26 - g)) / 26),
            k <= 26 * g,
            r.len() <= total,
            r@.len() == 26 - g + k || r@.len() == total,
            r@.len() <= full.len(),
            r@ =~= full.take(r@.len() as int),
        decreases 26 * g - k,
    {
        assert(k / 26 < g) by (nonlinear_arith)
            requires k < 26 * g;
        let c = letter_at(k / LETTERS);
        assert(full[r@.len() as int] == c);
        r.push(c);
        k = k + 1;
    }
    assert(r@.len() == total || r@.len() == full.len());
    assert(full.take(full.len() as int) =~= full);
    r
}

} // verus!
