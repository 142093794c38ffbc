//! Drawing new rectangle dimensions: a pair (width, height) taken uniformly
//! among the pairs of a box that are not used yet.
//!
//! The pairs of the box `1..=w` × `lo..=hi` are numbered row by row; the
//! numbers of the used pairs are kept in a strictly increasing list, so that
//! the `r`-th unused pair can be found without retrying.
//!
//! A hash set of the used pairs would tell whether a pair is used, but not
//! which pair is the `r`-th unused one: with it, a pair would be drawn again
//! until an unused one comes up, a loop with no bound on its number of
//! rounds. The sorted list gives that pair in one pass, and each unused pair
//! is the outcome of exactly one `r`, so the draw stays uniform.
use vstd::prelude::*;
use vstd::arithmetic::div_mod::{lemma_fundamental_div_mod, lemma_fundamental_div_mod_converse};
use rand::rngs::ThreadRng;
use crate::random::random_u64_below;

verus! {

pub open spec fn in_box(p: (i32, i32), w: int, lo: int, hi: int) -> bool {
    1 <= p.0 <= w && lo <= p.1 <= hi
}

/// The number of a pair of the box whose rows hold `h` heights from `lo` on.
pub open spec fn box_index(p: (i32, i32), lo: int, h: int) -> int {
    (p.0 - 1) * h + (p.1 - lo)
}

pub open spec fn strictly_sorted(s: Seq<u64>) -> bool {
    forall|i: int, j: int| 0 <= i < j < s.len() ==> s[i] < s[j]
}

/// Two pairs of a box with the same number are the same pair.
pub proof fn lemma_box_index_injective(p: (i32, i32), q: (i32, i32), w: int, lo: int, hi: int)
    requires
        in_box(p, w, lo, hi),
        in_box(q, w, lo, hi),
        box_index(p, lo, hi - lo + 1) == box_index(q, lo, hi - lo + 1),
    ensures
        p == q,
{
    let h = hi - lo + 1;
    let x = box_index(p, lo, h);
    lemma_fundamental_div_mod_converse(x, h, p.0 - 1, p.1 - lo);
    lemma_fundamental_div_mod_converse(x, h, q.0 - 1, q.1 - lo);
}

proof fn lemma_decode(c: int, w: int, h: int)
    requires
        0 <= c < w * h,
        h >= 1,
    ensures
        0 <= c / h < w,
        0 <= c % h < h,
        c == (c / h) * h + c % h,
{
    lemma_fundamental_div_mod(c, h);
    let q = c / h;
    let r = c % h;
    assert(0 <= r < h) by {
        vstd::arithmetic::div_mod::lemma_mod_pos_bound(c, h);
    }
    assert(q * h == h * q) by (nonlinear_arith);
    assert(0 <= q < w) by (nonlinear_arith)
        requires
            c == h * q + r,
            0 <= r < h,
            0 <= c < w * h,
            h >= 1,
    ;
}

/// Inserts `x`, which is not in `v`, into the strictly increasing list `v`.
pub fn insert_sorted(v: &mut Vec<u64>, x: u64)
    requires
        strictly_sorted(old(v)@),
        !old(v)@.contains(x),
    ensures
        strictly_sorted(final(v)@),
        final(v)@.len() == old(v)@.len() + 1,
        forall|e: u64| #[trigger] final(v)@.contains(e) <==> (old(v)@.contains(e) || e == x),
{
    let mut p: usize = 0;
    while p < v.len() && v[p] < x
        invariant
            p <= v.len(),
            forall|i: int| 0 <= i < p ==> v@[i] < x,
        decreases v.len() - p,
    {
        p += 1;
    }
    let ghost old_v = v@;
    if p < v.len() {
        assert(v@[p as int] != x) by {
            if v@[p as int] == x {
                assert(old_v.contains(x));
            }
        }
    }
    v.insert(p, x);
    assert forall|e: u64| #[trigger] v@.contains(e) <==> (old_v.contains(e) || e == x) by {
        if v@.contains(e) {
            let k = choose|k: int| 0 <= k < v@.len() && v@[k] == e;
            if k < p {
                assert(old_v[k] == e);
            } else if k > p {
                assert(old_v[k - 1] == e);
            }
        }
        if old_v.contains(e) {
            let k = choose|k: int| 0 <= k < old_v.len() && old_v[k] == e;
            if k < p {
                assert(v@[k] == e);
            } else {
                assert(v@[k + 1] == e);
            }
        }
        if e == x {
            assert(v@[p as int] == x);
        }
    }
}

/// How many elements of `s` are below `c`.
pub open spec fn count_below(s: Seq<u64>, c: int) -> nat
    decreases s.len(),
{
    if s.len() == 0 {
        0
    } else {
        count_below(s.drop_last(), c) + if s.last() < c { 1nat } else { 0nat }
    }
}

proof fn lemma_count_below_step(s: Seq<u64>, c: int)
    requires
        !s.contains(c as u64),
        0 <= c,
    ensures
        count_below(s, c + 1) == count_below(s, c),
    decreases s.len(),
{
    if s.len() > 0 {
        assert(s.drop_last().contains(c as u64) ==> s.contains(c as u64));
        lemma_count_below_step(s.drop_last(), c);
    }
}

/// The `r`-th number, counted from zero, that is not in the strictly
/// increasing list `v`: it is not in `v`, and exactly `r` of the numbers
/// below it are not in `v` either.
pub fn nth_unused(v: &Vec<u64>, r: u64) -> (c: u64)
    requires
        strictly_sorted(v@),
        r + v@.len() <= u64::MAX,
    ensures
        !v@.contains(c),
        c == r + count_below(v@, c as int),
        r <= c <= r + v@.len(),
{
    let mut c = r;
    let mut i: usize = 0;
    while i < v.len()
        invariant
            i <= v.len(),
            strictly_sorted(v@),
            r + v@.len() <= u64::MAX,
            r <= c <= r + i,
            c == r + count_below(v@.take(i as int), c as int),
            forall|j: int| 0 <= j < i ==> v@[j] != c,
            i > 0 && v@[i - 1] > c ==> forall|j: int| i <= j < v@.len() ==> v@[j] > c,
        decreases v.len() - i,
    {
        let ghost before = v@.take(i as int);
        assert(v@.take(i + 1).drop_last() =~= before);
        if v[i] <= c {
            proof {
                assert(!before.contains(c)) by {
                    if before.contains(c) {
                        let k = choose|k: int| 0 <= k < before.len() && before[k] == c;
                        assert(v@[k] == c);
                    }
                }
                lemma_count_below_step(before, c as int);
            }
            c = c + 1;
        }
        i += 1;
    }
    assert(v@.take(v@.len() as int) =~= v@);
    assert forall|j: int| 0 <= j < v@.len() implies v@[j] != c by {}
    c
}

/// Draws a pair of the box `1..=w` × `lo..=hi` whose number is not in the
/// list `used`, which holds the numbers of the used pairs of the box; each
/// unused pair is equally likely. There must be an unused pair.
pub fn draw_unused_pair(rng: &mut ThreadRng, used: &Vec<u64>, w: i32, lo: i32, hi: i32) -> (p: (
    i32,
    i32,
))
    requires
        w >= 1,
        lo <= hi,
        strictly_sorted(used@),
        used@.len() < w * (hi - lo + 1),
    ensures
        in_box(p, w as int, lo as int, hi as int),
        !used@.contains(box_index(p, lo as int, hi - lo + 1) as u64),
{
    let h: u64 = (hi as i64 - lo as i64 + 1) as u64;
    assert(w * h <= 0x7fff_ffff_ffff_ffff) by (nonlinear_arith)
        requires
            1 <= w <= 0x7fff_ffff,
            1 <= h <= 0x1_0000_0000,
    ;
    let size: u64 = (w as u64) * h;
    let free: u64 = size - used.len() as u64;
    let r = random_u64_below(rng, free);
    let c = nth_unused(used, r);
    proof {
        lemma_decode(c as int, w as int, h as int);
    }
    let x: i32 = (c / h + 1) as i32;
    let y: i32 = ((c % h) as i64 + lo as i64) as i32;
    assert(box_index((x, y), lo as int, hi - lo + 1) == c);
    (x, y)
}

} // verus!
