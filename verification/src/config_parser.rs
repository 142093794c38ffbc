//! Turning the read input form into a test case, filling in random
//! rectangles when autofill is on.
//!
//! The (width, height) pairs already in use form a set. It is held twice:
//! as a list without repeats, in the order in which the pairs first appear,
//! and as the strictly increasing list of their numbers in the box that new
//! pairs are drawn from. New pairs are drawn as the `r`-th unused number of
//! that box (see `sampling`), which needs the used numbers in order; a hash
//! set gives no order, and drawing until an unused pair comes up has no
//! bound on its number of rounds.
use vstd::prelude::*;
use rand::rngs::ThreadRng;
use crate::random::{random_i32_inclusive, random_usize_below, thread_rng};
use crate::sampling::{
    box_index, draw_unused_pair, in_box, insert_sorted, lemma_box_index_injective,
    strictly_sorted,
};
use crate::types::{
    lemma_quantity_total_push, lemma_quantity_total_update, quantity_total, JsonInput,
    ParseOutput, Rectangle,
};

verus! {

pub open spec fn dims(r: Rectangle) -> (i32, i32) {
    (r.width, r.height)
}

/// The (width, height) pairs of a list of rectangle types, each once, in
/// the order of their first appearance.
pub open spec fn distinct_dims(s: Seq<Rectangle>) -> Seq<(i32, i32)>
    decreases s.len(),
{
    if s.len() == 0 {
        Seq::empty()
    } else {
        let d = distinct_dims(s.drop_last());
        if d.contains(dims(s.last())) {
            d
        } else {
            d.push(dims(s.last()))
        }
    }
}

/// How many of the pairs `d` lie in the box `1..=w` × `lo..=hi`.
pub open spec fn in_box_count(d: Seq<(i32, i32)>, w: int, lo: int, hi: int) -> int
    decreases d.len(),
{
    if d.len() == 0 {
        0
    } else {
        in_box_count(d.drop_last(), w, lo, hi) + if in_box(d.last(), w, lo, hi) {
            1int
        } else {
            0int
        }
    }
}

/// The sum of the quantities of the first `i` types.
pub open spec fn prefix_total(s: Seq<Rectangle>, i: int) -> int {
    quantity_total(s.take(i))
}

/// How many new rectangle types autofill adds.
pub open spec fn types_to_add(input: ParseOutput) -> int {
    if input.autofill && input.types != -1 && input.types - input.input_types > 0 {
        input.types - input.input_types
    } else {
        0
    }
}

/// How many rectangles autofill spreads over the types after adding the new
/// types.
pub open spec fn rects_to_spread(input: ParseOutput) -> int {
    let n0 = if input.quantity != -1 {
        input.quantity - quantity_total(input.rects@)
    } else {
        0
    };
    let n1 = n0 - types_to_add(input);
    if input.autofill && n1 > 0 {
        n1
    } else {
        0
    }
}

pub open spec fn in_i32(v: int) -> bool {
    i32::MIN <= v <= i32::MAX
}

/// The inputs on which `create_input` neither overflows, nor panics, nor
/// runs forever, whatever it draws.
pub open spec fn create_input_feasible(input: ParseOutput) -> bool {
    let s = input.rects@;
    let kadd = types_to_add(input);
    let nadd = rects_to_spread(input);
    let total = quantity_total(s);
    &&& forall|i: int| 0 <= i <= s.len() ==> #[trigger] in_i32(prefix_total(s, i))
    &&& input.autofill ==> {
        &&& input.quantity != -1 ==> in_i32(input.quantity - total)
        &&& input.types != -1 ==> in_i32(input.types - input.input_types)
        &&& in_i32(
            (if input.quantity != -1 {
                input.quantity - total
            } else {
                0
            }) - kadd,
        )
    }
    &&& kadd > 0 ==> {
        &&& input.width >= 1
        &&& input.min_height <= input.max_height
        &&& input.width * (input.max_height - input.min_height + 1) - in_box_count(
            distinct_dims(s),
            input.width as int,
            input.min_height as int,
            input.max_height as int,
        ) >= kadd
        &&& 1 + nadd <= i32::MAX
    }
    &&& nadd > 0 ==> s.len() + kadd > 0
    &&& forall|i: int| 0 <= i < s.len() ==> #[trigger] s[i].quantity + nadd <= i32::MAX
    &&& forall|i: int| 0 <= i <= s.len() ==> #[trigger] prefix_total(s, i) + nadd <= i32::MAX
    &&& total + kadd + nadd <= i32::MAX
}

// ───────────────────────────── lemmas ─────────────────────────────

pub(crate) proof fn lemma_distinct_dims(s: Seq<Rectangle>)
    ensures
        forall|j: int| 0 <= j < s.len() ==> distinct_dims(s).contains(#[trigger] dims(s[j])),
        forall|q: (i32, i32)| #[trigger] distinct_dims(s).contains(q) ==> exists|j: int|
            0 <= j < s.len() && dims(s[j]) == q,
        distinct_dims(s).no_duplicates(),
    decreases s.len(),
{
    if s.len() > 0 {
        let p = s.drop_last();
        lemma_distinct_dims(p);
        let d = distinct_dims(p);
        assert forall|j: int| 0 <= j < s.len() implies distinct_dims(s).contains(
            #[trigger] dims(s[j]),
        ) by {
            if j < p.len() {
                assert(dims(p[j]) == dims(s[j]));
                assert(d.contains(dims(p[j])));
                if !d.contains(dims(s.last())) {
                    let k = choose|k: int| 0 <= k < d.len() && d[k] == dims(p[j]);
                    assert(d.push(dims(s.last()))[k] == dims(s[j]));
                }
            } else {
                if !d.contains(dims(s.last())) {
                    assert(d.push(dims(s.last()))[d.len() as int] == dims(s[j]));
                }
            }
        }
        assert forall|q: (i32, i32)| #[trigger] distinct_dims(s).contains(q) implies exists|j: int|
            0 <= j < s.len() && dims(s[j]) == q by {
            if d.contains(q) {
                let j = choose|j: int| 0 <= j < p.len() && dims(p[j]) == q;
                assert(dims(s[j]) == q);
            } else {
                let k = choose|k: int| 0 <= k < distinct_dims(s).len() && distinct_dims(s)[k] == q;
                assert(dims(s[s.len() - 1]) == q);
            }
        }
    }
}

pub(crate) proof fn lemma_distinct_dims_same(a: Seq<Rectangle>, b: Seq<Rectangle>)
    requires
        a.len() == b.len(),
        forall|i: int| 0 <= i < a.len() ==> dims(#[trigger] a[i]) == dims(b[i]),
    ensures
        distinct_dims(a) == distinct_dims(b),
    decreases a.len(),
{
    if a.len() > 0 {
        lemma_distinct_dims_same(a.drop_last(), b.drop_last());
        assert(dims(a[a.len() - 1]) == dims(b[b.len() - 1]));
    }
}

pub(crate) proof fn lemma_in_box_count_push(d: Seq<(i32, i32)>, q: (i32, i32), w: int, lo: int, hi: int)
    ensures
        in_box_count(d.push(q), w, lo, hi) == in_box_count(d, w, lo, hi) + if in_box(q, w, lo, hi) {
            1int
        } else {
            0int
        },
{
    assert(d.push(q).drop_last() == d);
}

proof fn lemma_prefix_total_step(s: Seq<Rectangle>, i: int)
    requires
        0 <= i < s.len(),
    ensures
        prefix_total(s, i + 1) == prefix_total(s, i) + s[i].quantity,
{
    assert(s.take(i + 1).drop_last() == s.take(i));
}

/// When every quantity of `a` is at least the one of `b`, each prefix of `a`
/// exceeds the prefix of `b` by at most the difference of the totals.
proof fn lemma_prefix_gap(a: Seq<Rectangle>, b: Seq<Rectangle>, i: int)
    requires
        a.len() == b.len(),
        0 <= i <= a.len(),
        forall|j: int| 0 <= j < a.len() ==> #[trigger] a[j].quantity >= b[j].quantity,
    ensures
        0 <= prefix_total(a, i) - prefix_total(b, i) <= quantity_total(a) - quantity_total(b),
    decreases a.len() - i,
{
    if i == a.len() {
        assert(a.take(i) == a);
        assert(b.take(i) == b);
        lemma_prefix_gap_low(a, b, i);
    } else {
        lemma_prefix_gap(a, b, i + 1);
        lemma_prefix_total_step(a, i);
        lemma_prefix_total_step(b, i);
        lemma_prefix_gap_low(a, b, i);
    }
}

proof fn lemma_prefix_gap_low(a: Seq<Rectangle>, b: Seq<Rectangle>, i: int)
    requires
        a.len() == b.len(),
        0 <= i <= a.len(),
        forall|j: int| 0 <= j < a.len() ==> #[trigger] a[j].quantity >= b[j].quantity,
    ensures
        prefix_total(a, i) >= prefix_total(b, i),
    decreases i,
{
    if i > 0 {
        lemma_prefix_gap_low(a, b, i - 1);
        lemma_prefix_total_step(a, i - 1);
        lemma_prefix_total_step(b, i - 1);
    } else {
        assert(a.take(0) =~= Seq::<Rectangle>::empty());
        assert(b.take(0) =~= Seq::<Rectangle>::empty());
    }
}

// ───────────────────────────── building blocks ─────────────────────────────

/// The sum of the quantities, when every partial sum fits in an `i32`.
fn sum_quantities(s: &Vec<Rectangle>) -> (t: i32)
    requires
        forall|i: int| 0 <= i <= s@.len() ==> #[trigger] in_i32(prefix_total(s@, i)),
    ensures
        t == quantity_total(s@),
{
    let mut t: i32 = 0;
    let mut i: usize = 0;
    assert(s@.take(0) =~= Seq::<Rectangle>::empty());
    while i < s.len()
        invariant
            i <= s.len(),
            forall|k: int| 0 <= k <= s@.len() ==> #[trigger] in_i32(prefix_total(s@, k)),
            t == prefix_total(s@, i as int),
        decreases s.len() - i,
    {
        proof {
            lemma_prefix_total_step(s@, i as int);
            assert(in_i32(prefix_total(s@, i + 1)));
        }
        t = t + s[i].quantity;
        i += 1;
    }
    assert(s@.take(s.len() as int) == s@);
    t
}

/// The distinct (width, height) pairs of a list of rectangle types.
fn distinct_dims_exec(s: &Vec<Rectangle>) -> (d: Vec<(i32, i32)>)
    ensures
        d@ == distinct_dims(s@),
{
    let mut d: Vec<(i32, i32)> = Vec::new();
    let mut i: usize = 0;
    assert(s@.take(0) =~= Seq::<Rectangle>::empty());
    while i < s.len()
        invariant
            i <= s.len(),
            d@ == distinct_dims(s@.take(i as int)),
        decreases s.len() - i,
    {
        let p = (s[i].width, s[i].height);
        assert(s@.take(i + 1).drop_last() == s@.take(i as int));
        if !contains_pair(&d, p) {
            d.push(p);
        }
        i += 1;
    }
    assert(s@.take(s.len() as int) == s@);
    d
}

fn contains_pair(d: &Vec<(i32, i32)>, p: (i32, i32)) -> (r: bool)
    ensures
        r == d@.contains(p),
{
    let mut i: usize = 0;
    while i < d.len()
        invariant
            i <= d.len(),
            forall|k: int| 0 <= k < i ==> d@[k] != p,
        decreases d.len() - i,
    {
        if d[i].0 == p.0 && d[i].1 == p.1 {
            return true;
        }
        i += 1;
    }
    false
}

/// The number of the pair `p` of the box `1..=w` × `lo..=hi`.
pub(crate) fn box_index_exec(p: (i32, i32), w: i32, lo: i32, hi: i32) -> (c: u64)
    requires
        in_box(p, w as int, lo as int, hi as int),
    ensures
        c == box_index(p, lo as int, hi - lo + 1),
        c < w * (hi - lo + 1),
{
    let h: u64 = (hi as i64 - lo as i64 + 1) as u64;
    let a: u64 = (p.0 - 1) as u64;
    let b: u64 = (p.1 as i64 - lo as i64) as u64;
    assert(a * h + b < w * h) by (nonlinear_arith)
        requires
            0 <= a < w,
            0 <= b < h,
            1 <= w,
    ;
    assert(w * h <= 0x7fff_ffff_ffff_ffff) by (nonlinear_arith)
        requires
            1 <= w <= 0x7fff_ffff,
            1 <= h <= 0x1_0000_0000,
    ;
    a * h + b
}

/// The list `used` holds the numbers of exactly the pairs of `d` that lie in
/// the box, in increasing order.
pub open spec fn used_matches(used: Seq<u64>, d: Seq<(i32, i32)>, w: int, lo: int, hi: int) -> bool {
    &&& strictly_sorted(used)
    &&& used.len() == in_box_count(d, w, lo, hi)
    &&& forall|q: (i32, i32)| #[trigger] d.contains(q) && in_box(q, w, lo, hi) ==> used.contains(
        box_index(q, lo, hi - lo + 1) as u64,
    )
    &&& forall|e: u64| #[trigger] used.contains(e) ==> exists|q: (i32, i32)|
        d.contains(q) && in_box(q, w, lo, hi) && box_index(q, lo, hi - lo + 1) == e
}

/// Adds the number of a new pair `q` of `d` to the list, when it lies in the
/// box.
pub(crate) proof fn lemma_used_matches_push(
    used: Seq<u64>,
    new_used: Seq<u64>,
    d: Seq<(i32, i32)>,
    q: (i32, i32),
    w: int,
    lo: int,
    hi: int,
)
    requires
        used_matches(used, d, w, lo, hi),
        !d.contains(q),
        in_box(q, w, lo, hi) ==> {
            &&& strictly_sorted(new_used)
            &&& new_used.len() == used.len() + 1
            &&& forall|e: u64| #[trigger] new_used.contains(e) <==> (used.contains(e) || e == box_index(q, lo, hi - lo + 1) as u64)
        },
        !in_box(q, w, lo, hi) ==> new_used == used,
        in_box(q, w, lo, hi) ==> 0 <= box_index(q, lo, hi - lo + 1) <= u64::MAX,
    ensures
        used_matches(new_used, d.push(q), w, lo, hi),
{
    lemma_in_box_count_push(d, q, w, lo, hi);
    let d2 = d.push(q);
    assert forall|r: (i32, i32)| #[trigger] d2.contains(r) && in_box(r, w, lo, hi) implies new_used.contains(
        box_index(r, lo, hi - lo + 1) as u64,
    ) by {
        let k = choose|k: int| 0 <= k < d2.len() && d2[k] == r;
        if k < d.len() {
            assert(d.contains(r));
        }
    }
    assert forall|e: u64| #[trigger] new_used.contains(e) implies exists|r: (i32, i32)|
        d2.contains(r) && in_box(r, w, lo, hi) && box_index(r, lo, hi - lo + 1) == e by {
        if used.contains(e) {
            let r = choose|r: (i32, i32)| d.contains(r) && in_box(r, w, lo, hi) && box_index(r, lo, hi - lo + 1) == e;
            let k = choose|k: int| 0 <= k < d.len() && d[k] == r;
            assert(d2[k] == r);
            assert(d2.contains(r));
            assert(d2.contains(r) && in_box(r, w, lo, hi) && box_index(r, lo, hi - lo + 1) == e);
        } else {
            assert(in_box(q, w, lo, hi));
            assert(e == box_index(q, lo, hi - lo + 1) as u64);
            assert(box_index(q, lo, hi - lo + 1) == e);
            assert(d2[d.len() as int] == q);
            assert(d2.contains(q));
            assert(d2.contains(q) && in_box(q, w, lo, hi) && box_index(q, lo, hi - lo + 1) == e);
        }
    }
}

/// The numbers of the pairs of `d`, which holds no pair twice, that lie in
/// the box.
fn used_in_box(d: &Vec<(i32, i32)>, w: i32, lo: i32, hi: i32) -> (used: Vec<u64>)
    requires
        d@.no_duplicates(),
        w >= 1,
        lo <= hi,
    ensures
        used_matches(used@, d@, w as int, lo as int, hi as int),
{
    let mut used: Vec<u64> = Vec::new();
    let mut i: usize = 0;
    assert(d@.take(0) =~= Seq::<(i32, i32)>::empty());
    while i < d.len()
        invariant
            i <= d.len(),
            d@.no_duplicates(),
            w >= 1,
            lo <= hi,
            used_matches(used@, d@.take(i as int), w as int, lo as int, hi as int),
        decreases d.len() - i,
    {
        let q = d[i];
        let ghost pre = d@.take(i as int);
        let ghost old_used = used@;
        assert(d@.take(i + 1) == pre.push(q));
        assert(!pre.contains(q)) by {
            if pre.contains(q) {
                let k = choose|k: int| 0 <= k < pre.len() && pre[k] == q;
                assert(d@[k] == d@[i as int]);
            }
        }
        if 1 <= q.0 && q.0 <= w && lo <= q.1 && q.1 <= hi {
            let c = box_index_exec(q, w, lo, hi);
            assert(!used@.contains(c)) by {
                if used@.contains(c) {
                    let r = choose|r: (i32, i32)| pre.contains(r) && in_box(r, w as int, lo as int, hi as int) && box_index(r, lo as int, hi - lo + 1) == c;
                    lemma_box_index_injective(r, q, w as int, lo as int, hi as int);
                }
            }
            insert_sorted(&mut used, c);
        }
        proof {
            lemma_used_matches_push(old_used, used@, pre, q, w as int, lo as int, hi as int);
        }
        i += 1;
    }
    assert(d@.take(d.len() as int) == d@);
    used
}

/// A copy of a list of rectangle types.
pub fn copy_rects(v: &Vec<Rectangle>) -> (r: Vec<Rectangle>)
    ensures
        r@ == v@,
{
    let mut r: Vec<Rectangle> = Vec::new();
    let mut i: usize = 0;
    while i < v.len()
        invariant
            i <= v.len(),
            r@ == v@.take(i as int),
        decreases v.len() - i,
    {
        r.push(v[i]);
        i += 1;
        assert(r@ =~= v@.take(i as int));
    }
    assert(v@.take(v.len() as int) == v@);
    r
}

/// The prefixes of a list that continues `s` with types of quantity one.
proof fn lemma_prefix_of_extension(s: Seq<Rectangle>, base: Seq<Rectangle>, i: int)
    requires
        s.len() <= i <= base.len(),
        forall|j: int| 0 <= j < s.len() ==> #[trigger] base[j] == s[j],
        forall|j: int| s.len() <= j < base.len() ==> #[trigger] base[j].quantity == 1,
    ensures
        prefix_total(base, i) == quantity_total(s) + (i - s.len()),
    decreases i,
{
    if i == s.len() {
        assert(base.take(i) =~= s);
    } else {
        lemma_prefix_of_extension(s, base, i - 1);
        lemma_prefix_total_step(base, i - 1);
    }
}

/// What `create_input` gives for `input`, whatever it draws: the bin width
/// and the autofill switch are kept; the given types come first, with their
/// dimensions and at least their quantities; then come the new types, each
/// with dimensions in the box `1..=width` × `min_height..=max_height` that no
/// earlier type has, and a quantity of at least one; the total is the given
/// total plus the new types plus the rectangles spread over the types; the
/// number of types counts the distinct dimensions; without autofill the list
/// is the given one.
pub open spec fn create_input_result(input: ParseOutput, out: JsonInput) -> bool {
    let s = input.rects@;
    let o = out.rectangle_list@;
    let kadd = types_to_add(input);
    let nadd = rects_to_spread(input);
    &&& out.width_of_bin == input.width
    &&& out.autofill_option == input.autofill
    &&& o.len() == s.len() + kadd
    &&& forall|i: int| 0 <= i < s.len() ==> dims(#[trigger] o[i]) == dims(s[i]) && o[i].quantity >= s[i].quantity
    &&& forall|i: int| s.len() <= i < o.len() ==> in_box(dims(#[trigger] o[i]), input.width as int, input.min_height as int, input.max_height as int) && o[i].quantity >= 1
    &&& forall|i: int, j: int| 0 <= j < i < o.len() && i >= s.len() ==> dims(#[trigger] o[j]) != dims(#[trigger] o[i])
    &&& quantity_total(o) == quantity_total(s) + kadd + nadd
    &&& out.number_of_rectangles == (quantity_total(s) + kadd + nadd) as usize
    &&& out.number_of_types_of_rectangles == distinct_dims(o).len()
    &&& !input.autofill ==> o == s
}

/// Builds the test case of a read input form. Without autofill it holds the
/// rectangle types as given. With autofill, when a number of types was asked
/// for and more are needed, new types of quantity one are added, each with
/// dimensions drawn among the unused pairs of the box `1..=width` ×
/// `min_height..=max_height`; then, when a number of rectangles was asked
/// for and more are needed, the missing rectangles are spread over randomly
/// chosen types in random amounts until the count is reached.
pub fn create_input(input: &ParseOutput) -> (out: JsonInput)
    requires
        create_input_feasible(*input),
    ensures
        create_input_result(*input, out),
{
    let ghost s = input.rects@;
    let ghost kadd = types_to_add(*input);
    let ghost nadd = rects_to_spread(*input);
    let ghost w = input.width as int;
    let ghost lo = input.min_height as int;
    let ghost hi = input.max_height as int;
    let mut rect_set = distinct_dims_exec(&input.rects);
    let mut final_list = copy_rects(&input.rects);
    let mut rng = thread_rng();
    proof {
        lemma_distinct_dims(s);
        assert(s.take(s.len() as int) == s);
    }
    if input.autofill {
        let current_n = sum_quantities(&final_list);
        let mut k_delta: i32 = if input.types != -1 {
            input.types - input.input_types
        } else {
            0
        };
        let mut n_delta: i32 = if input.quantity != -1 {
            input.quantity - current_n
        } else {
            0
        };
        let ghost n0 = n_delta as int;
        if input.types != -1 && k_delta > 0 {
            let ghost base_count = in_box_count(distinct_dims(s), w, lo, hi);
            let mut used = used_in_box(&rect_set, input.width, input.min_height, input.max_height);
            while k_delta > 0
                invariant
                    kadd == types_to_add(*input),
                    kadd > 0,
                    0 <= k_delta <= kadd,
                    n_delta == n0 - (kadd - k_delta),
                    in_i32(n0 - kadd),
                    input.width >= 1,
                    input.min_height <= input.max_height,
                    w == input.width,
                    lo == input.min_height,
                    hi == input.max_height,
                    s == input.rects@,
                    w * (hi - lo + 1) - base_count >= kadd,
                    final_list@.len() == s.len() + (kadd - k_delta),
                    forall|i: int| 0 <= i < s.len() ==> #[trigger] final_list@[i] == s[i],
                    forall|i: int| s.len() <= i < final_list@.len() ==> in_box(dims(#[trigger] final_list@[i]), w, lo, hi) && final_list@[i].quantity == 1,
                    forall|i: int, j: int| 0 <= j < i < final_list@.len() && i >= s.len() ==> dims(#[trigger] final_list@[j]) != dims(#[trigger] final_list@[i]),
                    quantity_total(final_list@) == quantity_total(s) + (kadd - k_delta),
                    rect_set@ == distinct_dims(final_list@),
                    used_matches(used@, rect_set@, w, lo, hi),
                    in_box_count(rect_set@, w, lo, hi) == base_count + (kadd - k_delta),
                decreases k_delta,
            {
                let (x, y) = draw_unused_pair(&mut rng, &used, input.width, input.min_height, input.max_height);
                let ghost p = (x, y);
                let ghost old_list = final_list@;
                let ghost old_used = used@;
                proof {
                    lemma_distinct_dims(old_list);
                    assert(!rect_set@.contains(p));
                    assert forall|j: int| 0 <= j < old_list.len() implies dims(#[trigger] old_list[j]) != p by {
                        assert(rect_set@.contains(dims(old_list[j])));
                    }
                }
                k_delta -= 1;
                n_delta -= 1;
                let r = Rectangle { width: x, height: y, quantity: 1 };
                final_list.push(r);
                proof {
                    lemma_quantity_total_push(old_list, r);
                    assert(final_list@.drop_last() == old_list);
                }
                let c = box_index_exec((x, y), input.width, input.min_height, input.max_height);
                insert_sorted(&mut used, c);
                proof {
                    lemma_used_matches_push(old_used, used@, rect_set@, p, w, lo, hi);
                    lemma_in_box_count_push(rect_set@, p, w, lo, hi);
                }
                rect_set.push((x, y));
            }
        }
        let ghost base = final_list@;
        let ghost n1 = n_delta as int;
        assert(forall|i: int| 0 <= i < s.len() ==> #[trigger] base[i] == s[i]);
        while n_delta > 0
            invariant
                n1 == n0 - kadd,
                nadd == (if n1 > 0 { n1 } else { 0 }),
                n_delta <= n1,
                n1 > 0 ==> n_delta >= 0,
                n1 <= 0 ==> n_delta == n1,
                s == input.rects@,
                kadd == types_to_add(*input),
                base.len() == s.len() + kadd,
                forall|i: int| 0 <= i < s.len() ==> #[trigger] base[i] == s[i],
                forall|i: int| s.len() <= i < base.len() ==> #[trigger] base[i].quantity == 1,
                kadd > 0 ==> 1 + nadd <= i32::MAX,
                forall|i: int| 0 <= i < s.len() ==> #[trigger] s[i].quantity + nadd <= i32::MAX,
                nadd > 0 ==> s.len() + kadd > 0,
                final_list@.len() == base.len(),
                forall|i: int| 0 <= i < base.len() ==> dims(#[trigger] final_list@[i]) == dims(base[i]),
                forall|i: int| 0 <= i < base.len() ==> #[trigger] final_list@[i].quantity >= base[i].quantity,
                forall|i: int| 0 <= i < base.len() ==> #[trigger] final_list@[i].quantity - base[i].quantity <= n1 - n_delta,
                quantity_total(final_list@) == quantity_total(base) + (n1 - n_delta),
            decreases n_delta,
        {
            let idx = random_usize_below(&mut rng, final_list.len());
            let top = if n_delta > 1 {
                n_delta
            } else {
                1
            };
            let add = random_i32_inclusive(&mut rng, 1, top);
            let old_r = final_list[idx];
            let ghost old_list = final_list@;
            assert(old_r.quantity + add <= i32::MAX) by {
                if idx < s.len() {
                    assert(base[idx as int] == s[idx as int]);
                } else {
                    assert(base[idx as int].quantity == 1);
                }
            }
            let nr = Rectangle { width: old_r.width, height: old_r.height, quantity: old_r.quantity + add };
            final_list.set(idx, nr);
            proof {
                lemma_quantity_total_update(old_list, idx as int, nr);
            }
            n_delta -= add;
        }
        assert(quantity_total(final_list@) == quantity_total(base) + nadd);
        proof {
            assert(forall|i: int| 0 <= i < base.len() ==> #[trigger] final_list@[i].quantity >= base[i].quantity);
            assert forall|i: int| 0 <= i <= final_list@.len() implies #[trigger] in_i32(prefix_total(final_list@, i)) by {
                lemma_prefix_gap(final_list@, base, i);
                if i <= s.len() {
                    assert(base.take(i) == s.take(i));
                    assert(in_i32(prefix_total(s, i)));
                    assert(prefix_total(s, i) + nadd <= i32::MAX);
                } else {
                    lemma_prefix_of_extension(s, base, i);
                    assert(in_i32(prefix_total(s, s.len() as int)));
                }
            }
            lemma_distinct_dims_same(final_list@, base);
            lemma_prefix_of_extension(s, base, base.len() as int);
            assert(base.take(base.len() as int) == base);
        }
    }
    let total = sum_quantities(&final_list);
    JsonInput {
        width_of_bin: input.width,
        number_of_rectangles: total as usize,
        number_of_types_of_rectangles: rect_set.len(),
        autofill_option: input.autofill,
        rectangle_list: final_list,
    }
}

/// Whether every partial sum of the quantities fits in an `i32`, and if so
/// the total.
fn checked_total(s: &Vec<Rectangle>) -> (r: Option<i32>)
    ensures
        match r {
            Some(t) => (forall|i: int| 0 <= i <= s@.len() ==> #[trigger] in_i32(prefix_total(s@, i)))
                && t == quantity_total(s@),
            None => !(forall|i: int| 0 <= i <= s@.len() ==> #[trigger] in_i32(prefix_total(s@, i))),
        },
{
    let mut t: i64 = 0;
    let mut i: usize = 0;
    assert(s@.take(0) =~= Seq::<Rectangle>::empty());
    while i < s.len()
        invariant
            i <= s.len(),
            forall|k: int| 0 <= k <= i ==> #[trigger] in_i32(prefix_total(s@, k)),
            t == prefix_total(s@, i as int),
        decreases s.len() - i,
    {
        proof {
            lemma_prefix_total_step(s@, i as int);
            assert(in_i32(prefix_total(s@, i as int)));
        }
        t = t + s[i].quantity as i64;
        if t < i32::MIN as i64 || t > i32::MAX as i64 {
            assert(!in_i32(prefix_total(s@, i + 1)));
            return None;
        }
        i += 1;
    }
    assert(s@.take(s.len() as int) == s@);
    assert(in_i32(prefix_total(s@, s@.len() as int)));
    Some(t as i32)
}

/// Whether some quantity, or some partial sum, plus `extra` exceeds
/// `i32::MAX`; the partial sums must fit in an `i32`.
fn spread_overflows(s: &Vec<Rectangle>, extra: i64) -> (r: bool)
    requires
        forall|i: int| 0 <= i <= s@.len() ==> #[trigger] in_i32(prefix_total(s@, i)),
        0 <= extra <= i32::MAX,
    ensures
        r == !((forall|i: int| 0 <= i < s@.len() ==> #[trigger] s@[i].quantity + extra <= i32::MAX)
            && (forall|i: int| 0 <= i <= s@.len() ==> #[trigger] prefix_total(s@, i) + extra <= i32::MAX)),
{
    let mut t: i64 = 0;
    let mut i: usize = 0;
    assert(s@.take(0) =~= Seq::<Rectangle>::empty());
    if extra > i32::MAX as i64 {
        assert(prefix_total(s@, 0) + extra > i32::MAX);
        return true;
    }
    while i < s.len()
        invariant
            i <= s.len(),
            0 <= extra <= i32::MAX,
            forall|k: int| 0 <= k <= s@.len() ==> #[trigger] in_i32(prefix_total(s@, k)),
            forall|k: int| 0 <= k < i ==> #[trigger] s@[k].quantity + extra <= i32::MAX,
            forall|k: int| 0 <= k <= i ==> #[trigger] prefix_total(s@, k) + extra <= i32::MAX,
            t == prefix_total(s@, i as int),
        decreases s.len() - i,
    {
        proof {
            lemma_prefix_total_step(s@, i as int);
            assert(in_i32(prefix_total(s@, i + 1)));
        }
        if s[i].quantity as i64 + extra > i32::MAX as i64 {
            return true;
        }
        t = t + s[i].quantity as i64;
        if t + extra > i32::MAX as i64 {
            return true;
        }
        i += 1;
    }
    false
}

/// How many of the pairs lie in the box `1..=w` × `lo..=hi`.
fn count_in_box(d: &Vec<(i32, i32)>, w: i32, lo: i32, hi: i32) -> (n: usize)
    ensures
        n == in_box_count(d@, w as int, lo as int, hi as int),
{
    let mut n: usize = 0;
    let mut i: usize = 0;
    assert(d@.take(0) =~= Seq::<(i32, i32)>::empty());
    while i < d.len()
        invariant
            i <= d.len(),
            n <= i,
            n == in_box_count(d@.take(i as int), w as int, lo as int, hi as int),
        decreases d.len() - i,
    {
        assert(d@.take(i + 1).drop_last() == d@.take(i as int));
        let p = d[i];
        if 1 <= p.0 && p.0 <= w && lo <= p.1 && p.1 <= hi {
            n += 1;
        }
        i += 1;
    }
    assert(d@.take(d.len() as int) == d@);
    n
}

/// Whether `create_input` can run on a read input form (see
/// `create_input_feasible`).
pub fn create_input_is_feasible(input: &ParseOutput) -> (r: bool)
    ensures
        r == create_input_feasible(*input),
{
    let ghost s = input.rects@;
    let total = match checked_total(&input.rects) {
        Some(t) => t,
        None => {
            return false;
        },
    };
    let n0: i64 = if input.quantity != -1 {
        input.quantity as i64 - total as i64
    } else {
        0
    };
    let kadd: i64 = if input.autofill && input.types != -1 && input.types as i64 - input.input_types as i64 > 0 {
        input.types as i64 - input.input_types as i64
    } else {
        0
    };
    assert(kadd == types_to_add(*input));
    let n1 = n0 - kadd;
    let nadd: i64 = if input.autofill && n1 > 0 {
        n1
    } else {
        0
    };
    assert(nadd == rects_to_spread(*input));
    if input.autofill {
        if input.quantity != -1 && (n0 < i32::MIN as i64 || n0 > i32::MAX as i64) {
            return false;
        }
        if input.types != -1 {
            let kd = input.types as i64 - input.input_types as i64;
            if kd < i32::MIN as i64 || kd > i32::MAX as i64 {
                return false;
            }
        }
        if n1 < i32::MIN as i64 || n1 > i32::MAX as i64 {
            return false;
        }
    }
    if kadd > 0 {
        if input.width < 1 || input.min_height > input.max_height {
            return false;
        }
        let d = distinct_dims_exec(&input.rects);
        let used = count_in_box(&d, input.width, input.min_height, input.max_height);
        let span: i128 = input.max_height as i128 - input.min_height as i128 + 1;
        let width: i128 = input.width as i128;
        assert(width * span <= 0x1_0000_0000_0000_0000) by (nonlinear_arith)
            requires
                1 <= width <= 0x7fff_ffff,
                1 <= span <= 0x1_0000_0000,
        ;
        let cells: i128 = width * span;
        if cells - (used as i128) < kadd as i128 {
            return false;
        }
        if 1 + nadd > i32::MAX as i64 {
            return false;
        }
    }
    if nadd > 0 && input.rects.len() == 0 && kadd == 0 {
        return false;
    }
    if nadd > i32::MAX as i64 {
        assert(prefix_total(s, 0) + nadd > i32::MAX) by {
            assert(s.take(0) =~= Seq::<Rectangle>::empty());
        }
        return false;
    }
    if spread_overflows(&input.rects, nadd) {
        return false;
    }
    proof {
        assert(s.take(s.len() as int) == s);
    }
    total as i64 + kadd + nadd <= i32::MAX as i64
}

} // verus!
