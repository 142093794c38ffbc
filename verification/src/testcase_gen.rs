//! Random test cases: a bin width that grows with the requested size, a set
//! of distinct rectangle types, and quantities that reach the requested
//! number of rectangles.
use vstd::prelude::*;
use rand::rngs::ThreadRng;
use crate::config_parser::{
    box_index_exec, dims, distinct_dims, in_box_count, lemma_distinct_dims, lemma_distinct_dims_same,
    lemma_in_box_count_push,
    lemma_used_matches_push, used_matches,
};
use crate::random::{random_i32_inclusive, random_usize_below, random_usize_inclusive};
use crate::sampling::{draw_unused_pair, in_box, insert_sorted};
use crate::types::{
    lemma_quantity_total_push, lemma_quantity_total_update, quantity_total, JsonInput,
    Rectangle,
};

verus! {

pub const MIN_HEIGHT: i32 = 1;

pub const MAX_HEIGHT: i32 = 20;

pub const MIN_TYPES: usize = 3;

pub const MAX_TYPES: usize = 20;

pub const MIN_TOTAL_RECTS: i32 = 10;

pub const DEFAULT_TOTAL_RECTS: i32 = 100;

/// The largest `r` with `r * r <= m`.
pub open spec fn is_isqrt(r: int, m: int) -> bool {
    r >= 0 && r * r <= m < (r + 1) * (r + 1)
}

/// The integer square root of `m`.
pub fn isqrt(m: u64) -> (r: u64)
    requires
        m < 0x1_0000_0000_0000,
    ensures
        is_isqrt(r as int, m as int),
{
    let mut lo: u64 = 0;
    let mut hi: u64 = 0x100_0000;
    assert(hi * hi > m) by (nonlinear_arith)
        requires
            hi == 0x100_0000,
            m < 0x1_0000_0000_0000,
    ;
    while hi - lo > 1
        invariant
            lo < hi <= 0x100_0000,
            lo * lo <= m,
            m < hi * hi,
        decreases hi - lo,
    {
        let mid = lo + (hi - lo) / 2;
        assert(mid * mid <= 0x1_0000_0000_0000) by (nonlinear_arith)
            requires
                mid <= 0x100_0000,
        ;
        if mid * mid <= m {
            lo = mid;
        } else {
            hi = mid;
        }
    }
    assert(hi == lo + 1);
    lo
}

/// The requested number of rectangles of a test case.
pub open spec fn target_total(input_size: Option<i32>) -> int {
    let t = match input_size {
        Some(v) => v as int,
        None => DEFAULT_TOTAL_RECTS as int,
    };
    if t < MIN_TOTAL_RECTS {
        MIN_TOTAL_RECTS as int
    } else {
        t
    }
}

/// Two integer square roots of the same number are equal.
pub proof fn lemma_isqrt_unique(a: int, b: int, m: int)
    requires
        is_isqrt(a, m),
        is_isqrt(b, m),
    ensures
        a == b,
{
    if a < b {
        assert((a + 1) * (a + 1) <= b * b) by (nonlinear_arith)
            requires
                0 <= a + 1 <= b,
        ;
    }
    if b < a {
        assert((b + 1) * (b + 1) <= a * a) by (nonlinear_arith)
            requires
                0 <= b + 1 <= a,
        ;
    }
}

/// `floor(2 * sqrt(t))`, which is the integer square root of `4 * t`.
pub open spec fn width_base(t: int) -> int {
    choose|b: int| #[trigger] is_isqrt(b, 4 * t)
}

/// The smallest bin width drawn: the width base, and at least five.
pub open spec fn min_bin_width(base: int) -> int {
    if base < 5 {
        5
    } else {
        base
    }
}

/// The largest bin width drawn: three times the width base, and at least
/// five more than the smallest.
pub open spec fn max_bin_width(base: int) -> int {
    if base * 3 < min_bin_width(base) + 5 {
        min_bin_width(base) + 5
    } else {
        base * 3
    }
}

/// One generated test case for the requested size and number of types.
pub open spec fn generated_case(c: JsonInput, input_size: Option<i32>, unique_types: Option<usize>) -> bool {
    let t = target_total(input_size);
    let b = width_base(t);
    let o = c.rectangle_list@;
    &&& lowest_bin_width(input_size, unique_types) <= c.width_of_bin <= max_bin_width(b)
    &&& match unique_types {
        Some(u) => o.len() == u,
        None => MIN_TYPES <= o.len() <= MAX_TYPES,
    }
    &&& forall|i: int| 0 <= i < o.len() ==> in_box(dims(#[trigger] o[i]), c.width_of_bin as int, MIN_HEIGHT as int, MAX_HEIGHT as int) && o[i].quantity >= 1
    &&& forall|i: int, j: int| 0 <= j < i < o.len() ==> dims(#[trigger] o[j]) != dims(#[trigger] o[i])
    &&& quantity_total(o) == (if t < o.len() { o.len() as int } else { t })
    &&& c.number_of_rectangles == quantity_total(o)
    &&& c.number_of_types_of_rectangles == o.len()
    &&& !c.autofill_option
}

/// The inputs on which generation can give a test case: a given number of
/// types must be positive and fit in the widest bin that may be drawn.
pub open spec fn generation_feasible(input_size: Option<i32>, unique_types: Option<usize>) -> bool {
    match unique_types {
        Some(u) => 1 <= u <= 20 * max_bin_width(width_base(target_total(input_size))),
        None => true,
    }
}

/// The narrowest bin width drawn: the smallest of the range, or, when more
/// types are asked for than such a bin can hold, the narrowest bin that holds
/// them (each column of a bin holds 20 heights).
pub open spec fn lowest_bin_width(input_size: Option<i32>, unique_types: Option<usize>) -> int {
    let lo = min_bin_width(width_base(target_total(input_size)));
    match unique_types {
        Some(u) => if 20 * lo < u {
            (u + 19) / 20
        } else {
            lo
        },
        None => lo,
    }
}

/// The number of rectangles aimed at and the range of bin widths drawn
/// from, for a requested size.
fn bin_width_range(input_size: Option<i32>) -> (r: (i32, i32, i32))
    ensures
        r.0 == target_total(input_size),
        r.1 == min_bin_width(width_base(target_total(input_size))),
        r.2 == max_bin_width(width_base(target_total(input_size))),
        5 <= r.1 < r.2 <= 0x60000,
        r.1 <= 0x20000,
{
    let size = match input_size {
        Some(v) => v,
        None => DEFAULT_TOTAL_RECTS,
    };
    let target: i32 = if size < MIN_TOTAL_RECTS {
        MIN_TOTAL_RECTS
    } else {
        size
    };
    let base_u = isqrt(4 * target as u64);
    let ghost b = base_u as int;
    assert(target as int == target_total(input_size));
    proof {
        lemma_isqrt_unique(b, width_base(target as int), 4 * target);
    }
    assert(b == width_base(target_total(input_size)));
    assert(base_u <= 0x20000) by (nonlinear_arith)
        requires
            base_u * base_u <= 4 * target,
            target <= 0x7fff_ffff,
    ;
    let base = base_u as i32;
    let min_bin: i32 = if base < 5 {
        5
    } else {
        base
    };
    let max_bin: i32 = if base * 3 < min_bin + 5 {
        min_bin + 5
    } else {
        base * 3
    };
    (target, min_bin, max_bin)
}

/// Whether generation can run on these inputs (see `generation_feasible`).
pub fn generation_is_feasible(input_size: Option<i32>, unique_types: Option<usize>) -> (r: bool)
    ensures
        r == generation_feasible(input_size, unique_types),
{
    match unique_types {
        None => true,
        Some(u) => {
            let (_target, _min_bin, max_bin) = bin_width_range(input_size);
            1 <= u && u <= 20 * (max_bin as usize)
        },
    }
}

/// One random test case.
fn generate_one(rng: &mut ThreadRng, input_size: Option<i32>, unique_types: Option<usize>) -> (c: JsonInput)
    requires
        generation_feasible(input_size, unique_types),
    ensures
        generated_case(c, input_size, unique_types),
{
    let (target, min_bin, max_bin) = bin_width_range(input_size);
    let lowest: i32 = match unique_types {
        Some(u) => if 20 * (min_bin as usize) < u {
            ((u + 19) / 20) as i32
        } else {
            min_bin
        },
        None => min_bin,
    };
    assert(lowest == lowest_bin_width(input_size, unique_types));
    let bin_width = random_i32_inclusive(rng, lowest, max_bin);
    let num_types: usize = match unique_types {
        Some(u) => u,
        None => random_usize_inclusive(rng, MIN_TYPES, MAX_TYPES),
    };
    let mut rectangles: Vec<Rectangle> = Vec::new();
    let mut rect_set: Vec<(i32, i32)> = Vec::new();
    let mut used: Vec<u64> = Vec::new();
    let ghost w = bin_width as int;
    assert(rectangles@ =~= Seq::<Rectangle>::empty());
    assert(used_matches(used@, rect_set@, w, 1, 20));
    while rect_set.len() < num_types
        invariant
            w == bin_width,
            5 <= bin_width,
            1 <= num_types <= 20 * bin_width,
            num_types <= 0x100_0000,
            rect_set@.len() <= num_types,
            rect_set@ == distinct_dims(rectangles@),
            rect_set@.len() == rectangles@.len(),
            used_matches(used@, rect_set@, w, 1, 20),
            in_box_count(rect_set@, w, 1, 20) == rect_set@.len(),
            forall|i: int| 0 <= i < rectangles@.len() ==> in_box(dims(#[trigger] rectangles@[i]), w, 1, 20) && rectangles@[i].quantity == 1,
            forall|i: int, j: int| 0 <= j < i < rectangles@.len() ==> dims(#[trigger] rectangles@[j]) != dims(#[trigger] rectangles@[i]),
            quantity_total(rectangles@) == rectangles@.len(),
        decreases num_types - rect_set@.len(),
    {
        assert(used@.len() < bin_width * (MAX_HEIGHT - MIN_HEIGHT + 1)) by (nonlinear_arith)
            requires
                used@.len() == rect_set@.len(),
                rect_set@.len() < num_types,
                num_types <= 20 * bin_width,
                MAX_HEIGHT == 20,
                MIN_HEIGHT == 1,
        ;
        let (x, y) = draw_unused_pair(rng, &used, bin_width, MIN_HEIGHT, MAX_HEIGHT);
        let ghost p = (x, y);
        let ghost old_list = rectangles@;
        let ghost old_used = used@;
        proof {
            lemma_distinct_dims(old_list);
            assert(!rect_set@.contains(p));
            assert forall|j: int| 0 <= j < old_list.len() implies dims(#[trigger] old_list[j]) != p by {
                assert(rect_set@.contains(dims(old_list[j])));
            }
        }
        let r = Rectangle { width: x, height: y, quantity: 1 };
        rectangles.push(r);
        proof {
            lemma_quantity_total_push(old_list, r);
            assert(rectangles@.drop_last() == old_list);
        }
        let c = box_index_exec((x, y), bin_width, MIN_HEIGHT, MAX_HEIGHT);
        insert_sorted(&mut used, c);
        proof {
            lemma_used_matches_push(old_used, used@, rect_set@, p, w, 1, 20);
            lemma_in_box_count_push(rect_set@, p, w, 1, 20);
        }
        rect_set.push((x, y));
    }
    let ghost base_list = rectangles@;
    let mut current_total: i32 = rectangles.len() as i32;
    while current_total < target
        invariant
            rectangles@.len() == base_list.len(),
            rectangles@.len() >= 1,
            current_total == quantity_total(rectangles@),
            current_total >= rectangles@.len(),
            current_total <= target || current_total == base_list.len(),
            target >= MIN_TOTAL_RECTS,
            forall|i: int| 0 <= i < rectangles@.len() ==> dims(#[trigger] rectangles@[i]) == dims(base_list[i]),
            forall|i: int| 0 <= i < rectangles@.len() ==> #[trigger] rectangles@[i].quantity >= 1,
            forall|i: int| 0 <= i < rectangles@.len() ==> #[trigger] rectangles@[i].quantity <= current_total,
        decreases target - current_total,
    {
        let idx = random_usize_below(rng, rectangles.len());
        let gap = target - current_total;
        let top = if gap < 5 {
            gap
        } else {
            5
        };
        let add = random_i32_inclusive(rng, 1, top);
        let old_r = rectangles[idx];
        let ghost old_list = rectangles@;
        let nr = Rectangle { width: old_r.width, height: old_r.height, quantity: old_r.quantity + add };
        rectangles.set(idx, nr);
        proof {
            lemma_quantity_total_update(old_list, idx as int, nr);
        }
        current_total += add;
    }
    proof {
        lemma_distinct_dims_same(rectangles@, base_list);
    }
    JsonInput {
        width_of_bin: bin_width,
        number_of_rectangles: current_total as usize,
        number_of_types_of_rectangles: rectangles.len(),
        autofill_option: false,
        rectangle_list: rectangles,
    }
}

/// `n` random test cases (none when `n` is not positive). Each has
/// `input_size` rectangles (100 when not given, at least 10), or as many as
/// it has types when those are more; `unique_types` types (between 3 and 20
/// drawn at random when not given), of distinct dimensions, widths up to the
/// bin width and heights from 1 to 20; and a bin width drawn between
/// `floor(2 * sqrt(target))` (at least 5) and three times that (at least 5
/// more), so that larger inputs get wider bins. Widths too narrow to hold
/// the requested number of distinct types are not drawn.
pub fn generate_random_test_case(rng: &mut ThreadRng, n: i32, input_size: Option<i32>, unique_types: Option<usize>) -> (r: Vec<JsonInput>)
    requires
        n > 0 ==> generation_feasible(input_size, unique_types),
    ensures
        r@.len() == (if n > 0 { n as int } else { 0 }),
        forall|i: int| 0 <= i < r@.len() ==> generated_case(#[trigger] r@[i], input_size, unique_types),
{
    let mut ret: Vec<JsonInput> = Vec::new();
    let mut k: i32 = 0;
    while k < n
        invariant
            0 <= k,
            n > 0 ==> k <= n,
            n <= 0 ==> k == 0,
            n > 0 ==> generation_feasible(input_size, unique_types),
            ret@.len() == k,
            forall|i: int| 0 <= i < ret@.len() ==> generated_case(#[trigger] ret@[i], input_size, unique_types),
        decreases n - k,
    {
        let c = generate_one(rng, input_size, unique_types);
        ret.push(c);
        k += 1;
    }
    ret
}

} // verus!
