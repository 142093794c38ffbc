//! Reading the rectangle input form: the bin width, the optional rectangle
//! and type counts, and the rectangle list, one `X Y Q` line per type.
use vstd::prelude::*;
use crate::text::{
    chars_of, int_decimal, lines, nat_decimal, parse_i32, parse_i32_chars, push_chars,
    push_int, push_message, push_nat, push_str, split_lines, split_words, string_views, views,
    words,
};
use crate::types::{
    lemma_quantity_total_bounds, lemma_quantity_total_push, lemma_quantity_total_update,
    quantity_total, ParseOutput, Rectangle,
};

verus! {

// ───────────────────────────── messages ─────────────────────────────

pub open spec fn msg_width_missing() -> Seq<char> {
    "Enter a value for the width of the bin"@
}

pub open spec fn msg_width_negative() -> Seq<char> {
    "Emter a positive value for the width of the bin"@
}

pub open spec fn msg_width_not_integer() -> Seq<char> {
    "Enter an integer value for the width of the bin"@
}

pub open spec fn msg_quantity_invalid() -> Seq<char> {
    "Enter an integer value for the quantity of rectangles"@
}

pub open spec fn msg_types_negative() -> Seq<char> {
    "Enter an integer value for the types f rectangles"@
}

pub open spec fn msg_types_not_integer() -> Seq<char> {
    "Enter an integer value for the types of rectangles"@
}

pub open spec fn msg_line_prefix(ln: nat) -> Seq<char> {
    "Line "@ + nat_decimal(ln) + ": "@
}

pub open spec fn msg_word_count(ln: nat, found: nat) -> Seq<char> {
    msg_line_prefix(ln) + "Expected exactly 3 space-separated values (X Y Q), found "@
        + nat_decimal(found)
}

pub open spec fn msg_not_positive(ln: nat) -> Seq<char> {
    msg_line_prefix(ln) + "X, Y, and Q must be positive"@
}

pub open spec fn msg_too_wide(ln: nat, token: Seq<char>, w: int) -> Seq<char> {
    msg_line_prefix(ln) + "'"@ + token + "' is greater than the width "@ + int_decimal(w)
}

pub open spec fn msg_bad_number(ln: nat, token: Seq<char>, field: Seq<char>) -> Seq<char> {
    msg_line_prefix(ln) + "'"@ + token + "' is not a valid integer for "@ + field
}

pub open spec fn msg_quantity_mismatch(found: int, expected: int) -> Seq<char> {
    "The quantity of rectangles is NOT the same as the input. "@ + int_decimal(found)
        + " rectangles found, "@ + int_decimal(expected) + " expected."@
}

pub open spec fn msg_types_mismatch(found: int, expected: int) -> Seq<char> {
    "The number of types of rectangles is NOT the same as the input. "@ + int_decimal(found)
        + " types found, "@ + int_decimal(expected) + " expected."@
}

pub open spec fn msg_types_exceeded(found: int, expected: int) -> Seq<char> {
    "The number of types of rectangles is greater than the input. "@ + int_decimal(found)
        + " types found, "@ + int_decimal(expected) + " expected."@
}

pub open spec fn msg_autofill_slots(nd: int, kd: int, n: int, an: int, k: int, ak: int) -> Seq<
    char,
> {
    "Autofill impossible: Need to add "@ + int_decimal(nd) + " rectangles but only "@
        + int_decimal(kd) + " type slots available. (Input N="@ + int_decimal(n)
        + ", Actual N="@ + int_decimal(an) + ", Input K="@ + int_decimal(k) + ", Actual K="@
        + int_decimal(ak) + ")"@
}

pub open spec fn msg_autofill_remove(an: int, n: int) -> Seq<char> {
    "Autofill impossible: Already have "@ + int_decimal(an) + " rectangles but input N="@
        + int_decimal(n) + " (cannot remove rectangles)"@
}

// ───────────────────────────── the form's header ─────────────────────────────

/// The bin width and the requested rectangle and type counts (`-1` when a
/// count is left empty), or the messages that reject them.
pub open spec fn header(w_in: Seq<char>, n_in: Seq<char>, k_in: Seq<char>) -> Result<
    (i32, i32, i32),
    Seq<Seq<char>>,
> {
    if w_in.len() == 0 {
        Err(seq![msg_width_missing()])
    } else {
        match parse_i32(w_in) {
            None => Err(seq![msg_width_not_integer()]),
            Some(w) => if w < 0 {
                Err(seq![msg_width_negative()])
            } else {
                let n_res: Result<(i32, Seq<Seq<char>>), Seq<Seq<char>>> = if n_in.len() == 0 {
                    Ok((-1i32, Seq::empty()))
                } else {
                    match parse_i32(n_in) {
                        Some(n) => if n < 0 {
                            Err(seq![msg_quantity_invalid()])
                        } else {
                            Ok((n, Seq::empty()))
                        },
                        None => Ok((-1i32, seq![msg_quantity_invalid()])),
                    }
                };
                match n_res {
                    Err(e) => Err(e),
                    Ok((n, errs)) => {
                        let k_res: Result<(i32, Seq<Seq<char>>), Seq<Seq<char>>> = if k_in.len()
                            == 0 {
                            Ok((-1i32, errs))
                        } else {
                            match parse_i32(k_in) {
                                Some(k) => if k < 0 {
                                    Err(errs.push(msg_types_negative()))
                                } else {
                                    Ok((k, errs))
                                },
                                None => Ok((-1i32, errs.push(msg_types_not_integer()))),
                            }
                        };
                        match k_res {
                            Err(e) => Err(e),
                            Ok((k, errs2)) => if errs2.len() > 0 {
                                Err(errs2)
                            } else {
                                Ok((w, n, k))
                            },
                        }
                    },
                }
            },
        }
    }
}

// ───────────────────────────── the rectangle lines ─────────────────────────────

/// The state after some lines of the rectangle list have been read: the
/// rectangle types accepted so far, the sum of the quantities of all
/// well-formed lines, the smallest and largest height seen, and the
/// messages so far.
pub struct ScanState {
    pub rects: Seq<Rectangle>,
    pub total: int,
    pub min_h: int,
    pub max_h: int,
    pub errors: Seq<Seq<char>>,
}

pub open spec fn scan_start() -> ScanState {
    ScanState {
        rects: Seq::empty(),
        total: 0,
        min_h: i32::MAX as int,
        max_h: i32::MIN as int,
        errors: Seq::empty(),
    }
}

pub open spec fn same_dims(r: Rectangle, x: i32, y: i32) -> bool {
    r.width == x && r.height == y
}

/// `j` is the first index of a rectangle type of width `x` and height `y`.
pub open spec fn first_with_dims(rects: Seq<Rectangle>, x: i32, y: i32, j: int) -> bool {
    &&& 0 <= j < rects.len()
    &&& same_dims(rects[j], x, y)
    &&& forall|k: int| 0 <= k < j ==> !same_dims(#[trigger] rects[k], x, y)
}

/// Adds `q` rectangles of width `x` and height `y`: to the first type of
/// those dimensions, or as a new type at the end.
pub open spec fn add_rect(rects: Seq<Rectangle>, x: i32, y: i32, q: i32) -> Seq<Rectangle> {
    if exists|j: int| first_with_dims(rects, x, y, j) {
        let j = choose|j: int| first_with_dims(rects, x, y, j);
        rects.update(j, Rectangle { width: x, height: y, quantity: (rects[j].quantity + q) as i32 })
    } else {
        rects.push(Rectangle { width: x, height: y, quantity: q })
    }
}

/// The three numbers of a well-formed line with positive values.
pub open spec fn line_numbers(line: Seq<char>) -> Option<(i32, i32, i32)> {
    let parts = words(line);
    if parts.len() != 3 {
        None
    } else {
        match (parse_i32(parts[0]), parse_i32(parts[1]), parse_i32(parts[2])) {
            (Some(x), Some(y), Some(q)) => if x > 0 && y > 0 && q > 0 {
                Some((x, y, q))
            } else {
                None
            },
            _ => None,
        }
    }
}

/// Reads line number `ln` (counted from one) against the bin width `w`.
pub open spec fn scan_line(st: ScanState, line: Seq<char>, ln: nat, w: int) -> ScanState {
    let parts = words(line);
    if parts.len() == 0 {
        st
    } else if parts.len() != 3 {
        ScanState { errors: st.errors.push(msg_word_count(ln, parts.len())), ..st }
    } else {
        match (parse_i32(parts[0]), parse_i32(parts[1]), parse_i32(parts[2])) {
            (Some(x), Some(y), Some(q)) => if x <= 0 || y <= 0 || q <= 0 {
                ScanState { errors: st.errors.push(msg_not_positive(ln)), ..st }
            } else {
                let st2 = ScanState {
                    min_h: if y < st.min_h {
                        y as int
                    } else {
                        st.min_h
                    },
                    max_h: if y > st.max_h {
                        y as int
                    } else {
                        st.max_h
                    },
                    total: st.total + q,
                    ..st
                };
                if x > w {
                    ScanState { errors: st2.errors.push(msg_too_wide(ln, parts[0], w)), ..st2 }
                } else {
                    ScanState { rects: add_rect(st2.rects, x, y, q), ..st2 }
                }
            },
            (None, _, _) => ScanState {
                errors: st.errors.push(msg_bad_number(ln, parts[0], "X"@)),
                ..st
            },
            (_, None, _) => ScanState {
                errors: st.errors.push(msg_bad_number(ln, parts[1], "Y"@)),
                ..st
            },
            (_, _, None) => ScanState {
                errors: st.errors.push(msg_bad_number(ln, parts[2], "Q"@)),
                ..st
            },
        }
    }
}

/// Reads the given lines in order.
pub open spec fn scan(ls: Seq<Seq<char>>, w: int) -> ScanState
    decreases ls.len(),
{
    if ls.len() == 0 {
        scan_start()
    } else {
        scan_line(scan(ls.drop_last(), w), ls.last(), ls.len() as nat, w)
    }
}

/// The sum of the quantities of the well-formed lines with positive values.
pub open spec fn quantity_sum(ls: Seq<Seq<char>>) -> int
    decreases ls.len(),
{
    if ls.len() == 0 {
        0
    } else {
        quantity_sum(ls.drop_last()) + match line_numbers(ls.last()) {
            Some((x, y, q)) => q as int,
            None => 0,
        }
    }
}

/// The checks of the totals against the requested counts.
pub open spec fn count_checks(autofill: bool, n: int, k: int, total: int, types: int) -> Seq<
    Seq<char>,
> {
    let a: Seq<Seq<char>> = if !autofill && n != -1 && n != total {
        seq![msg_quantity_mismatch(total, n)]
    } else {
        Seq::empty()
    };
    let b: Seq<Seq<char>> = if !autofill && k != -1 && k != types {
        seq![msg_types_mismatch(types, k)]
    } else {
        Seq::empty()
    };
    let c: Seq<Seq<char>> = if autofill && k != -1 && types > k {
        seq![msg_types_exceeded(types, k)]
    } else {
        Seq::empty()
    };
    let d: Seq<Seq<char>> = if autofill && n != -1 && k != -1 && n - total > 0 && k - types > n
        - total {
        seq![msg_autofill_slots(n - total, k - types, n, total, k, types)]
    } else {
        Seq::empty()
    };
    let e: Seq<Seq<char>> = if autofill && n != -1 && k != -1 && n - total < 0 {
        seq![msg_autofill_remove(total, n)]
    } else {
        Seq::empty()
    };
    a + b + c + d + e
}

/// The messages with which the form is rejected; it is accepted when there
/// are none.
pub open spec fn form_errors(
    w_in: Seq<char>,
    n_in: Seq<char>,
    k_in: Seq<char>,
    autofill: bool,
    text: Seq<char>,
) -> Seq<Seq<char>> {
    match header(w_in, n_in, k_in) {
        Err(e) => e,
        Ok((w, n, k)) => {
            let st = scan(lines(text), w as int);
            st.errors + count_checks(autofill, n as int, k as int, st.total, st.rects.len() as int)
        },
    }
}

// ───────────────────────────── lemmas ─────────────────────────────

proof fn lemma_first_unique(rects: Seq<Rectangle>, x: i32, y: i32, a: int, b: int)
    requires
        first_with_dims(rects, x, y, a),
        first_with_dims(rects, x, y, b),
    ensures
        a == b,
{
    if a < b {
        assert(!same_dims(rects[a], x, y));
    } else if b < a {
        assert(!same_dims(rects[b], x, y));
    }
}

proof fn lemma_scan_total(ls: Seq<Seq<char>>, w: int)
    requires
        quantity_sum(ls) <= i32::MAX,
    ensures
        scan(ls, w).total == quantity_sum(ls),
        quantity_total(scan(ls, w).rects) <= scan(ls, w).total,
        forall|i: int| 0 <= i < scan(ls, w).rects.len() ==> #[trigger] scan(ls, w).rects[i].quantity >= 1,
    decreases ls.len(),
{
    if ls.len() > 0 {
        lemma_quantity_sum_nonneg(ls.drop_last());
        lemma_scan_total(ls.drop_last(), w);
        let st = scan(ls.drop_last(), w);
        let line = ls.last();
        let parts = words(line);
        if parts.len() == 3 {
            match (parse_i32(parts[0]), parse_i32(parts[1]), parse_i32(parts[2])) {
                (Some(x), Some(y), Some(q)) => {
                    if x > 0 && y > 0 && q > 0 && x <= w {
                        if exists|j: int| first_with_dims(st.rects, x, y, j) {
                            let j = choose|j: int| first_with_dims(st.rects, x, y, j);
                            lemma_quantity_total_bounds(st.rects);
                            let r = Rectangle { width: x, height: y, quantity: (st.rects[j].quantity + q) as i32 };
                            lemma_quantity_total_update(st.rects, j, r);
                            let nr = add_rect(st.rects, x, y, q);
                            assert(nr == st.rects.update(j, r));
                            assert forall|i: int| 0 <= i < nr.len() implies #[trigger] nr[i].quantity >= 1 by {
                                if i != j {
                                    assert(nr[i] == st.rects[i]);
                                }
                            }
                        } else {
                            lemma_quantity_total_push(st.rects, Rectangle { width: x, height: y, quantity: q });
                        }
                    }
                },
                _ => {},
            }
        }
    }
}

proof fn lemma_quantity_sum_prefix(ls: Seq<Seq<char>>, i: int)
    requires
        0 <= i <= ls.len(),
    ensures
        quantity_sum(ls.take(i)) <= quantity_sum(ls),
        quantity_sum(ls.take(i)) >= 0,
    decreases ls.len(),
{
    if i == ls.len() {
        assert(ls.take(i) == ls);
        lemma_quantity_sum_nonneg(ls);
    } else {
        lemma_quantity_sum_prefix(ls.drop_last(), i);
        assert(ls.drop_last().take(i) == ls.take(i));
    }
}

proof fn lemma_quantity_sum_nonneg(ls: Seq<Seq<char>>)
    ensures
        quantity_sum(ls) >= 0,
    decreases ls.len(),
{
    if ls.len() > 0 {
        lemma_quantity_sum_nonneg(ls.drop_last());
    }
}

// ───────────────────────────── laws of the count checks ─────────────────────────────

/// Without autofill, the totals read pass exactly when each given count is
/// met: the sum of the quantities equals N and the number of types equals K.
pub proof fn lemma_exact_counts(n: int, k: int, total: int, types: int)
    requires
        n >= -1,
        k >= -1,
    ensures
        count_checks(false, n, k, total, types).len() == 0 <==> ((n == -1 || n == total) && (k
            == -1 || k == types)),
{
}

/// With autofill on and both counts given, the totals read pass exactly when
/// the types read fit within K, no rectangle would have to be removed
/// (the quantities sum to at most N), and, when rectangles are missing, each
/// missing type can get at least one of them. In particular a form whose
/// quantities already sum to N, with at most K types, passes; and when the
/// quantities exceed N the last message says that rectangles cannot be
/// removed.
pub proof fn lemma_autofill_counts(n: int, k: int, total: int, types: int)
    requires
        n >= 0,
        k >= 0,
        total >= 0,
        types >= 0,
    ensures
        count_checks(true, n, k, total, types).len() == 0 <==> (types <= k && total <= n && (total
            < n ==> k - types <= n - total)),
        total > n ==> count_checks(true, n, k, total, types).len() >= 1 && count_checks(
            true,
            n,
            k,
            total,
            types,
        ).last() == msg_autofill_remove(total, n),
        total <= n ==> !count_checks(true, n, k, total, types).contains(msg_autofill_remove(total, n)),
{
    let cc = count_checks(true, n, k, total, types);
    if total <= n {
        reveal_strlit("Autofill impossible: Already have ");
        reveal_strlit("Autofill impossible: Need to add ");
        reveal_strlit("The number of types of rectangles is greater than the input. ");
        let m = msg_autofill_remove(total, n);
        assert(m[0] == 'A' && m[21] == 'A');
        if cc.contains(m) {
            let i = choose|i: int| 0 <= i < cc.len() && cc[i] == m;
            if types > k && i == 0 {
                assert(cc[0][0] == 'T');
            } else {
                assert(cc[i][21] == 'N');
            }
        }
    }
}

// ───────────────────────────── laws of the heights read ─────────────────────────────

proof fn lemma_add_rect_heights(rects: Seq<Rectangle>, x: i32, y: i32, q: i32)
    ensures
        add_rect(rects, x, y, q).len() >= rects.len(),
        forall|i: int| 0 <= i < rects.len() ==> (#[trigger] add_rect(rects, x, y, q)[i]).height == rects[i].height,
        forall|i: int| rects.len() <= i < add_rect(rects, x, y, q).len() ==> (#[trigger] add_rect(rects, x, y, q)[i]).height == y,
        exists|i: int| 0 <= i < add_rect(rects, x, y, q).len() && (#[trigger] add_rect(rects, x, y, q)[i]).height == y,
{
    let out = add_rect(rects, x, y, q);
    if exists|j: int| first_with_dims(rects, x, y, j) {
        let j = choose|j: int| first_with_dims(rects, x, y, j);
        assert(out[j].height == y);
    } else {
        assert(out[rects.len() as int].height == y);
    }
}

/// The heights kept while the lines are read: every type read has a height
/// between the smallest and largest height seen, and while no message has
/// been given those two are heights of types read (or still at their
/// starting values when none was read).
proof fn lemma_scan_heights(ls: Seq<Seq<char>>, w: int)
    ensures
        ({
            let st = scan(ls, w);
            &&& forall|i: int| 0 <= i < st.rects.len() ==> st.min_h <= (#[trigger] st.rects[i]).height <= st.max_h
            &&& st.errors.len() == 0 && st.rects.len() == 0 ==> st.min_h == i32::MAX && st.max_h == i32::MIN
            &&& st.errors.len() == 0 && st.rects.len() > 0 ==> (exists|i: int| 0 <= i < st.rects.len() && (#[trigger] st.rects[i]).height == st.max_h)
            &&& st.errors.len() == 0 && st.rects.len() > 0 ==> (exists|i: int| 0 <= i < st.rects.len() && (#[trigger] st.rects[i]).height == st.min_h)
        }),
    decreases ls.len(),
{
    if ls.len() > 0 {
        let p = ls.drop_last();
        lemma_scan_heights(p, w);
        let st = scan(p, w);
        let line = ls.last();
        let out = scan(ls, w);
        assert(out == scan_line(st, line, ls.len() as nat, w));
        let parts = words(line);
        if parts.len() == 3 {
            match (parse_i32(parts[0]), parse_i32(parts[1]), parse_i32(parts[2])) {
                (Some(x), Some(y), Some(q)) => {
                    if x > 0 && y > 0 && q > 0 && x <= w {
                        lemma_add_rect_heights(st.rects, x, y, q);
                        let nr = add_rect(st.rects, x, y, q);
                        assert(out.rects == nr);
                        assert forall|i: int| 0 <= i < out.rects.len() implies out.min_h <= (#[trigger] out.rects[i]).height <= out.max_h by {
                            if i < st.rects.len() {
                                assert(nr[i].height == st.rects[i].height);
                            } else {
                                assert(nr[i].height == y);
                            }
                        }
                        if out.errors.len() == 0 {
                            assert(st.errors.len() == 0);
                            let iy = choose|i: int| 0 <= i < nr.len() && (#[trigger] nr[i]).height == y;
                            if st.rects.len() == 0 {
                                assert(out.max_h == y);
                                assert(out.min_h == y);
                            } else {
                                let a = choose|i: int| 0 <= i < st.rects.len() && (#[trigger] st.rects[i]).height == st.max_h;
                                let b = choose|i: int| 0 <= i < st.rects.len() && (#[trigger] st.rects[i]).height == st.min_h;
                                assert(nr[a].height == st.max_h);
                                assert(nr[b].height == st.min_h);
                            }
                        }
                    }
                },
                _ => {},
            }
        }
    }
}

/// In an accepted form, the smallest and largest heights returned are those
/// of the rectangle types read: every type's height lies between them, and
/// each of the two is the height of some type read (when no type was read
/// they stay at `i32::MAX` and `i32::MIN`).
pub proof fn lemma_accepted_height_range(
    w_in: Seq<char>,
    n_in: Seq<char>,
    k_in: Seq<char>,
    autofill: bool,
    text: Seq<char>,
)
    requires
        form_errors(w_in, n_in, k_in, autofill, text).len() == 0,
    ensures
        match header(w_in, n_in, k_in) {
            Ok((w, n, k)) => {
                let st = scan(lines(text), w as int);
                &&& forall|i: int| 0 <= i < st.rects.len() ==> st.min_h <= (#[trigger] st.rects[i]).height <= st.max_h
                &&& st.rects.len() > 0 ==> exists|i: int| 0 <= i < st.rects.len() && (#[trigger] st.rects[i]).height == st.max_h
                &&& st.rects.len() > 0 ==> exists|i: int| 0 <= i < st.rects.len() && (#[trigger] st.rects[i]).height == st.min_h
                &&& st.rects.len() == 0 ==> st.min_h == i32::MAX && st.max_h == i32::MIN
            },
            Err(_) => false,
        },
{
    match header(w_in, n_in, k_in) {
        Ok((w, n, k)) => {
            lemma_scan_heights(lines(text), w as int);
        },
        Err(e) => {},
    }
}

// ───────────────────────────── reading the form ─────────────────────────────

/// Appends "Line {ln}: " to `out`.
fn push_line_prefix(out: &mut Vec<char>, ln: u64)
    ensures
        final(out)@ == old(out)@ + msg_line_prefix(ln as nat),
{
    push_str(out, "Line ");
    push_nat(out, ln);
    push_str(out, ": ");
    assert(out@ =~= old(out)@ + msg_line_prefix(ln as nat));
}

fn message_bad_number(ln: u64, token: &Vec<char>, field: &str) -> (m: Vec<char>)
    ensures
        m@ == msg_bad_number(ln as nat, token@, field@),
{
    let mut m: Vec<char> = Vec::new();
    push_line_prefix(&mut m, ln);
    push_str(&mut m, "'");
    push_chars(&mut m, token);
    push_str(&mut m, "' is not a valid integer for ");
    push_str(&mut m, field);
    assert(m@ =~= msg_bad_number(ln as nat, token@, field@));
    m
}

/// Where the first rectangle type of width `x` and height `y` is, if any.
fn find_dims(rects: &Vec<Rectangle>, x: i32, y: i32) -> (r: Option<usize>)
    ensures
        match r {
            Some(j) => first_with_dims(rects@, x, y, j as int),
            None => !exists|j: int| first_with_dims(rects@, x, y, j),
        },
{
    let mut i: usize = 0;
    while i < rects.len()
        invariant
            i <= rects.len(),
            forall|k: int| 0 <= k < i ==> !same_dims(#[trigger] rects@[k], x, y),
        decreases rects.len() - i,
    {
        if rects[i].width == x && rects[i].height == y {
            return Some(i);
        }
        i += 1;
    }
    assert forall|j: int| !first_with_dims(rects@, x, y, j) by {
        if 0 <= j < rects@.len() {
            assert(!same_dims(rects@[j], x, y));
        }
    }
    None
}

/// Reads the bin width and the two optional counts of the form.
fn read_header(w_input: &str, n_input: &str, k_input: &str) -> (r: Result<(i32, i32, i32), Vec<String>>)
    ensures
        match r {
            Ok(v) => header(w_input@, n_input@, k_input@) == Ok::<(i32, i32, i32), Seq<Seq<char>>>(v),
            Err(e) => header(w_input@, n_input@, k_input@) == Err::<(i32, i32, i32), Seq<Seq<char>>>(string_views(e@)),
        },
{
    let mut errors: Vec<String> = Vec::new();
    assert(string_views(errors@) =~= Seq::<Seq<char>>::empty());
    let w_chars = chars_of(w_input);
    if w_chars.len() == 0 {
        let m = chars_of("Enter a value for the width of the bin");
        push_message(&mut errors, &m);
        return Err(errors);
    }
    let w_val = match parse_i32_chars(&w_chars) {
        Some(w) => {
            if w < 0 {
                let m = chars_of("Emter a positive value for the width of the bin");
                push_message(&mut errors, &m);
                return Err(errors);
            }
            w
        },
        None => {
            let m = chars_of("Enter an integer value for the width of the bin");
            push_message(&mut errors, &m);
            return Err(errors);
        },
    };
    let mut n_val: i32 = -1;
    let n_chars = chars_of(n_input);
    if n_chars.len() != 0 {
        match parse_i32_chars(&n_chars) {
            Some(n) => {
                if n < 0 {
                    let m = chars_of("Enter an integer value for the quantity of rectangles");
                    push_message(&mut errors, &m);
                    return Err(errors);
                }
                n_val = n;
            },
            None => {
                let m = chars_of("Enter an integer value for the quantity of rectangles");
                push_message(&mut errors, &m);
            },
        }
    }
    let mut k_val: i32 = -1;
    let k_chars = chars_of(k_input);
    if k_chars.len() != 0 {
        match parse_i32_chars(&k_chars) {
            Some(k) => {
                if k < 0 {
                    let m = chars_of("Enter an integer value for the types f rectangles");
                    push_message(&mut errors, &m);
                    return Err(errors);
                }
                k_val = k;
            },
            None => {
                let m = chars_of("Enter an integer value for the types of rectangles");
                push_message(&mut errors, &m);
            },
        }
    }
    if errors.len() > 0 {
        return Err(errors);
    }
    Ok((w_val, n_val, k_val))
}

/// The quantity that a line adds to the total.
pub open spec fn line_quantity(line: Seq<char>) -> int {
    match line_numbers(line) {
        Some((x, y, q)) => q as int,
        None => 0,
    }
}

/// Reads one line of the rectangle list into the running state.
fn scan_line_exec(
    line: &Vec<char>,
    ln: usize,
    w: i32,
    rects: &mut Vec<Rectangle>,
    total: &mut i32,
    min_h: &mut i32,
    max_h: &mut i32,
    errors: &mut Vec<String>,
)
    requires
        *old(total) + line_quantity(line@) <= i32::MAX,
        quantity_total(old(rects)@) <= *old(total),
        forall|i: int| 0 <= i < old(rects)@.len() ==> #[trigger] old(rects)@[i].quantity >= 1,
    ensures
        ({
            let st = ScanState {
                rects: old(rects)@,
                total: *old(total) as int,
                min_h: *old(min_h) as int,
                max_h: *old(max_h) as int,
                errors: string_views(old(errors)@),
            };
            let st2 = scan_line(st, line@, ln as nat, w as int);
            &&& final(rects)@ == st2.rects
            &&& *final(total) as int == st2.total
            &&& *final(min_h) as int == st2.min_h
            &&& *final(max_h) as int == st2.max_h
            &&& string_views(final(errors)@) == st2.errors
        }),
{
    let parts = split_words(line);
    let ghost ps = words(line@);
    if parts.len() == 0 {
        return;
    }
    if parts.len() != 3 {
        let mut m: Vec<char> = Vec::new();
        push_line_prefix(&mut m, ln as u64);
        push_str(&mut m, "Expected exactly 3 space-separated values (X Y Q), found ");
        push_nat(&mut m, parts.len() as u64);
        assert(m@ =~= msg_word_count(ln as nat, ps.len()));
        push_message(errors, &m);
        return;
    }
    assert(parts@[0]@ == ps[0] && parts@[1]@ == ps[1] && parts@[2]@ == ps[2]);
    let xr = parse_i32_chars(&parts[0]);
    let yr = parse_i32_chars(&parts[1]);
    let qr = parse_i32_chars(&parts[2]);
    match (xr, yr, qr) {
        (Some(x), Some(y), Some(q)) => {
            if x <= 0 || y <= 0 || q <= 0 {
                let mut m: Vec<char> = Vec::new();
                push_line_prefix(&mut m, ln as u64);
                push_str(&mut m, "X, Y, and Q must be positive");
                assert(m@ =~= msg_not_positive(ln as nat));
                push_message(errors, &m);
                return;
            }
            if y < *min_h {
                *min_h = y;
            }
            if y > *max_h {
                *max_h = y;
            }
            *total = *total + q;
            if x > w {
                let mut m: Vec<char> = Vec::new();
                push_line_prefix(&mut m, ln as u64);
                push_str(&mut m, "'");
                push_chars(&mut m, &parts[0]);
                push_str(&mut m, "' is greater than the width ");
                push_int(&mut m, w as i64);
                assert(m@ =~= msg_too_wide(ln as nat, ps[0], w as int));
                push_message(errors, &m);
            } else {
                match find_dims(rects, x, y) {
                    Some(j) => {
                        proof {
                            lemma_quantity_total_bounds(old(rects)@);
                        }
                        let nq = rects[j].quantity + q;
                        rects.set(j, Rectangle { width: x, height: y, quantity: nq });
                        proof {
                            let j0 = choose|j0: int| first_with_dims(old(rects)@, x, y, j0);
                            lemma_first_unique(old(rects)@, x, y, j as int, j0);
                        }
                    },
                    None => {
                        rects.push(Rectangle { width: x, height: y, quantity: q });
                    },
                }
            }
        },
        (None, _, _) => {
            let m = message_bad_number(ln as u64, &parts[0], "X");
            push_message(errors, &m);
        },
        (_, None, _) => {
            let m = message_bad_number(ln as u64, &parts[1], "Y");
            push_message(errors, &m);
        },
        (_, _, None) => {
            let m = message_bad_number(ln as u64, &parts[2], "Q");
            push_message(errors, &m);
        },
    }
}

/// Appends the messages of the checks of the totals against the requested
/// counts.
fn push_count_checks(autofill: bool, n: i32, k: i32, total: i32, types: i32, errors: &mut Vec<String>)
    requires
        n >= -1,
        k >= -1,
        total >= 0,
        types >= 0,
    ensures
        string_views(final(errors)@) == string_views(old(errors)@) + count_checks(
            autofill,
            n as int,
            k as int,
            total as int,
            types as int,
        ),
{
    let ghost e0 = string_views(errors@);
    let ghost a: Seq<Seq<char>> = if !autofill && n != -1 && n != total {
        seq![msg_quantity_mismatch(total as int, n as int)]
    } else {
        Seq::empty()
    };
    let ghost b: Seq<Seq<char>> = if !autofill && k != -1 && k != types {
        seq![msg_types_mismatch(types as int, k as int)]
    } else {
        Seq::empty()
    };
    let ghost c: Seq<Seq<char>> = if autofill && k != -1 && types > k {
        seq![msg_types_exceeded(types as int, k as int)]
    } else {
        Seq::empty()
    };
    let ghost d: Seq<Seq<char>> = if autofill && n != -1 && k != -1 && n - total > 0 && k - types
        > n - total {
        seq![msg_autofill_slots(n - total, k - types, n as int, total as int, k as int, types as int)]
    } else {
        Seq::empty()
    };
    let ghost e: Seq<Seq<char>> = if autofill && n != -1 && k != -1 && n - total < 0 {
        seq![msg_autofill_remove(total as int, n as int)]
    } else {
        Seq::empty()
    };
    if !autofill && n != -1 && n != total {
        let mut m: Vec<char> = Vec::new();
        push_str(&mut m, "The quantity of rectangles is NOT the same as the input. ");
        push_int(&mut m, total as i64);
        push_str(&mut m, " rectangles found, ");
        push_int(&mut m, n as i64);
        push_str(&mut m, " expected.");
        assert(m@ =~= msg_quantity_mismatch(total as int, n as int));
        push_message(errors, &m);
    }
    assert(string_views(errors@) =~= e0 + a);
    if !autofill && k != -1 && k != types {
        let mut m: Vec<char> = Vec::new();
        push_str(&mut m, "The number of types of rectangles is NOT the same as the input. ");
        push_int(&mut m, types as i64);
        push_str(&mut m, " types found, ");
        push_int(&mut m, k as i64);
        push_str(&mut m, " expected.");
        assert(m@ =~= msg_types_mismatch(types as int, k as int));
        push_message(errors, &m);
    }
    assert(string_views(errors@) =~= e0 + a + b);
    if autofill && k != -1 && types > k {
        let mut m: Vec<char> = Vec::new();
        push_str(&mut m, "The number of types of rectangles is greater than the input. ");
        push_int(&mut m, types as i64);
        push_str(&mut m, " types found, ");
        push_int(&mut m, k as i64);
        push_str(&mut m, " expected.");
        assert(m@ =~= msg_types_exceeded(types as int, k as int));
        push_message(errors, &m);
    }
    assert(string_views(errors@) =~= e0 + a + b + c);
    if autofill && n != -1 && k != -1 {
        let nd = n - total;
        let kd = k - types;
        if nd > 0 && kd > nd {
            let mut m: Vec<char> = Vec::new();
            push_str(&mut m, "Autofill impossible: Need to add ");
            push_int(&mut m, nd as i64);
            push_str(&mut m, " rectangles but only ");
            push_int(&mut m, kd as i64);
            push_str(&mut m, " type slots available. (Input N=");
            push_int(&mut m, n as i64);
            push_str(&mut m, ", Actual N=");
            push_int(&mut m, total as i64);
            push_str(&mut m, ", Input K=");
            push_int(&mut m, k as i64);
            push_str(&mut m, ", Actual K=");
            push_int(&mut m, types as i64);
            push_str(&mut m, ")");
            assert(m@ =~= msg_autofill_slots(nd as int, kd as int, n as int, total as int, k as int, types as int));
            push_message(errors, &m);
        }
        assert(string_views(errors@) =~= e0 + a + b + c + d);
        if nd < 0 {
            let mut m: Vec<char> = Vec::new();
            push_str(&mut m, "Autofill impossible: Already have ");
            push_int(&mut m, total as i64);
            push_str(&mut m, " rectangles but input N=");
            push_int(&mut m, n as i64);
            push_str(&mut m, " (cannot remove rectangles)");
            assert(m@ =~= msg_autofill_remove(total as int, n as int));
            push_message(errors, &m);
        }
    }
    assert(string_views(errors@) =~= e0 + (a + b + c + d + e));
}

/// Reads the rectangle input form: the bin width `w_input`, the optional
/// number of rectangles `n_input` and of types `k_input`, the autofill switch
/// and the rectangle list `text`, one `X Y Q` line per type.
///
/// The result is `Ok` exactly when no check fails, and then holds the width,
/// the two counts (`-1` when empty), the switch, the rectangle types in the
/// order in which they first appear (lines with the same dimensions are
/// merged), their number, and the smallest and largest height read.
/// Otherwise it holds every message, in order.
pub fn parse_rectangles(w_input: &str, n_input: &str, k_input: &str, autofill: bool, text: &str) -> (r: Result<
    ParseOutput,
    Vec<String>,
>)
    requires
        quantity_sum(lines(text@)) <= i32::MAX,
    ensures
        r is Ok <==> form_errors(w_input@, n_input@, k_input@, autofill, text@).len() == 0,
        r matches Err(e) ==> string_views(e@) == form_errors(
            w_input@,
            n_input@,
            k_input@,
            autofill,
            text@,
        ),
        r matches Ok(o) ==> ({
            &&& header(w_input@, n_input@, k_input@) == Ok::<(i32, i32, i32), Seq<Seq<char>>>(
                (o.width, o.quantity, o.types),
            )
            &&& o.autofill == autofill
            &&& o.rects@ == scan(lines(text@), o.width as int).rects
            &&& o.input_types == o.rects@.len()
            &&& o.min_height == scan(lines(text@), o.width as int).min_h
            &&& o.max_height == scan(lines(text@), o.width as int).max_h
        }),
{
    let (w, n, k) = match read_header(w_input, n_input, k_input) {
        Ok(v) => v,
        Err(e) => {
            return Err(e);
        },
    };
    let text_chars = chars_of(text);
    let ls = split_lines(&text_chars);
    let ghost all = lines(text@);
    let mut rects: Vec<Rectangle> = Vec::new();
    let mut total: i32 = 0;
    let mut min_h: i32 = i32::MAX;
    let mut max_h: i32 = i32::MIN;
    let mut errors: Vec<String> = Vec::new();
    let mut idx: usize = 0;
    assert(views(ls@).take(0) =~= Seq::<Seq<char>>::empty());
    assert(string_views(errors@) =~= Seq::<Seq<char>>::empty());
    while idx < ls.len()
        invariant
            idx <= ls.len(),
            views(ls@) == all,
            all == lines(text@),
            quantity_sum(all) <= i32::MAX,
            ({
                let st = scan(all.take(idx as int), w as int);
                &&& rects@ == st.rects
                &&& total as int == st.total
                &&& min_h as int == st.min_h
                &&& max_h as int == st.max_h
                &&& string_views(errors@) == st.errors
            }),
        decreases ls.len() - idx,
    {
        let ghost pre = all.take(idx as int);
        let ghost post = all.take(idx + 1);
        proof {
            assert(post.drop_last() == pre);
            assert(post.last() == ls@[idx as int]@);
            lemma_quantity_sum_prefix(all, idx + 1);
            lemma_quantity_sum_nonneg(pre);
            lemma_scan_total(pre, w as int);
            assert(quantity_sum(post) == quantity_sum(pre) + line_quantity(ls@[idx as int]@));
        }
        scan_line_exec(&ls[idx], idx + 1, w, &mut rects, &mut total, &mut min_h, &mut max_h, &mut errors);
        idx += 1;
    }
    assert(all.take(ls.len() as int) == all);
    proof {
        lemma_scan_total(all, w as int);
        lemma_quantity_total_bounds(rects@);
    }
    let types = rects.len() as i32;
    push_count_checks(autofill, n, k, total, types, &mut errors);
    if errors.len() > 0 {
        return Err(errors);
    }
    Ok(ParseOutput {
        width: w,
        quantity: n,
        types: k,
        autofill,
        rects,
        input_types: types,
        min_height: min_h,
        max_height: max_h,
    })
}

/// The three positive numbers of a well-formed line, if it is one.
fn line_numbers_exec(line: &Vec<char>) -> (r: Option<(i32, i32, i32)>)
    ensures
        r == line_numbers(line@),
{
    let parts = split_words(line);
    if parts.len() != 3 {
        return None;
    }
    let ghost ps = words(line@);
    assert(parts@[0]@ == ps[0] && parts@[1]@ == ps[1] && parts@[2]@ == ps[2]);
    match (parse_i32_chars(&parts[0]), parse_i32_chars(&parts[1]), parse_i32_chars(&parts[2])) {
        (Some(x), Some(y), Some(q)) => {
            if x > 0 && y > 0 && q > 0 {
                Some((x, y, q))
            } else {
                None
            }
        },
        _ => None,
    }
}

/// Whether the quantities of the well-formed lines of `text` add up to a
/// number that fits in an `i32`, which `parse_rectangles` needs.
pub fn rectangle_quantities_fit(text: &str) -> (r: bool)
    ensures
        r == (quantity_sum(lines(text@)) <= i32::MAX),
{
    let text_chars = chars_of(text);
    let ls = split_lines(&text_chars);
    let ghost all = lines(text@);
    let mut sum: u64 = 0;
    let mut idx: usize = 0;
    assert(views(ls@).take(0) =~= Seq::<Seq<char>>::empty());
    while idx < ls.len()
        invariant
            idx <= ls.len(),
            views(ls@) == all,
            all == lines(text@),
            sum == quantity_sum(all.take(idx as int)),
            sum <= i32::MAX,
        decreases ls.len() - idx,
    {
        let ghost pre = all.take(idx as int);
        let ghost post = all.take(idx + 1);
        assert(post.drop_last() == pre);
        assert(post.last() == ls@[idx as int]@);
        match line_numbers_exec(&ls[idx]) {
            Some((_, _, q)) => {
                sum = sum + q as u64;
            },
            None => {},
        }
        assert(sum == quantity_sum(post));
        if sum > 2147483647 {
            proof {
                lemma_quantity_sum_prefix(all, idx + 1);
            }
            return false;
        }
        idx += 1;
    }
    assert(all.take(ls.len() as int) == all);
    true
}

} // verus!
