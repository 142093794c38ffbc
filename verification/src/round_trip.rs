//! Reading back what was written: the editor text made from the rectangle
//! types of a test case reads as those same types.
use vstd::prelude::*;
use crate::rect_input::{add_rect, first_with_dims, same_dims, scan, scan_line, ScanState};
use crate::text::{
    all_digits, int_decimal, is_digit, is_ws, join, lemma_nat_decimal_digits, lemma_parse_i32_of_decimal,
    lines, nat_decimal, newline_pieces, parse_i32, strip_cr, words,
};
use crate::types::Rectangle;
use crate::workspace::{rect_line, rectangles_text};

verus! {

// ───────────────────────────── lines ─────────────────────────────

pub open spec fn no_newline(s: Seq<char>) -> bool {
    forall|i: int| 0 <= i < s.len() ==> #[trigger] s[i] != '\n'
}

/// Appending text without a newline extends the last piece.
proof fn lemma_pieces_append(s: Seq<char>, t: Seq<char>)
    requires
        no_newline(t),
    ensures
        newline_pieces(s + t).len() == newline_pieces(s).len(),
        newline_pieces(s + t) == newline_pieces(s).update(
            newline_pieces(s).len() - 1,
            newline_pieces(s).last() + t,
        ),
        newline_pieces(s).len() >= 1,
    decreases t.len(),
{
    lemma_pieces_nonempty(s);
    if t.len() == 0 {
        assert(s + t == s);
        assert(newline_pieces(s).last() + t == newline_pieces(s).last());
        assert(newline_pieces(s).update(newline_pieces(s).len() - 1, newline_pieces(s).last())
            == newline_pieces(s));
    } else {
        let t0 = t.drop_last();
        assert forall|i: int| 0 <= i < t0.len() implies #[trigger] t0[i] != '\n' by {
            assert(t0[i] == t[i]);
        }
        lemma_pieces_append(s, t0);
        assert((s + t).drop_last() == s + t0);
        assert((s + t).last() == t.last());
        assert(t.last() != '\n');
        let p = newline_pieces(s);
        assert(newline_pieces(s + t0).last() == p.last() + t0);
        assert(p.last() + t0 + seq![t.last()] == p.last() + t);
        assert((p.last() + t0).push(t.last()) == p.last() + t);
    }
}

proof fn lemma_pieces_nonempty(s: Seq<char>)
    ensures
        newline_pieces(s).len() >= 1,
    decreases s.len(),
{
    if s.len() > 0 {
        lemma_pieces_nonempty(s.drop_last());
    }
}

/// The pieces of lines joined by newlines are the lines.
proof fn lemma_pieces_of_join(parts: Seq<Seq<char>>)
    requires
        parts.len() >= 1,
        forall|i: int| 0 <= i < parts.len() ==> no_newline(#[trigger] parts[i]),
    ensures
        newline_pieces(join(parts, seq!['\n'])) == parts,
    decreases parts.len(),
{
    if parts.len() == 1 {
        lemma_pieces_append(Seq::empty(), parts[0]);
        assert(Seq::<char>::empty() + parts[0] == parts[0]);
        assert(newline_pieces(Seq::<char>::empty()) == seq![Seq::<char>::empty()]);
        assert(Seq::<char>::empty() + parts[0] == parts[0]);
        assert(seq![Seq::<char>::empty()].update(0, Seq::<char>::empty() + parts[0]) == parts);
    } else {
        let front = parts.drop_last();
        assert forall|i: int| 0 <= i < front.len() implies no_newline(#[trigger] front[i]) by {
            assert(front[i] == parts[i]);
        }
        lemma_pieces_of_join(front);
        let j = join(front, seq!['\n']);
        let jn = j + seq!['\n'];
        assert(jn == j.push('\n'));
        assert(jn.drop_last() == j);
        assert(newline_pieces(jn) == front.push(Seq::<char>::empty()));
        assert(no_newline(parts[parts.len() - 1]));
        lemma_pieces_append(jn, parts.last());
        assert(join(parts, seq!['\n']) == jn + parts.last());
        assert(Seq::<char>::empty() + parts.last() == parts.last());
        assert(front.push(Seq::<char>::empty()).update(front.len() as int, parts.last()) == parts);
    }
}

/// The lines of non-empty lines joined by newlines are those lines, when
/// none of them holds a newline or ends with a carriage return.
pub proof fn lemma_lines_of_join(parts: Seq<Seq<char>>)
    requires
        forall|i: int| 0 <= i < parts.len() ==> no_newline(#[trigger] parts[i]),
        forall|i: int| 0 <= i < parts.len() ==> (#[trigger] parts[i]).len() > 0 && parts[i].last() != '\r',
    ensures
        lines(join(parts, seq!['\n'])) == parts,
{
    if parts.len() == 0 {
        assert(join(parts, seq!['\n']) == Seq::<char>::empty());
        assert(newline_pieces(Seq::<char>::empty()) == seq![Seq::<char>::empty()]);
        assert(lines(Seq::<char>::empty()) =~= parts);
    } else {
        lemma_pieces_of_join(parts);
        let p = newline_pieces(join(parts, seq!['\n']));
        assert(p.last().len() > 0);
        assert forall|i: int| 0 <= i < parts.len() implies #[trigger] lines(join(parts, seq!['\n']))[i] == parts[i] by {
            if i < p.len() - 1 {
                assert(strip_cr(p[i]) == p[i]);
            }
        }
        assert(lines(join(parts, seq!['\n'])) =~= parts);
    }
}

// ───────────────────────────── words ─────────────────────────────

pub open spec fn no_ws(s: Seq<char>) -> bool {
    forall|i: int| 0 <= i < s.len() ==> !is_ws(#[trigger] s[i])
}

/// A run of non-whitespace after whitespace (or at the start) is one more
/// word.
proof fn lemma_words_append_word(s: Seq<char>, t: Seq<char>)
    requires
        t.len() > 0,
        no_ws(t),
        s.len() == 0 || is_ws(s.last()),
    ensures
        words(s + t) == words(s).push(t),
    decreases t.len(),
{
    if t.len() == 1 {
        assert(s + t == s.push(t[0]));
        assert((s + t).drop_last() == s);
        assert(t == seq![t[0]]);
    } else {
        let t0 = t.drop_last();
        assert forall|i: int| 0 <= i < t0.len() implies !is_ws(#[trigger] t0[i]) by {
            assert(t0[i] == t[i]);
        }
        lemma_words_append_word(s, t0);
        assert((s + t).drop_last() == s + t0);
        assert((s + t).last() == t.last());
        assert((s + t0).last() == t0.last());
        assert(!is_ws(t0.last()));
        let w = words(s + t0);
        assert(w.last() == t0);
        assert(t0.push(t.last()) == t);
        assert(w.update(w.len() - 1, t) == words(s).push(t));
    }
}

proof fn lemma_words_append_space(s: Seq<char>)
    ensures
        words(s.push(' ')) == words(s),
{
    assert(s.push(' ').drop_last() == s);
}

proof fn lemma_decimal_shape(n: int)
    ensures
        int_decimal(n).len() > 0,
        no_ws(int_decimal(n)),
        no_newline(int_decimal(n)),
        int_decimal(n).last() != '\r',
{
    if n < 0 {
        lemma_nat_decimal_digits((-n) as nat);
        let d = nat_decimal((-n) as nat);
        let s = seq!['-'] + d;
        assert forall|i: int| 0 <= i < s.len() implies !is_ws(#[trigger] s[i]) && s[i] != '\n' by {
            if i > 0 {
                assert(s[i] == d[i - 1]);
                assert(is_digit(d[i - 1]));
            }
        }
        assert(s.last() == d.last());
        assert(is_digit(d[d.len() - 1]));
    } else {
        lemma_nat_decimal_digits(n as nat);
        let d = nat_decimal(n as nat);
        assert forall|i: int| 0 <= i < d.len() implies !is_ws(#[trigger] d[i]) && d[i] != '\n' by {
            assert(is_digit(d[i]));
        }
        assert(is_digit(d[d.len() - 1]));
    }
}

/// The words of an editor line are the three numbers.
proof fn lemma_rect_line_words(r: Rectangle)
    ensures
        words(rect_line(r)) == seq![int_decimal(r.width as int), int_decimal(r.height as int), int_decimal(r.quantity as int)],
        no_newline(rect_line(r)),
        rect_line(r).len() > 0,
        rect_line(r).last() != '\r',
{
    let a = int_decimal(r.width as int);
    let b = int_decimal(r.height as int);
    let c = int_decimal(r.quantity as int);
    lemma_decimal_shape(r.width as int);
    lemma_decimal_shape(r.height as int);
    lemma_decimal_shape(r.quantity as int);
    assert(words(Seq::<char>::empty()) == Seq::<Seq<char>>::empty());
    lemma_words_append_word(Seq::empty(), a);
    assert(Seq::<char>::empty() + a == a);
    lemma_words_append_space(a);
    let s1 = a.push(' ');
    assert(s1.last() == ' ');
    lemma_words_append_word(s1, b);
    let s2 = (s1 + b).push(' ');
    lemma_words_append_space(s1 + b);
    lemma_words_append_word(s2, c);
    assert(rect_line(r) == s2 + c);
    assert(seq![a] == Seq::<Seq<char>>::empty().push(a));
    assert(words(rect_line(r)) =~= seq![a, b, c]);
    let l = rect_line(r);
    assert forall|i: int| 0 <= i < l.len() implies #[trigger] l[i] != '\n' by {
        if i < a.len() {
            assert(l[i] == a[i]);
        } else if i == a.len() {
            assert(l[i] == ' ');
        } else if i < a.len() + 1 + b.len() {
            assert(l[i] == b[i - a.len() - 1]);
        } else if i == a.len() + 1 + b.len() {
            assert(l[i] == ' ');
        } else {
            assert(l[i] == c[i - a.len() - 2 - b.len()]);
        }
    }
    assert(l.last() == c.last());
}

// ───────────────────────────── the scan ─────────────────────────────

/// The rectangle types that the editor text can hold and read back
/// unchanged: positive dimensions and quantities, widths within the bin
/// width `w`, and no two types with the same dimensions.
pub open spec fn writable_types(rects: Seq<Rectangle>, w: int) -> bool {
    &&& forall|i: int| 0 <= i < rects.len() ==> (#[trigger] rects[i]).width > 0 && rects[i].height > 0
        && rects[i].quantity > 0 && rects[i].width <= w
    &&& forall|i: int, j: int| 0 <= i < j < rects.len() ==> !same_dims(#[trigger] rects[i], rects[j].width, #[trigger] rects[j].height)
}

proof fn lemma_scan_lines(rects: Seq<Rectangle>, w: int)
    requires
        writable_types(rects, w),
    ensures
        scan(rects.map_values(|r: Rectangle| rect_line(r)), w).rects == rects,
        scan(rects.map_values(|r: Rectangle| rect_line(r)), w).errors.len() == 0,
    decreases rects.len(),
{
    let ls = rects.map_values(|r: Rectangle| rect_line(r));
    if rects.len() > 0 {
        let front = rects.drop_last();
        assert forall|i: int, j: int| 0 <= i < j < front.len() implies !same_dims(#[trigger] front[i], front[j].width, #[trigger] front[j].height) by {
            assert(front[i] == rects[i] && front[j] == rects[j]);
        }
        assert forall|i: int| 0 <= i < front.len() implies (#[trigger] front[i]).width > 0 && front[i].height > 0
            && front[i].quantity > 0 && front[i].width <= w by {
            assert(front[i] == rects[i]);
        }
        lemma_scan_lines(front, w);
        assert(ls.drop_last() == front.map_values(|r: Rectangle| rect_line(r)));
        let st = scan(ls.drop_last(), w);
        let r = rects.last();
        assert(ls.last() == rect_line(r));
        lemma_rect_line_words(r);
        lemma_parse_i32_of_decimal(r.width);
        lemma_parse_i32_of_decimal(r.height);
        lemma_parse_i32_of_decimal(r.quantity);
        assert(!exists|j: int| first_with_dims(st.rects, r.width, r.height, j)) by {
            if exists|j: int| first_with_dims(st.rects, r.width, r.height, j) {
                let j = choose|j: int| first_with_dims(st.rects, r.width, r.height, j);
                assert(st.rects[j] == rects[j]);
                assert(!same_dims(rects[j], rects[rects.len() - 1].width, rects[rects.len() - 1].height));
            }
        }
        assert(add_rect(st.rects, r.width, r.height, r.quantity) == front.push(r));
        assert(front.push(r) == rects);
    } else {
        assert(ls.len() == 0);
    }
}

/// Reading the editor text of rectangle types (as `parse_rectangles` reads
/// its rectangle list against the bin width `w`) gives back exactly those
/// types, in order, and no message, when their dimensions and quantities
/// are positive, no wider than the bin and no two types share dimensions.
pub proof fn lemma_rectangles_text_reads_back(rects: Seq<Rectangle>, w: int)
    requires
        writable_types(rects, w),
    ensures
        scan(lines(rectangles_text(rects)), w).rects == rects,
        scan(lines(rectangles_text(rects)), w).errors.len() == 0,
{
    let ls = rects.map_values(|r: Rectangle| rect_line(r));
    assert forall|i: int| 0 <= i < ls.len() implies no_newline(#[trigger] ls[i]) && ls[i].len() > 0 && ls[i].last() != '\r' by {
        lemma_rect_line_words(rects[i]);
    }
    lemma_lines_of_join(ls);
    lemma_scan_lines(rects, w);
}

/// The rectangle types read from a rectangle list never share dimensions:
/// lines with the dimensions of an earlier type add to it.
pub proof fn lemma_read_types_distinct(ls: Seq<Seq<char>>, w: int)
    ensures
        forall|i: int, j: int|
            0 <= i < j < scan(ls, w).rects.len() ==> !same_dims(
                #[trigger] scan(ls, w).rects[i],
                scan(ls, w).rects[j].width,
                #[trigger] scan(ls, w).rects[j].height,
            ),
    decreases ls.len(),
{
    if ls.len() > 0 {
        lemma_read_types_distinct(ls.drop_last(), w);
        let st = scan(ls.drop_last(), w);
        let r = st.rects;
        let out = scan(ls, w).rects;
        assert forall|i: int, j: int| 0 <= i < j < out.len() implies !same_dims(
            #[trigger] out[i],
            out[j].width,
            #[trigger] out[j].height,
        ) by {
            if out != r {
                let parts = words(ls.last());
                let x = parse_i32(parts[0]).unwrap();
                let y = parse_i32(parts[1]).unwrap();
                let q = parse_i32(parts[2]).unwrap();
                assert(out == add_rect(r, x, y, q));
                if exists|k: int| first_with_dims(r, x, y, k) {
                    let k = choose|k: int| first_with_dims(r, x, y, k);
                    assert(out.len() == r.len());
                    assert(same_dims(out[k], r[k].width, r[k].height));
                    if i != k && j != k {
                        assert(out[i] == r[i] && out[j] == r[j]);
                    } else if i == k {
                        assert(out[j] == r[j]);
                        assert(!same_dims(r[i], r[j].width, r[j].height));
                    } else {
                        assert(out[i] == r[i]);
                        assert(!same_dims(r[i], r[j].width, r[j].height));
                    }
                } else {
                    if j < r.len() {
                        assert(out[i] == r[i] && out[j] == r[j]);
                    } else {
                        assert(out[i] == r[i]);
                        assert(out[j].width == x && out[j].height == y);
                        assert(!first_with_dims(r, x, y, i));
                        if same_dims(r[i], x, y) {
                            assert forall|k: int| 0 <= k < i implies !same_dims(#[trigger] r[k], x, y) by {
                                assert(!same_dims(r[k], r[i].width, r[i].height));
                            }
                            assert(first_with_dims(r, x, y, i));
                        }
                    }
                }
            } else {
            }
        }
    }
}

} // verus!
