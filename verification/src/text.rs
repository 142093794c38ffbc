//! Character-level text utilities with their specifications: Unicode
//! whitespace, trimming, splitting into words and lines, decimal parsing and
//! decimal formatting, and ASCII case handling.
use vstd::prelude::*;

verus! {

// ───────────────────────────── whitespace ─────────────────────────────

/// The Unicode `White_Space` property.
pub open spec fn is_ws(c: char) -> bool {
    ||| ('\u{9}' <= c && c <= '\u{d}')
    ||| c == ' '
    ||| c == '\u{85}'
    ||| c == '\u{a0}'
    ||| c == '\u{1680}'
    ||| ('\u{2000}' <= c && c <= '\u{200a}')
    ||| c == '\u{2028}'
    ||| c == '\u{2029}'
    ||| c == '\u{202f}'
    ||| c == '\u{205f}'
    ||| c == '\u{3000}'
}

pub fn char_is_ws(c: char) -> (r: bool)
    ensures
        r == is_ws(c),
{
    ('\u{9}' <= c && c <= '\u{d}') || c == ' ' || c == '\u{85}' || c == '\u{a0}' || c
        == '\u{1680}' || ('\u{2000}' <= c && c <= '\u{200a}') || c == '\u{2028}' || c
        == '\u{2029}' || c == '\u{202f}' || c == '\u{205f}' || c == '\u{3000}'
}

/// `s` with its leading whitespace removed.
pub open spec fn trim_start(s: Seq<char>) -> Seq<char>
    decreases s.len(),
{
    if s.len() > 0 && is_ws(s[0]) {
        trim_start(s.drop_first())
    } else {
        s
    }
}

/// `s` with its trailing whitespace removed.
pub open spec fn trim_end(s: Seq<char>) -> Seq<char>
    decreases s.len(),
{
    if s.len() > 0 && is_ws(s.last()) {
        trim_end(s.drop_last())
    } else {
        s
    }
}

/// `s` with leading and trailing whitespace removed (`str::trim`).
pub open spec fn trim(s: Seq<char>) -> Seq<char> {
    trim_end(trim_start(s))
}

/// `s` with every leading and trailing occurrence of `c` removed
/// (`str::trim_matches` with a single character).
pub open spec fn strip_char_start(s: Seq<char>, c: char) -> Seq<char>
    decreases s.len(),
{
    if s.len() > 0 && s[0] == c {
        strip_char_start(s.drop_first(), c)
    } else {
        s
    }
}

pub open spec fn strip_char_end(s: Seq<char>, c: char) -> Seq<char>
    decreases s.len(),
{
    if s.len() > 0 && s.last() == c {
        strip_char_end(s.drop_last(), c)
    } else {
        s
    }
}

pub open spec fn strip_char(s: Seq<char>, c: char) -> Seq<char> {
    strip_char_end(strip_char_start(s, c), c)
}

/// The whitespace-separated words of `s` (`str::split_whitespace`): the
/// maximal runs of non-whitespace characters, in order.
pub open spec fn words(s: Seq<char>) -> Seq<Seq<char>>
    decreases s.len(),
{
    if s.len() == 0 {
        Seq::empty()
    } else {
        let p = s.drop_last();
        let c = s.last();
        let w = words(p);
        if is_ws(c) {
            w
        } else if p.len() > 0 && !is_ws(p.last()) {
            w.update(w.len() - 1, w.last().push(c))
        } else {
            w.push(seq![c])
        }
    }
}

/// The pieces of `s` between newline characters; there is always one more
/// piece than there are newlines.
pub open spec fn newline_pieces(s: Seq<char>) -> Seq<Seq<char>>
    decreases s.len(),
{
    if s.len() == 0 {
        seq![Seq::<char>::empty()]
    } else {
        let p = newline_pieces(s.drop_last());
        if s.last() == '\n' {
            p.push(Seq::empty())
        } else {
            p.update(p.len() - 1, p.last().push(s.last()))
        }
    }
}

pub open spec fn strip_cr(s: Seq<char>) -> Seq<char> {
    if s.len() > 0 && s.last() == '\r' {
        s.drop_last()
    } else {
        s
    }
}

/// The lines of `s` (`str::lines`): split at `\n`, a `\r` just before a
/// `\n` removed, and an empty piece after a final `\n` not counted.
pub open spec fn lines(s: Seq<char>) -> Seq<Seq<char>> {
    let p = newline_pieces(s);
    let n = if p.last().len() == 0 {
        p.len() - 1
    } else {
        p.len() as int
    };
    Seq::new(n as nat, |i: int| if i < p.len() - 1 { strip_cr(p[i]) } else { p[i] })
}

// ───────────────────────────── digits and numbers ─────────────────────────────

pub open spec fn is_digit(c: char) -> bool {
    '0' <= c && c <= '9'
}

pub open spec fn all_digits(d: Seq<char>) -> bool {
    forall|i: int| 0 <= i < d.len() ==> is_digit(#[trigger] d[i])
}

pub open spec fn digit_value(c: char) -> int {
    c as int - '0' as int
}

pub open spec fn digit_char(d: int) -> char {
    ((('0' as int) + d) as u32) as char
}

/// The number that a string of decimal digits denotes.
pub open spec fn digits_value(d: Seq<char>) -> int
    decreases d.len(),
{
    if d.len() == 0 {
        0
    } else {
        digits_value(d.drop_last()) * 10 + digit_value(d.last())
    }
}

/// What `str::parse` gives for a signed integer type, before the range check:
/// an optional `+` or `-`, then one or more decimal digits.
pub open spec fn parse_signed(s: Seq<char>) -> Option<int> {
    let neg = s.len() > 0 && s[0] == '-';
    let d = if s.len() > 0 && (s[0] == '-' || s[0] == '+') {
        s.drop_first()
    } else {
        s
    };
    if d.len() == 0 || !all_digits(d) {
        None
    } else if neg {
        Some(-digits_value(d))
    } else {
        Some(digits_value(d))
    }
}

/// What `str::parse` gives for an unsigned integer type, before the range
/// check: an optional `+`, then one or more decimal digits.
pub open spec fn parse_unsigned(s: Seq<char>) -> Option<int> {
    let d = if s.len() > 0 && s[0] == '+' {
        s.drop_first()
    } else {
        s
    };
    if d.len() == 0 || !all_digits(d) {
        None
    } else {
        Some(digits_value(d))
    }
}

/// `s.parse::<i32>()`, as an option.
pub open spec fn parse_i32(s: Seq<char>) -> Option<i32> {
    match parse_signed(s) {
        Some(v) => if i32::MIN <= v <= i32::MAX {
            Some(v as i32)
        } else {
            None
        },
        None => None,
    }
}

/// `s.parse::<uN>()` for an unsigned type whose largest value is `max`.
pub open spec fn parse_bounded(s: Seq<char>, max: int) -> Option<int> {
    match parse_unsigned(s) {
        Some(v) => if v <= max {
            Some(v)
        } else {
            None
        },
        None => None,
    }
}

/// The decimal digits of a natural number, without leading zeros.
pub open spec fn nat_decimal(n: nat) -> Seq<char>
    decreases n,
{
    if n < 10 {
        seq![digit_char(n as int)]
    } else {
        nat_decimal(n / 10).push(digit_char((n % 10) as int))
    }
}

/// The decimal form of an integer, as `Display` writes it.
pub open spec fn int_decimal(n: int) -> Seq<char> {
    if n < 0 {
        seq!['-'].add(nat_decimal((-n) as nat))
    } else {
        nat_decimal(n as nat)
    }
}

// ───────────────────────────── ASCII case ─────────────────────────────

pub open spec fn ascii_lower(c: char) -> char {
    if 'A' <= c && c <= 'Z' {
        ((c as u32) + 32) as char
    } else {
        c
    }
}

pub open spec fn is_ascii_alnum(c: char) -> bool {
    ('0' <= c && c <= '9') || ('a' <= c && c <= 'z') || ('A' <= c && c <= 'Z')
}

/// `a.eq_ignore_ascii_case(b)`: same length, and equal characters once ASCII
/// letters are lowercased.
pub open spec fn eq_ignore_case(a: Seq<char>, b: Seq<char>) -> bool {
    a.len() == b.len() && forall|i: int| 0 <= i < a.len() ==> ascii_lower(#[trigger] a[i])
        == ascii_lower(b[i])
}

// ───────────────────────────── conversions ─────────────────────────────

/// The characters of a string slice.
pub fn chars_of(s: &str) -> (v: Vec<char>)
    ensures
        v@ == s@,
{
    let mut v: Vec<char> = Vec::new();
    for c in it: s.chars()
        invariant
            v@ == it.seq().take(it.index() as int),
            it.seq() == s@,
    {
        v.push(c);
    }
    v
}

/// The string made of the given characters (`String: FromIterator<char>`).
#[verifier::external_body]
pub(crate) fn string_from_chars(v: &Vec<char>) -> (s: String)
    ensures
        s@ == v@,
{
    v.iter().collect::<String>()
}

/// Appends the characters of `s` to `out`.
pub fn push_str(out: &mut Vec<char>, s: &str)
    ensures
        final(out)@ == old(out)@ + s@,
{
    let cs = chars_of(s);
    push_chars(out, &cs);
}

/// Appends `cs` to `out`.
pub fn push_chars(out: &mut Vec<char>, cs: &Vec<char>)
    ensures
        final(out)@ == old(out)@ + cs@,
{
    let mut i: usize = 0;
    while i < cs.len()
        invariant
            i <= cs.len(),
            out@ == old(out)@ + cs@.take(i as int),
        decreases cs.len() - i,
    {
        out.push(cs[i]);
        i += 1;
        assert(cs@.take(i as int) == cs@.take(i - 1).push(cs@[i - 1]));
    }
    assert(cs@.take(i as int) == cs@);
}

// ───────────────────────────── trimming ─────────────────────────────

proof fn lemma_trim_start_skip(s: Seq<char>, i: int)
    requires
        0 <= i < s.len(),
        is_ws(s[i]),
    ensures
        trim_start(s.skip(i)) == trim_start(s.skip(i + 1)),
{
    assert(s.skip(i).drop_first() == s.skip(i + 1));
}

proof fn lemma_trim_end_take(s: Seq<char>, j: int)
    requires
        0 < j <= s.len(),
        is_ws(s[j - 1]),
    ensures
        trim_end(s.take(j)) == trim_end(s.take(j - 1)),
{
    assert(s.take(j).drop_last() == s.take(j - 1));
}

/// The index of the first character of `v` that is not whitespace, or its
/// length.
fn first_non_ws(v: &Vec<char>) -> (i: usize)
    ensures
        i <= v.len(),
        trim_start(v@) == v@.skip(i as int),
{
    let mut i: usize = 0;
    assert(v@.skip(0) == v@);
    while i < v.len() && char_is_ws(v[i])
        invariant
            i <= v.len(),
            trim_start(v@) == trim_start(v@.skip(i as int)),
        decreases v.len() - i,
    {
        proof {
            lemma_trim_start_skip(v@, i as int);
        }
        i += 1;
    }
    assert(v@.skip(0) == v@);
    i
}

/// `str::trim` on characters.
pub fn trim_chars(v: &Vec<char>) -> (r: Vec<char>)
    ensures
        r@ == trim(v@),
{
    let start = first_non_ws(v);
    let ghost tail = v@.skip(start as int);
    let mut j: usize = v.len();
    assert(tail.take(j - start) == tail);
    while j > start && char_is_ws(v[j - 1])
        invariant
            start <= j <= v.len(),
            tail == v@.skip(start as int),
            trim_end(tail) == trim_end(tail.take(j - start)),
        decreases j,
    {
        proof {
            lemma_trim_end_take(tail, j - start);
        }
        j -= 1;
    }
    assert(tail.take(v.len() - start) == tail);
    let r = slice_chars(v, start, j);
    assert(r@ == tail.take(j - start));
    r
}

/// `str::trim_end` on characters.
pub fn trim_end_chars(v: &Vec<char>) -> (r: Vec<char>)
    ensures
        r@ == trim_end(v@),
{
    let mut j: usize = v.len();
    assert(v@.take(j as int) == v@);
    while j > 0 && char_is_ws(v[j - 1])
        invariant
            j <= v.len(),
            trim_end(v@) == trim_end(v@.take(j as int)),
        decreases j,
    {
        proof {
            lemma_trim_end_take(v@, j as int);
        }
        j -= 1;
    }
    assert(v@.take(v.len() as int) == v@);
    slice_chars(v, 0, j)
}

/// The characters of `v` from index `a` up to (not including) `b`.
pub fn slice_chars(v: &Vec<char>, a: usize, b: usize) -> (r: Vec<char>)
    requires
        a <= b <= v.len(),
    ensures
        r@ == v@.subrange(a as int, b as int),
{
    let mut r: Vec<char> = Vec::new();
    let mut i = a;
    while i < b
        invariant
            a <= i <= b <= v.len(),
            r@ == v@.subrange(a as int, i as int),
        decreases b - i,
    {
        r.push(v[i]);
        i += 1;
        assert(v@.subrange(a as int, i as int) == v@.subrange(a as int, i - 1).push(v@[i - 1]));
    }
    r
}

proof fn lemma_strip_start_skip(s: Seq<char>, c: char, i: int)
    requires
        0 <= i < s.len(),
        s[i] == c,
    ensures
        strip_char_start(s.skip(i), c) == strip_char_start(s.skip(i + 1), c),
{
    assert(s.skip(i).drop_first() == s.skip(i + 1));
}

proof fn lemma_strip_end_take(s: Seq<char>, c: char, j: int)
    requires
        0 < j <= s.len(),
        s[j - 1] == c,
    ensures
        strip_char_end(s.take(j), c) == strip_char_end(s.take(j - 1), c),
{
    assert(s.take(j).drop_last() == s.take(j - 1));
}

/// `str::trim_matches(c)` for a single character `c`.
pub fn strip_char_chars(v: &Vec<char>, c: char) -> (r: Vec<char>)
    ensures
        r@ == strip_char(v@, c),
{
    let mut i: usize = 0;
    assert(v@.skip(0) == v@);
    while i < v.len() && v[i] == c
        invariant
            i <= v.len(),
            strip_char_start(v@, c) == strip_char_start(v@.skip(i as int), c),
        decreases v.len() - i,
    {
        proof {
            lemma_strip_start_skip(v@, c, i as int);
        }
        i += 1;
    }
    assert(v@.skip(0) == v@);
    let ghost tail = v@.skip(i as int);
    assert(strip_char_start(v@, c) == tail);
    let mut j: usize = v.len();
    assert(tail.take(j - i) == tail);
    while j > i && v[j - 1] == c
        invariant
            i <= j <= v.len(),
            tail == v@.skip(i as int),
            strip_char_end(tail, c) == strip_char_end(tail.take(j - i), c),
        decreases j,
    {
        proof {
            lemma_strip_end_take(tail, c, j - i);
        }
        j -= 1;
    }
    assert(tail.take(v.len() - i) == tail);
    let r = slice_chars(v, i, j);
    assert(r@ == tail.take(j - i));
    r
}


// ───────────────────────────── words and lines ─────────────────────────────

/// The views of a sequence of character vectors.
pub open spec fn views(v: Seq<Vec<char>>) -> Seq<Seq<char>> {
    v.map_values(|w: Vec<char>| w@)
}

proof fn lemma_views_push(v: Seq<Vec<char>>, x: Vec<char>)
    ensures
        views(v.push(x)) == views(v).push(x@),
{
    assert(views(v.push(x)) =~= views(v).push(x@));
}

/// `str::split_whitespace` on characters.
pub fn split_words(v: &Vec<char>) -> (r: Vec<Vec<char>>)
    ensures
        views(r@) == words(v@),
{
    let mut done: Vec<Vec<char>> = Vec::new();
    let mut cur: Vec<char> = Vec::new();
    let mut in_word = false;
    let mut i: usize = 0;
    assert(v@.take(0) =~= Seq::<char>::empty());
    while i < v.len()
        invariant
            i <= v.len(),
            in_word == (i > 0 && !is_ws(v@[i - 1])),
            in_word ==> words(v@.take(i as int)) == views(done@).push(cur@),
            !in_word ==> words(v@.take(i as int)) == views(done@),
        decreases v.len() - i,
    {
        let c = v[i];
        let ghost p = v@.take(i as int);
        assert(v@.take(i + 1).drop_last() == p);
        assert(v@.take(i + 1).last() == c);
        if char_is_ws(c) {
            if in_word {
                proof {
                    lemma_views_push(done@, cur);
                }
                done.push(cur);
                cur = Vec::new();
            }
            in_word = false;
        } else if in_word {
            let ghost old_cur = cur@;
            cur.push(c);
            assert(views(done@).push(old_cur).update(views(done@).len() as int, old_cur.push(c))
                =~= views(done@).push(cur@));
            in_word = true;
        } else {
            cur = Vec::new();
            cur.push(c);
            assert(cur@ =~= seq![c]);
            in_word = true;
        }
        i += 1;
    }
    assert(v@.take(v.len() as int) == v@);
    if in_word {
        proof {
            lemma_views_push(done@, cur);
        }
        done.push(cur);
    }
    done
}

/// Removes one `\r` at the end of `v`, if there is one.
fn strip_cr_chars(v: Vec<char>) -> (r: Vec<char>)
    ensures
        r@ == strip_cr(v@),
{
    let mut v = v;
    if v.len() > 0 && v[v.len() - 1] == '\r' {
        v.pop();
    }
    v
}

/// `str::lines` on characters.
pub fn split_lines(v: &Vec<char>) -> (r: Vec<Vec<char>>)
    ensures
        views(r@) == lines(v@),
{
    let mut done: Vec<Vec<char>> = Vec::new();
    let mut cur: Vec<char> = Vec::new();
    let mut i: usize = 0;
    assert(v@.take(0) =~= Seq::<char>::empty());
    while i < v.len()
        invariant
            i <= v.len(),
            newline_pieces(v@.take(i as int)) == views(done@).push(cur@),
        decreases v.len() - i,
    {
        let c = v[i];
        assert(v@.take(i + 1).drop_last() == v@.take(i as int));
        if c == '\n' {
            proof {
                lemma_views_push(done@, cur);
            }
            done.push(cur);
            cur = Vec::new();
        } else {
            let ghost old_cur = cur@;
            cur.push(c);
            assert(views(done@).push(old_cur).update(views(done@).len() as int, old_cur.push(c))
                =~= views(done@).push(cur@));
        }
        i += 1;
    }
    assert(v@.take(v.len() as int) == v@);
    let ghost p = newline_pieces(v@);
    let ghost n = done.len();
    let mut out: Vec<Vec<char>> = Vec::new();
    let mut k: usize = 0;
    while k < done.len()
        invariant
            k <= done.len(),
            n == done.len(),
            p == views(done@).push(cur@),
            views(out@) == Seq::new(k as nat, |j: int| strip_cr(p[j])),
        decreases done.len() - k,
    {
        let line = strip_cr_chars(done[k].clone());
        proof {
            lemma_views_push(out@, line);
        }
        out.push(line);
        k += 1;
        assert(views(out@) =~= Seq::new(k as nat, |j: int| strip_cr(p[j])));
    }
    if cur.len() > 0 {
        proof {
            lemma_views_push(out@, cur);
        }
        out.push(cur);
    }
    assert(views(out@) =~= lines(v@));
    out
}

// ───────────────────────────── parsing numbers ─────────────────────────────

proof fn lemma_digits_value_push(d: Seq<char>, c: char)
    ensures
        digits_value(d.push(c)) == digits_value(d) * 10 + digit_value(c),
{
    assert(d.push(c).drop_last() == d);
}

/// Reads the digits `v[start..]` into a number, saturating once it exceeds
/// `limit`; `None` when some character is not a digit.
fn read_digits(v: &Vec<char>, start: usize, limit: u64) -> (r: Option<(u64, bool)>)
    requires
        start <= v.len(),
    ensures
        r is None <==> !all_digits(v@.subrange(start as int, v.len() as int)),
        r matches Some((val, big)) ==> {
            let d = v@.subrange(start as int, v.len() as int);
            &&& big ==> digits_value(d) > limit
            &&& !big ==> val == digits_value(d) && val <= limit
        },
{
    let mut val: u64 = 0;
    let mut big = false;
    let mut i = start;
    assert(v@.subrange(start as int, start as int) =~= Seq::<char>::empty());
    while i < v.len()
        invariant
            start <= i <= v.len(),
            all_digits(v@.subrange(start as int, i as int)),
            big ==> digits_value(v@.subrange(start as int, i as int)) > limit,
            !big ==> val == digits_value(v@.subrange(start as int, i as int)) && val <= limit,
        decreases v.len() - i,
    {
        let c = v[i];
        let ghost prev = v@.subrange(start as int, i as int);
        assert(v@.subrange(start as int, i + 1) == prev.push(c));
        if !('0' <= c && c <= '9') {
            assert(!is_digit(v@.subrange(start as int, v.len() as int)[i - start]));
            return None;
        }
        proof {
            lemma_digits_value_push(prev, c);
        }
        let d = ((c as u32) - 48) as u64;
        if !big {
            if (val as u128) * 10 + (d as u128) > limit as u128 {
                big = true;
            } else {
                val = val * 10 + d;
            }
        }
        i += 1;
    }
    assert(v@.subrange(start as int, v.len() as int) == v@.subrange(start as int, i as int));
    Some((val, big))
}

/// `s.parse::<i32>()` on characters.
pub fn parse_i32_chars(v: &Vec<char>) -> (r: Option<i32>)
    ensures
        r == parse_i32(v@),
{
    let neg = v.len() > 0 && v[0] == '-';
    let start: usize = if v.len() > 0 && (v[0] == '-' || v[0] == '+') {
        1
    } else {
        0
    };
    let ghost d = if v@.len() > 0 && (v@[0] == '-' || v@[0] == '+') {
        v@.drop_first()
    } else {
        v@
    };
    assert(d == v@.subrange(start as int, v.len() as int));
    if start == v.len() {
        return None;
    }
    match read_digits(v, start, 2147483648) {
        None => None,
        Some((val, big)) => {
            if big {
                None
            } else if neg {
                Some((0i64 - val as i64) as i32)
            } else if val <= 2147483647 {
                Some(val as i32)
            } else {
                None
            }
        },
    }
}

/// `s.parse::<uN>()` on characters, for an unsigned type whose largest value
/// is `max`.
pub fn parse_bounded_chars(v: &Vec<char>, max: u64) -> (r: Option<u64>)
    ensures
        match r {
            Some(x) => parse_bounded(v@, max as int) == Some(x as int),
            None => parse_bounded(v@, max as int) is None,
        },
{
    let start: usize = if v.len() > 0 && v[0] == '+' {
        1
    } else {
        0
    };
    let ghost d = if v@.len() > 0 && v@[0] == '+' {
        v@.drop_first()
    } else {
        v@
    };
    assert(d == v@.subrange(start as int, v.len() as int));
    if start == v.len() {
        return None;
    }
    match read_digits(v, start, max) {
        None => None,
        Some((val, big)) => {
            if big {
                None
            } else {
                Some(val)
            }
        },
    }
}

// ───────────────────────────── formatting numbers ─────────────────────────────

/// The decimal digits of `n`.
pub fn nat_to_chars(n: u64) -> (r: Vec<char>)
    ensures
        r@ == nat_decimal(n as nat),
    decreases n,
{
    let d = (n % 10) as u8;
    let c = (48u8 + d) as char;
    if n < 10 {
        let mut r: Vec<char> = Vec::new();
        r.push(c);
        assert(r@ =~= seq![digit_char(n as int)]);
        r
    } else {
        let mut r = nat_to_chars(n / 10);
        r.push(c);
        r
    }
}

/// The decimal form of `n`, as `Display` writes it.
pub fn i64_to_chars(n: i64) -> (r: Vec<char>)
    requires
        n > i64::MIN,
    ensures
        r@ == int_decimal(n as int),
{
    if n < 0 {
        let mut r: Vec<char> = Vec::new();
        r.push('-');
        let digits = nat_to_chars((0 - n) as u64);
        push_chars(&mut r, &digits);
        assert(r@ =~= seq!['-'].add(nat_decimal((-n) as nat)));
        r
    } else {
        nat_to_chars(n as u64)
    }
}

/// Appends the decimal digits of `n` to `out`.
pub fn push_nat(out: &mut Vec<char>, n: u64)
    ensures
        final(out)@ == old(out)@ + nat_decimal(n as nat),
{
    let d = nat_to_chars(n);
    push_chars(out, &d);
}

/// The pieces joined with `sep` between each two (`[..].join(sep)`).
pub open spec fn join(parts: Seq<Seq<char>>, sep: Seq<char>) -> Seq<char>
    decreases parts.len(),
{
    if parts.len() == 0 {
        Seq::empty()
    } else if parts.len() == 1 {
        parts[0]
    } else {
        join(parts.drop_last(), sep) + sep + parts.last()
    }
}

/// The views of a sequence of strings.
pub open spec fn string_views(v: Seq<String>) -> Seq<Seq<char>> {
    v.map_values(|s: String| s@)
}

/// Appends to `out` the string made of the characters `cs`.
pub fn push_message(out: &mut Vec<String>, cs: &Vec<char>)
    ensures
        string_views(final(out)@) == string_views(old(out)@).push(cs@),
{
    let s = string_from_chars(cs);
    out.push(s);
    assert(string_views(out@) =~= string_views(old(out)@).push(cs@));
}

/// Appends the decimal form of `n` to `out`.
pub fn push_int(out: &mut Vec<char>, n: i64)
    requires
        n > i64::MIN,
    ensures
        final(out)@ == old(out)@ + int_decimal(n as int),
{
    let d = i64_to_chars(n);
    push_chars(out, &d);
}

proof fn lemma_digit_char(d: int)
    requires
        0 <= d < 10,
    ensures
        is_digit(digit_char(d)),
        digit_value(digit_char(d)) == d,
{
}

pub(crate) proof fn lemma_nat_decimal_digits(n: nat)
    ensures
        nat_decimal(n).len() > 0,
        all_digits(nat_decimal(n)),
        digits_value(nat_decimal(n)) == n,
    decreases n,
{
    if n < 10 {
        lemma_digit_char(n as int);
        let s = nat_decimal(n);
        assert(s == seq![digit_char(n as int)]);
        assert(s.drop_last() =~= Seq::<char>::empty());
        assert(digits_value(Seq::<char>::empty()) == 0);
        assert(digits_value(s) == digits_value(s.drop_last()) * 10 + digit_value(s.last()));
    } else {
        lemma_nat_decimal_digits(n / 10);
        let s = nat_decimal(n / 10);
        let c = digit_char((n % 10) as int);
        lemma_digit_char((n % 10) as int);
        lemma_digits_value_push(s, c);
        assert(n == (n / 10) * 10 + n % 10);
        assert(nat_decimal(n) == s.push(c));
        assert(digits_value(s.push(c)) == n);
        assert forall|i: int| 0 <= i < s.push(c).len() implies is_digit(#[trigger] s.push(c)[i]) by {
            if i < s.len() {
                assert(s.push(c)[i] == s[i]);
            }
        }
    }
}

/// Reading back the decimal form of a 32-bit integer gives the integer.
pub proof fn lemma_parse_i32_of_decimal(n: i32)
    ensures
        parse_i32(int_decimal(n as int)) == Some(n),
{
    if n < 0 {
        let m = (-n) as nat;
        lemma_nat_decimal_digits(m);
        let s = seq!['-'].add(nat_decimal(m));
        assert(s.drop_first() == nat_decimal(m));
    } else {
        lemma_nat_decimal_digits(n as nat);
        assert(is_digit(nat_decimal(n as nat)[0]));
    }
}

/// Two natural numbers with the same decimal form are equal.
pub proof fn lemma_nat_decimal_injective(a: nat, b: nat)
    requires
        nat_decimal(a) == nat_decimal(b),
    ensures
        a == b,
{
    lemma_nat_decimal_digits(a);
    lemma_nat_decimal_digits(b);
}

// ───────────────────────────── ASCII case ─────────────────────────────

pub fn char_ascii_lower(c: char) -> (r: char)
    ensures
        r == ascii_lower(c),
{
    if 'A' <= c && c <= 'Z' {
        ((c as u8) + 32) as char
    } else {
        c
    }
}

pub fn char_is_ascii_alnum(c: char) -> (r: bool)
    ensures
        r == is_ascii_alnum(c),
{
    ('0' <= c && c <= '9') || ('a' <= c && c <= 'z') || ('A' <= c && c <= 'Z')
}

/// `a.eq_ignore_ascii_case(b)` on characters.
pub fn eq_ignore_case_chars(a: &Vec<char>, b: &Vec<char>) -> (r: bool)
    ensures
        r == eq_ignore_case(a@, b@),
{
    if a.len() != b.len() {
        return false;
    }
    let mut i: usize = 0;
    while i < a.len()
        invariant
            i <= a.len() == b.len(),
            forall|j: int| 0 <= j < i ==> ascii_lower(#[trigger] a@[j]) == ascii_lower(b@[j]),
        decreases a.len() - i,
    {
        if char_ascii_lower(a[i]) != char_ascii_lower(b[i]) {
            return false;
        }
        i += 1;
    }
    true
}

/// Whether `a` and `b` hold the same characters.
pub fn chars_eq(a: &Vec<char>, b: &Vec<char>) -> (r: bool)
    ensures
        r == (a@ == b@),
{
    if a.len() != b.len() {
        return false;
    }
    let mut i: usize = 0;
    while i < a.len()
        invariant
            i <= a.len() == b.len(),
            forall|j: int| 0 <= j < i ==> a@[j] == b@[j],
        decreases a.len() - i,
    {
        if a[i] != b[i] {
            return false;
        }
        i += 1;
    }
    assert(a@ =~= b@);
    true
}

/// Whether `s` begins with `prefix`.
pub fn starts_with_chars(s: &Vec<char>, prefix: &Vec<char>) -> (r: bool)
    ensures
        r == (prefix@.len() <= s@.len() && s@.take(prefix@.len() as int) == prefix@),
{
    if prefix.len() > s.len() {
        return false;
    }
    let mut i: usize = 0;
    while i < prefix.len()
        invariant
            i <= prefix.len() <= s.len(),
            forall|j: int| 0 <= j < i ==> s@[j] == prefix@[j],
        decreases prefix.len() - i,
    {
        if s[i] != prefix[i] {
            assert(s@.take(prefix@.len() as int)[i as int] != prefix@[i as int]);
            return false;
        }
        i += 1;
    }
    assert(s@.take(prefix@.len() as int) =~= prefix@);
    true
}

} // verus!
