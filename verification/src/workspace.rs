//! The decisions of the editing workspace that do not depend on geometry:
//! naming new tabs, stepping the drawing animation, line counts and
//! indentation in the editors, which inputs the count fields accept, and the
//! texts shown for test cases.
use vstd::prelude::*;
use crate::text::{
    all_digits, chars_of, int_decimal, is_digit, is_ws, join, lines, nat_decimal, parse_bounded,
    push_chars, push_int, push_nat, push_str, split_lines, starts_with_chars, string_from_chars,
    trim_end, trim_end_chars, views, parse_bounded_chars,
};
use crate::types::{JsonInput, Rectangle};

verus! {

/// How many of the names satisfy `p`.
pub open spec fn count_names(names: Seq<Seq<char>>, p: spec_fn(Seq<char>) -> bool) -> nat
    decreases names.len(),
{
    if names.len() == 0 {
        0
    } else {
        count_names(names.drop_last(), p) + if p(names.last()) {
            1nat
        } else {
            0nat
        }
    }
}

pub open spec fn name_views(names: Seq<String>) -> Seq<Seq<char>> {
    names.map_values(|s: String| s@)
}

pub open spec fn has_prefix(s: Seq<char>, prefix: Seq<char>) -> bool {
    prefix.len() <= s.len() && s.take(prefix.len() as int) == prefix
}

/// Names of root tabs: they start with "Root".
pub open spec fn is_root_tab_name(name: Seq<char>) -> bool {
    has_prefix(name, "Root"@)
}

/// The name of a new root tab: "Root " and one more than the number of tabs
/// whose name starts with "Root".
pub open spec fn root_tab_name_view(names: Seq<Seq<char>>) -> Seq<char> {
    "Root "@ + nat_decimal(count_names(names, |n: Seq<char>| is_root_tab_name(n)) + 1)
}

/// The name of a new root tab, given the names of the open tabs.
pub fn root_tab_name(names: &Vec<String>) -> (r: String)
    requires
        names@.len() < usize::MAX,
    ensures
        r@ == root_tab_name_view(name_views(names@)),
{
    let ghost all = name_views(names@);
    let ghost p = |n: Seq<char>| is_root_tab_name(n);
    let root = chars_of("Root");
    let mut count: usize = 0;
    let mut i: usize = 0;
    while i < names.len()
        invariant
            i <= names.len(),
            all == name_views(names@),
            root@ == "Root"@,
            names@.len() < usize::MAX,
            p == (|n: Seq<char>| is_root_tab_name(n)),
            count == count_names(all.take(i as int), p),
            count <= i,
        decreases names.len() - i,
    {
        assert(all.take(i + 1).drop_last() == all.take(i as int));
        let name = chars_of(names[i].as_str());
        if starts_with_chars(&name, &root) {
            count += 1;
        }
        i += 1;
    }
    assert(all.take(i as int) == all);
    let mut out: Vec<char> = chars_of("Root ");
    let next: usize = count + 1;
    push_nat(&mut out, next as u64);
    string_from_chars(&out)
}

/// A child of the root tab is named "Node <n>" and has no '-'.
pub open spec fn is_node_child_name(name: Seq<char>) -> bool {
    has_prefix(name, "Node "@) && !name.contains('-')
}

/// A child of the tab `parent` is named "<parent>-" followed by digits only.
pub open spec fn is_child_name_of(name: Seq<char>, parent: Seq<char>) -> bool {
    let prefix = parent + seq!['-'];
    has_prefix(name, prefix) && all_digits(name.skip(prefix.len() as int))
}

/// The name of a tab that repacks a region of the tab named `parent`: for
/// the root tab "Node " and one more than the number of its children, for
/// another tab its name, '-' and one more than the number of its children.
pub open spec fn child_tab_name_view(parent: Seq<char>, names: Seq<Seq<char>>) -> Seq<char> {
    if parent == "Root"@ {
        "Node "@ + nat_decimal(count_names(names, |n: Seq<char>| is_node_child_name(n)) + 1)
    } else {
        parent + seq!['-'] + nat_decimal(count_names(names, |n: Seq<char>| is_child_name_of(n, parent)) + 1)
    }
}

fn contains_char(s: &Vec<char>, c: char) -> (r: bool)
    ensures
        r == s@.contains(c),
{
    let mut i: usize = 0;
    while i < s.len()
        invariant
            i <= s.len(),
            forall|j: int| 0 <= j < i ==> s@[j] != c,
        decreases s.len() - i,
    {
        if s[i] == c {
            return true;
        }
        i += 1;
    }
    false
}

fn digits_from(s: &Vec<char>, start: usize) -> (r: bool)
    requires
        start <= s.len(),
    ensures
        r == all_digits(s@.skip(start as int)),
{
    let mut i: usize = start;
    while i < s.len()
        invariant
            start <= i <= s.len(),
            forall|j: int| start <= j < i ==> is_digit(#[trigger] s@[j]),
        decreases s.len() - i,
    {
        if !('0' <= s[i] && s[i] <= '9') {
            assert(!is_digit(s@.skip(start as int)[i - start]));
            return false;
        }
        i += 1;
    }
    assert forall|j: int| 0 <= j < s@.skip(start as int).len() implies is_digit(#[trigger] s@.skip(start as int)[j]) by {
        assert(s@.skip(start as int)[j] == s@[start + j]);
    }
    true
}

/// The name of the tab opened to repack a region of the tab named `parent`,
/// given the names of the open tabs.
pub fn child_tab_name(parent: &str, names: &Vec<String>) -> (r: String)
    requires
        names@.len() < usize::MAX,
    ensures
        r@ == child_tab_name_view(parent@, name_views(names@)),
{
    let ghost all = name_views(names@);
    let parent_chars = chars_of(parent);
    let root = chars_of("Root");
    let is_root = crate::text::chars_eq(&parent_chars, &root);
    let prefix: Vec<char> = if is_root {
        chars_of("Node ")
    } else {
        let mut p = parent_chars.clone();
        p.push('-');
        p
    };
    let ghost p = if is_root {
        |n: Seq<char>| is_node_child_name(n)
    } else {
        |n: Seq<char>| is_child_name_of(n, parent@)
    };
    let mut count: usize = 0;
    let mut i: usize = 0;
    while i < names.len()
        invariant
            i <= names.len(),
            all == name_views(names@),
            is_root == (parent@ == "Root"@),
            names@.len() < usize::MAX,
            is_root ==> prefix@ == "Node "@,
            !is_root ==> prefix@ == parent@ + seq!['-'],
            p == (if is_root {
                |n: Seq<char>| is_node_child_name(n)
            } else {
                |n: Seq<char>| is_child_name_of(n, parent@)
            }),
            count == count_names(all.take(i as int), p),
            count <= i,
        decreases names.len() - i,
    {
        assert(all.take(i + 1).drop_last() == all.take(i as int));
        let name = chars_of(names[i].as_str());
        let hit = if is_root {
            starts_with_chars(&name, &prefix) && !contains_char(&name, '-')
        } else {
            starts_with_chars(&name, &prefix) && digits_from(&name, prefix.len())
        };
        assert(hit == p(all[i as int]));
        if hit {
            count += 1;
        }
        i += 1;
    }
    assert(all.take(i as int) == all);
    let mut out = prefix;
    let next: usize = count + 1;
    push_nat(&mut out, next as u64);
    string_from_chars(&out)
}

/// One step of the drawing animation: one more placement is shown while
/// some are hidden; once all are shown (or there is no output) the animation
/// stops. Returns the number shown and whether the animation goes on.
pub fn tick(visible: usize, total: Option<usize>, animating: bool) -> (r: (usize, bool))
    ensures
        r == (match total {
            Some(t) => if visible < t {
                ((visible + 1) as usize, animating)
            } else {
                (visible, false)
            },
            None => (visible, false),
        }),
{
    match total {
        Some(t) => if visible < t {
            (visible + 1, animating)
        } else {
            (visible, false)
        },
        None => (visible, false),
    }
}

pub open spec fn newline_count(s: Seq<char>) -> nat
    decreases s.len(),
{
    if s.len() == 0 {
        0
    } else {
        newline_count(s.drop_last()) + if s.last() == '\n' {
            1nat
        } else {
            0nat
        }
    }
}

/// The number of lines of the rectangle editor: one for an empty text or a
/// lone newline, else one more than the number of newlines.
pub open spec fn total_lines(text: Seq<char>) -> nat {
    if text.len() == 0 || text == seq!['\n'] {
        1
    } else {
        newline_count(text) + 1
    }
}

/// The line count of the rectangle editor and the cursor's line counted
/// from one (`cursor_line` counts from zero), which is at most the count.
pub fn line_info(text: &str, cursor_line: usize) -> (r: (usize, usize))
    requires
        cursor_line < usize::MAX,
        text@.len() < usize::MAX,
    ensures
        r.0 == total_lines(text@),
        r.1 == (if cursor_line + 1 < total_lines(text@) {
            cursor_line + 1
        } else {
            total_lines(text@) as int
        }),
{
    let chars = chars_of(text);
    let mut count: usize = 0;
    let mut i: usize = 0;
    while i < chars.len()
        invariant
            i <= chars.len(),
            count == newline_count(chars@.take(i as int)),
            chars@.len() < usize::MAX,
            count <= i,
        decreases chars.len() - i,
    {
        assert(chars@.take(i + 1).drop_last() == chars@.take(i as int));
        if chars[i] == '\n' {
            count += 1;
        }
        i += 1;
    }
    assert(chars@.take(i as int) == chars@);
    let total: usize = if chars.len() == 0 || (chars.len() == 1 && chars[0] == '\n') {
        assert(chars.len() == 1 ==> chars@ == seq![chars@[0]]);
        1
    } else {
        assert(chars@ != seq!['\n']);
        count + 1
    };
    let cursor = if cursor_line + 1 < total {
        cursor_line + 1
    } else {
        total
    };
    (total, cursor)
}

/// The whitespace at the start of `s`.
pub open spec fn leading_ws(s: Seq<char>) -> Seq<char>
    decreases s.len(),
{
    if s.len() > 0 && is_ws(s[0]) {
        seq![s[0]] + leading_ws(s.drop_first())
    } else {
        Seq::empty()
    }
}

/// The indentation that follows a line break typed at the end of `line`:
/// the line's leading whitespace, and four spaces more after a line that
/// ends with ':' (trailing whitespace aside).
pub open spec fn enter_indent_view(line: Seq<char>) -> Seq<char> {
    let t = trim_end(line);
    leading_ws(line) + if t.len() > 0 && t.last() == ':' {
        "    "@
    } else {
        Seq::empty()
    }
}

/// The indentation to insert after a line break typed on line `line`
/// (counted from zero) of `text`, or `None` when the text has no such line.
pub fn enter_indent(text: &str, line: usize) -> (r: Option<String>)
    ensures
        match r {
            Some(s) => line < lines(text@).len() && s@ == enter_indent_view(lines(text@)[line as int]),
            None => line >= lines(text@).len(),
        },
{
    let chars = chars_of(text);
    let ls = split_lines(&chars);
    if line >= ls.len() {
        return None;
    }
    let current = &ls[line];
    assert(current@ == lines(text@)[line as int]);
    let mut k: usize = 0;
    while k < current.len() && crate::text::char_is_ws(current[k])
        invariant
            k <= current.len(),
            forall|j: int| 0 <= j < k ==> is_ws(#[trigger] current@[j]),
        decreases current.len() - k,
    {
        k += 1;
    }
    proof {
        lemma_leading_ws(current@, k as int);
    }
    let mut out: Vec<char> = Vec::new();
    let mut j: usize = 0;
    while j < k
        invariant
            j <= k <= current.len(),
            out@ == current@.take(j as int),
        decreases k - j,
    {
        out.push(current[j]);
        assert(current@.take(j + 1) == current@.take(j as int).push(current@[j as int]));
        j += 1;
    }
    let trimmed = trim_end_chars(current);
    if trimmed.len() > 0 && trimmed[trimmed.len() - 1] == ':' {
        push_str(&mut out, "    ");
    } else {
        assert(out@ + Seq::<char>::empty() == out@);
    }
    Some(string_from_chars(&out))
}

proof fn lemma_leading_ws(s: Seq<char>, k: int)
    requires
        0 <= k <= s.len(),
        forall|j: int| 0 <= j < k ==> is_ws(#[trigger] s[j]),
        k == s.len() || !is_ws(s[k]),
    ensures
        leading_ws(s) == s.take(k),
    decreases k,
{
    if k > 0 {
        let t = s.drop_first();
        assert forall|j: int| 0 <= j < k - 1 implies is_ws(#[trigger] t[j]) by {
            assert(t[j] == s[j + 1]);
        }
        if k < s.len() {
            assert(t[k - 1] == s[k]);
        }
        lemma_leading_ws(t, k - 1);
        assert(s.take(k) == seq![s[0]] + t.take(k - 1));
    } else {
        assert(s.take(0) =~= Seq::<char>::empty());
    }
}

/// Whether a backspace at column `col` of line `line` removes a whole
/// indentation step: the column is at least four and the four characters
/// before it on that line are spaces.
pub open spec fn removes_indent(text: Seq<char>, line: int, col: int) -> bool {
    let ls = lines(text);
    &&& col >= 4
    &&& 0 <= line < ls.len()
    &&& {
        let before = if col < ls[line].len() {
            ls[line].take(col)
        } else {
            ls[line]
        };
        before.len() >= 4 && before.skip(before.len() - 4) == "    "@
    }
}

/// Whether a backspace at column `col` (counted in characters) of line
/// `line` (counted from zero) of `text` removes four spaces at once.
pub fn backspace_removes_indent(text: &str, line: usize, col: usize) -> (r: bool)
    ensures
        r == removes_indent(text@, line as int, col as int),
{
    if col < 4 {
        return false;
    }
    let chars = chars_of(text);
    let ls = split_lines(&chars);
    if line >= ls.len() {
        return false;
    }
    let current = &ls[line];
    let end: usize = if col < current.len() {
        col
    } else {
        current.len()
    };
    let ghost before = if col < current@.len() {
        current@.take(col as int)
    } else {
        current@
    };
    assert(before == current@.take(end as int));
    if end < 4 {
        return false;
    }
    proof {
        reveal_strlit("    ");
    }
    let ok = current[end - 4] == ' ' && current[end - 3] == ' ' && current[end - 2] == ' ' && current[end - 1] == ' ';
    if ok {
        assert(before.skip(before.len() - 4) =~= "    "@);
    } else {
        assert(before.skip(before.len() - 4) != "    "@) by {
            if before.skip(before.len() - 4) == "    "@ {
                assert(before.skip(before.len() - 4)[0] == ' ');
                assert(before.skip(before.len() - 4)[1] == ' ');
                assert(before.skip(before.len() - 4)[2] == ' ');
                assert(before.skip(before.len() - 4)[3] == ' ');
            }
        }
    }
    ok
}

/// Whether a count field (number of test cases, input size, number of
/// types) takes the typed text: an empty text, or one that reads as a
/// 32-bit unsigned number.
pub fn accepts_count_input(val: &str) -> (r: bool)
    ensures
        r == (val@.len() == 0 || parse_bounded(val@, u32::MAX as int) is Some),
{
    if val.is_empty() {
        return true;
    }
    let chars = chars_of(val);
    parse_bounded_chars(&chars, 4294967295).is_some()
}

/// What the run button does: with a non-root tab or a single test case it
/// runs on that (1), with generated test cases it runs on all of them (2),
/// otherwise it is disabled (0).
pub fn run_mode(is_root: bool, has_single_testcase: bool, has_multiple_testcases: bool) -> (r: i32)
    ensures
        r == (if !is_root || has_single_testcase {
            1i32
        } else if has_multiple_testcases {
            2i32
        } else {
            0i32
        }),
{
    if !is_root {
        1
    } else if has_single_testcase {
        1
    } else if has_multiple_testcases {
        2
    } else {
        0
    }
}

/// A rectangle type as one line of the rectangle editor: "X Y Q".
pub open spec fn rect_line(r: Rectangle) -> Seq<char> {
    int_decimal(r.width as int) + seq![' '] + int_decimal(r.height as int) + seq![' '] + int_decimal(r.quantity as int)
}

/// Rectangle types as the text of the rectangle editor, one line each.
pub open spec fn rectangles_text(rects: Seq<Rectangle>) -> Seq<char> {
    join(rects.map_values(|r: Rectangle| rect_line(r)), seq!['\n'])
}

/// Appends the editor line of one rectangle type.
fn push_rect_line(out: &mut Vec<char>, r: Rectangle)
    ensures
        final(out)@ == old(out)@ + rect_line(r),
{
    push_int(out, r.width as i64);
    out.push(' ');
    push_int(out, r.height as i64);
    out.push(' ');
    push_int(out, r.quantity as i64);
}

/// The rectangle types of an imported test case as editor text: "X Y Q"
/// for each, one per line.
pub fn rectangles_to_text(rects: &Vec<Rectangle>) -> (r: String)
    ensures
        r@ == rectangles_text(rects@),
{
    let ghost parts = rects@.map_values(|r: Rectangle| rect_line(r));
    let mut out: Vec<char> = Vec::new();
    let mut i: usize = 0;
    while i < rects.len()
        invariant
            i <= rects.len(),
            parts == rects@.map_values(|r: Rectangle| rect_line(r)),
            out@ == join(parts.take(i as int), seq!['\n']),
        decreases rects.len() - i,
    {
        assert(parts.take(i + 1).drop_last() == parts.take(i as int));
        if i > 0 {
            out.push('\n');
        } else {
            assert(parts.take(1) == seq![parts[0]]);
        }
        push_rect_line(&mut out, rects[i]);
        i += 1;
    }
    assert(parts.take(i as int) == parts);
    string_from_chars(&out)
}

/// A rectangle type in the test case summary: "WxH(Q)".
pub open spec fn rect_token(r: Rectangle) -> Seq<char> {
    int_decimal(r.width as int) + seq!['x'] + int_decimal(r.height as int) + seq!['('] + int_decimal(r.quantity as int)
        + seq![')']
}

/// The summary of a test case: its bin width, then its first ten rectangle
/// types and, when there are more, how many more.
pub open spec fn testcase_summary_view(c: JsonInput) -> Seq<char> {
    let rs = c.rectangle_list@;
    let shown = if rs.len() > 10 {
        rs.take(10)
    } else {
        rs
    };
    "Bin Width: "@ + int_decimal(c.width_of_bin as int) + "\nRectangles: "@ + join(
        shown.map_values(|r: Rectangle| rect_token(r)),
        ", "@,
    ) + if rs.len() > 10 {
        " ... +"@ + nat_decimal((rs.len() - 10) as nat) + " more"@
    } else {
        Seq::empty()
    }
}

/// The first line of a summary and the tokens of the first `count` types,
/// joined by ", ".
pub open spec fn summary_head(c: JsonInput, count: int) -> Seq<char> {
    "Bin Width: "@ + int_decimal(c.width_of_bin as int) + "\nRectangles: "@ + join(
        c.rectangle_list@.take(count).map_values(|r: Rectangle| rect_token(r)),
        ", "@,
    )
}

/// A summary shows every type, and nothing after them, when there are at
/// most ten; otherwise it shows the first ten and then says how many more
/// there are. The " ... +N more" ending comes exactly when some type is
/// left out, and then N is at least one.
pub proof fn lemma_summary_shows_all_or_counts_rest(c: JsonInput)
    ensures
        c.rectangle_list@.len() <= 10 ==> testcase_summary_view(c) == summary_head(
            c,
            c.rectangle_list@.len() as int,
        ),
        c.rectangle_list@.len() > 10 ==> testcase_summary_view(c) == summary_head(c, 10) + " ... +"@
            + nat_decimal((c.rectangle_list@.len() - 10) as nat) + " more"@,
        c.rectangle_list@.len() > 10 ==> c.rectangle_list@.len() - 10 >= 1,
        (testcase_summary_view(c).len() > summary_head(
            c,
            if c.rectangle_list@.len() > 10 { 10 } else { c.rectangle_list@.len() as int },
        ).len()) <==> c.rectangle_list@.len() > 10,
{
    let rs = c.rectangle_list@;
    if rs.len() <= 10 {
        assert(rs.take(rs.len() as int) =~= rs);
        assert(testcase_summary_view(c) =~= summary_head(c, rs.len() as int));
    } else {
        reveal_strlit(" ... +");
        assert(testcase_summary_view(c) =~= summary_head(c, 10) + " ... +"@
            + nat_decimal((rs.len() - 10) as nat) + " more"@);
    }
}

/// The text that shows a loaded test case.
#[verifier::rlimit(40)]
#[verifier::spinoff_prover]
pub fn testcase_summary(c: &JsonInput) -> (r: String)
    ensures
        r@ == testcase_summary_view(*c),
{
    let rs = &c.rectangle_list;
    let n: usize = if rs.len() > 10 {
        10
    } else {
        rs.len()
    };
    let ghost shown = if rs@.len() > 10 {
        rs@.take(10)
    } else {
        rs@
    };
    assert(shown == rs@.take(n as int));
    let ghost parts = shown.map_values(|r: Rectangle| rect_token(r));
    let mut out: Vec<char> = chars_of("Bin Width: ");
    push_int(&mut out, c.width_of_bin as i64);
    push_str(&mut out, "\nRectangles: ");
    let ghost head = out@;
    let mut i: usize = 0;
    while i < n
        invariant
            i <= n <= rs.len(),
            shown == rs@.take(n as int),
            parts == shown.map_values(|r: Rectangle| rect_token(r)),
            out@ == head + join(parts.take(i as int), ", "@),
        decreases n - i,
    {
        assert(parts.take(i + 1).drop_last() == parts.take(i as int));
        if i > 0 {
            push_str(&mut out, ", ");
        } else {
            assert(parts.take(1) == seq![parts[0]]);
        }
        let r = rs[i];
        assert(parts[i as int] == rect_token(r));
        push_int(&mut out, r.width as i64);
        out.push('x');
        push_int(&mut out, r.height as i64);
        out.push('(');
        push_int(&mut out, r.quantity as i64);
        out.push(')');
        i += 1;
    }
    assert(parts.take(i as int) == parts);
    if rs.len() > 10 {
        push_str(&mut out, " ... +");
        push_nat(&mut out, (rs.len() - 10) as u64);
        push_str(&mut out, " more");
    } else {
        assert(out@ + Seq::<char>::empty() == out@);
    }
    string_from_chars(&out)
}

/// The message after a test case was generated: "Generated: <rectangles>
/// rectangles, <types> types, bin width <width>".
pub fn generated_message(c: &JsonInput) -> (r: String)
    ensures
        r@ == "Generated: "@ + nat_decimal(c.number_of_rectangles as nat) + " rectangles, "@ + nat_decimal(
            c.number_of_types_of_rectangles as nat,
        ) + " types, bin width "@ + int_decimal(c.width_of_bin as int),
{
    let mut out: Vec<char> = chars_of("Generated: ");
    push_nat(&mut out, c.number_of_rectangles as u64);
    push_str(&mut out, " rectangles, ");
    push_nat(&mut out, c.number_of_types_of_rectangles as u64);
    push_str(&mut out, " types, bin width ");
    push_int(&mut out, c.width_of_bin as i64);
    string_from_chars(&out)
}

/// The message after a batch of test cases was generated: "Generated: <n>
/// test cases".
pub fn generated_batch_message(count: usize) -> (r: String)
    ensures
        r@ == "Generated: "@ + nat_decimal(count as nat) + " test cases"@,
{
    let mut out: Vec<char> = chars_of("Generated: ");
    push_nat(&mut out, count as u64);
    push_str(&mut out, " test cases");
    string_from_chars(&out)
}

/// The message after a test case file was loaded: "✓ Loaded: <types>
/// rectangles, bin width <width>".
pub fn loaded_message(c: &JsonInput) -> (r: String)
    ensures
        r@ == "✓ Loaded: "@ + nat_decimal(c.rectangle_list@.len()) + " rectangles, bin width "@ + int_decimal(
            c.width_of_bin as int,
        ),
{
    let mut out: Vec<char> = chars_of("✓ Loaded: ");
    push_nat(&mut out, c.rectangle_list.len() as u64);
    push_str(&mut out, " rectangles, bin width ");
    push_int(&mut out, c.width_of_bin as i64);
    string_from_chars(&out)
}

/// The message after a test case was imported into the input form:
/// "Imported JSON: <types> rectangle types, bin width <width>".
pub fn imported_message(c: &JsonInput) -> (r: String)
    ensures
        r@ == "Imported JSON: "@ + nat_decimal(c.rectangle_list@.len()) + " rectangle types, bin width "@
            + int_decimal(c.width_of_bin as int),
{
    let mut out: Vec<char> = chars_of("Imported JSON: ");
    push_nat(&mut out, c.rectangle_list.len() as u64);
    push_str(&mut out, " rectangle types, bin width ");
    push_int(&mut out, c.width_of_bin as i64);
    string_from_chars(&out)
}

/// The languages switched on by the command line: the arguments after the
/// program name are read while each is "python" or "cpp" (in any ASCII
/// case) not seen before; reading stops at any other argument. Returns
/// (Python, C++).
pub open spec fn languages_from(args: Seq<Seq<char>>, i: int, python: bool, cpp: bool) -> (bool, bool)
    decreases args.len() - i,
{
    if i < 0 || i >= args.len() {
        (python, cpp)
    } else if crate::text::eq_ignore_case(args[i], "python"@) {
        if !python {
            languages_from(args, i + 1, true, cpp)
        } else {
            (python, cpp)
        }
    } else if crate::text::eq_ignore_case(args[i], "cpp"@) {
        if !cpp {
            languages_from(args, i + 1, python, true)
        } else {
            (python, cpp)
        }
    } else {
        (python, cpp)
    }
}

/// Which languages the command line `args` (program name first) switches
/// on, as (Python, C++). Lower-casing an argument can only give "python" or
/// "cpp" when it is one of them in some ASCII case.
pub fn enabled_languages(args: &Vec<String>) -> (r: (bool, bool))
    ensures
        r == languages_from(name_views(args@), 1, false, false),
{
    let ghost all = name_views(args@);
    let python_word = chars_of("python");
    let cpp_word = chars_of("cpp");
    let mut python = false;
    let mut cpp = false;
    let mut i: usize = 1;
    while i < args.len()
        invariant
            1 <= i,
            all == name_views(args@),
            python_word@ == "python"@,
            cpp_word@ == "cpp"@,
            languages_from(all, 1, false, false) == languages_from(all, i as int, python, cpp),
        ensures
            languages_from(all, 1, false, false) == (python, cpp),
        decreases args.len() - i,
    {
        let arg = chars_of(args[i].as_str());
        assert(arg@ == all[i as int]);
        if crate::text::eq_ignore_case_chars(&arg, &python_word) {
            if python {
                break;
            }
            python = true;
        } else if crate::text::eq_ignore_case_chars(&arg, &cpp_word) {
            if cpp {
                break;
            }
            cpp = true;
        } else {
            break;
        }
        i += 1;
    }
    (python, cpp)
}

/// The generation fields as numbers: the input size as an `i32` and the
/// number of types as a `usize`, each `None` when its text does not read as
/// one (`str::parse(..).ok()`).
pub fn generation_inputs(input_size: &str, unique_types: &str) -> (r: (Option<i32>, Option<usize>))
    ensures
        r.0 == crate::text::parse_i32(input_size@),
        match r.1 {
            Some(u) => parse_bounded(unique_types@, usize::MAX as int) == Some(u as int),
            None => parse_bounded(unique_types@, usize::MAX as int) is None,
        },
{
    let size_chars = chars_of(input_size);
    let size = crate::text::parse_i32_chars(&size_chars);
    let types_chars = chars_of(unique_types);
    let types = match parse_bounded_chars(&types_chars, usize::MAX as u64) {
        Some(v) => Some(v as usize),
        None => None,
    };
    (size, types)
}

/// Whether a new selection region may be drawn in the active tab: drawing
/// must be allowed, and the tab must have room for one more region drawn in
/// it (one in the root tab, two in a repacking tab).
pub fn may_draw_region(is_root: bool, new_area_select: bool, drawn_regions: usize) -> (r: bool)
    ensures
        r == (new_area_select && drawn_regions < (if is_root {
            1nat
        } else {
            2nat
        })),
{
    let max_regions: usize = if is_root {
        1
    } else {
        2
    };
    new_area_select && drawn_regions < max_regions
}

/// What the run button does.
#[derive(Debug, Clone, Copy, PartialEq, Eq, Structural)]
pub enum RunRoute {
    /// Run the root tab's code on the loaded test case.
    RunSingle,
    /// Ask for a test case first.
    MissingTestCase,
    /// Repack the region of the active repacking tab.
    Repack,
    /// Run the code on every generated test case.
    RunBatch,
}

/// Where a press of the run button in mode `which_tab` (see `run_mode`)
/// leads, in the root tab or another, with or without a loaded test case.
pub fn run_route(which_tab: i32, is_root: bool, has_testcase: bool) -> (r: RunRoute)
    ensures
        r == (if which_tab == 1 {
            if is_root {
                if has_testcase {
                    RunRoute::RunSingle
                } else {
                    RunRoute::MissingTestCase
                }
            } else {
                RunRoute::Repack
            }
        } else {
            RunRoute::RunBatch
        }),
{
    if which_tab == 1 {
        if is_root {
            if has_testcase {
                RunRoute::RunSingle
            } else {
                RunRoute::MissingTestCase
            }
        } else {
            RunRoute::Repack
        }
    } else {
        RunRoute::RunBatch
    }
}

/// Where the packing of one result of a batch is shown.
#[derive(Debug, Clone, Copy, PartialEq, Eq, Structural)]
pub enum DisplayTarget {
    /// The tab that already shows it.
    Existing(u64),
    /// A new root tab, since the active tab shows a packing.
    NewTab,
    /// The active tab, which shows none.
    ActiveTab,
    /// Nowhere: the run gave no packing.
    Nothing,
}

/// Where to show a batch result: in the tab it was shown in before, if that
/// tab is still open; otherwise, when the run gave a packing, in the active
/// tab if it shows none, else in a new tab.
pub fn display_target(shown_in: Option<u64>, tab_open: bool, has_output: bool, active_has_output: bool) -> (r:
    DisplayTarget)
    ensures
        r == (match shown_in {
            Some(id) if tab_open => DisplayTarget::Existing(id),
            _ => if !has_output {
                DisplayTarget::Nothing
            } else if active_has_output {
                DisplayTarget::NewTab
            } else {
                DisplayTarget::ActiveTab
            },
        }),
{
    match shown_in {
        Some(id) => if tab_open {
            return DisplayTarget::Existing(id);
        },
        None => {},
    }
    if !has_output {
        DisplayTarget::Nothing
    } else if active_has_output {
        DisplayTarget::NewTab
    } else {
        DisplayTarget::ActiveTab
    }
}

} // verus!
