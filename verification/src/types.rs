//! The plain data of the packing tool: languages, panel tabs, settings,
//! rectangle types, test cases and the result of reading the input form.
use vstd::prelude::*;

verus! {

/// Feature switches of the visualisation.
#[derive(Debug, Clone, Copy, PartialEq, Eq, Structural)]
pub struct Settings {
    pub area_select_enabled: bool,
    pub snap_to_rectangles_enabled: bool,
    pub auto_minimize_height: bool,
}

/// The panel shown on the right-hand side.
#[derive(Debug, Clone, Copy, PartialEq, Eq, Structural)]
pub enum RightPanelTab {
    Visualization,
    CodeEditor,
}

/// The tab shown in the bottom panel.
#[derive(Debug, Clone, Copy, PartialEq, Eq, Structural)]
pub enum BottomPanelTab {
    Problems,
    Output,
    TestCases,
    MultipleTestCases,
}

/// The language an algorithm is written in.
#[derive(Debug, Clone, Copy, PartialEq, Eq, Structural)]
pub enum CodeLanguage {
    Python,
    Cpp,
    Java,
}

/// A rectangle type: its width, its height and how many of it there are.
#[derive(Debug, Clone, Copy, PartialEq, Eq, Hash, Structural)]
pub struct Rectangle {
    pub width: i32,
    pub height: i32,
    pub quantity: i32,
}

/// A test case: the bin width and the rectangle types to pack.
#[derive(Debug, Clone, PartialEq, Eq)]
pub struct JsonInput {
    pub width_of_bin: i32,
    pub number_of_rectangles: usize,
    pub number_of_types_of_rectangles: usize,
    pub autofill_option: bool,
    pub rectangle_list: Vec<Rectangle>,
}

/// What the input form holds once it has been read: the bin width, the
/// requested number of rectangles and of types (`-1` when not given), the
/// autofill switch, the rectangle types entered, how many distinct types they
/// are, and the smallest and largest height among them.
#[derive(Debug, Clone, PartialEq, Eq, Hash)]
pub struct ParseOutput {
    pub width: i32,
    pub quantity: i32,
    pub types: i32,
    pub autofill: bool,
    pub rects: Vec<Rectangle>,
    pub input_types: i32,
    pub min_height: i32,
    pub max_height: i32,
}

/// Runs Python packing algorithms.
pub struct PythonRunner;

/// Compiles and runs C++ packing algorithms.
pub struct CppRunner;

/// The sum of the quantities of a list of rectangle types.
pub open spec fn quantity_total(rects: Seq<Rectangle>) -> int
    decreases rects.len(),
{
    if rects.len() == 0 {
        0
    } else {
        quantity_total(rects.drop_last()) + rects.last().quantity
    }
}

/// The set of (width, height) pairs of a list of rectangle types.
pub open spec fn dims_set(rects: Seq<Rectangle>) -> Set<(i32, i32)> {
    Set::new(|p: (i32, i32)| exists|i: int| 0 <= i < rects.len() && (#[trigger] rects[i]).width == p.0 && rects[i].height == p.1)
}

/// Replacing one type changes the total by the difference of quantities.
pub(crate) proof fn lemma_quantity_total_update(s: Seq<Rectangle>, j: int, r: Rectangle)
    requires
        0 <= j < s.len(),
    ensures
        quantity_total(s.update(j, r)) == quantity_total(s) - s[j].quantity + r.quantity,
    decreases s.len(),
{
    if j < s.len() - 1 {
        lemma_quantity_total_update(s.drop_last(), j, r);
        assert(s.update(j, r).drop_last() == s.drop_last().update(j, r));
    } else {
        assert(s.update(j, r).drop_last() == s.drop_last());
    }
}

pub(crate) proof fn lemma_quantity_total_push(s: Seq<Rectangle>, r: Rectangle)
    ensures
        quantity_total(s.push(r)) == quantity_total(s) + r.quantity,
{
    assert(s.push(r).drop_last() == s);
}

/// With positive quantities, each quantity is at most the total and there
/// are at most as many types as rectangles.
pub(crate) proof fn lemma_quantity_total_bounds(s: Seq<Rectangle>)
    requires
        forall|i: int| 0 <= i < s.len() ==> #[trigger] s[i].quantity >= 1,
    ensures
        s.len() <= quantity_total(s),
        forall|i: int| 0 <= i < s.len() ==> #[trigger] s[i].quantity <= quantity_total(s),
    decreases s.len(),
{
    if s.len() > 0 {
        let p = s.drop_last();
        assert forall|i: int| 0 <= i < p.len() implies #[trigger] p[i].quantity >= 1 by {
            assert(p[i] == s[i]);
        }
        lemma_quantity_total_bounds(p);
        assert forall|i: int| 0 <= i < s.len() implies #[trigger] s[i].quantity <= quantity_total(s) by {
            if i < p.len() {
                assert(p[i] == s[i]);
            }
        }
    }
}

} // verus!
