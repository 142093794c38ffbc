//! Running packing algorithms: the C++ program built around a user's
//! `Packing` or `Repacking` class, and the JSON form in which the rectangle
//! types are handed to an algorithm.
use vstd::prelude::*;
use crate::text::{chars_of, int_decimal, join, push_chars, push_int, push_str, string_from_chars};
use crate::types::{CppRunner, Rectangle};

verus! {

/// The headers every C++ algorithm is compiled with.
pub const CPP_INCLUDES: &'static str = "#include <iostream>\n#include <vector>\n#include <tuple>\n#include <string>\n#include <sstream>\n#include <iomanip>\n";

/// The declaration of the obstacles handed to a C++ repacking algorithm.
pub const REPACK_PREAMBLE: &'static str = "#ifndef PACKING_OBSTACLE_DEFINED\n#define PACKING_OBSTACLE_DEFINED\nnamespace packing { struct Obstacle { double x1, x2, y1, y2; }; }\nusing packing::Obstacle;\n#endif\n";

/// The `main` of a C++ packing program: it reads the bin width and the
/// rectangle types, calls `Packing::solve` and prints the placements as JSON.
pub const PACKING_MAIN: &'static str = r#"
std::vector<std::tuple<int, int, int>> parseRectangles(const std::string& json) {
    std::vector<std::tuple<int, int, int>> result;
    std::string s = json;
    size_t pos = 0;
    while ((pos = s.find('[', pos)) != std::string::npos) {
        if (pos > 0 && s[pos-1] != '[' && s[pos-1] != ',') { pos++; continue; }
        size_t end = s.find(']', pos);
        if (end == std::string::npos) break;
        std::string inner = s.substr(pos + 1, end - pos - 1);
        if (inner.find('[') != std::string::npos) { pos++; continue; }
        int w, h, q; char comma;
        std::istringstream iss(inner);
        if (iss >> w >> comma >> h >> comma >> q)
            result.push_back({w, h, q});
        pos = end + 1;
    }
    return result;
}

int main(int argc, char* argv[]) {
    if (argc != 3) {
        std::cerr << "Usage: " << argv[0] << " <bin_width> <rectangles_json>" << std::endl;
        return 1;
    }
    int binWidth = std::stoi(argv[1]);
    auto rectangles = parseRectangles(argv[2]);

    Packing packing;
    auto placements = packing.solve(binWidth, rectangles);

    double totalHeight = 0.0;
    for (const auto& p : placements) {
        double top = std::get<1>(p) + std::get<3>(p);
        if (top > totalHeight) totalHeight = top;
    }

    std::cout << std::fixed << std::setprecision(6);
    std::cout << "{\"bin_width\":" << binWidth
              << ",\"total_height\":" << totalHeight
              << ",\"placements\":[";
    for (size_t i = 0; i < placements.size(); i++) {
        if (i > 0) std::cout << ",";
        std::cout << "{\"x\":"      << std::get<0>(placements[i])
                  << ",\"y\":"      << std::get<1>(placements[i])
                  << ",\"width\":"  << std::get<2>(placements[i])
                  << ",\"height\":" << std::get<3>(placements[i]) << "}";
    }
    std::cout << "]}" << std::endl;
    return 0;
}
"#;

/// The `main` of a C++ repacking program: it reads the region's height and
/// width, the rectangle types and the obstacles, calls `Repacking::solve`
/// and prints the placements as JSON.
pub const REPACK_MAIN: &'static str = r#"
std::vector<std::tuple<int, int, int>> parseRectangles(const std::string& json) {
    std::vector<std::tuple<int, int, int>> result;
    std::string s = json;
    size_t pos = 0;
    while ((pos = s.find('[', pos)) != std::string::npos) {
        if (pos > 0 && s[pos-1] != '[' && s[pos-1] != ',') { pos++; continue; }
        size_t end = s.find(']', pos);
        if (end == std::string::npos) break;
        std::string inner = s.substr(pos + 1, end - pos - 1);
        if (inner.find('[') != std::string::npos) { pos++; continue; }
        int w, h, q; char comma;
        std::istringstream iss(inner);
        if (iss >> w >> comma >> h >> comma >> q)
            result.push_back({w, h, q});
        pos = end + 1;
    }
    return result;
}

double extractField(const std::string& json, const std::string& key) {
    std::string search = "\"" + key + "\":";
    size_t pos = json.find(search);
    if (pos == std::string::npos) return 0.0;
    pos += search.size();
    return std::stod(json.substr(pos));
}

std::vector<Obstacle> parseObstacles(const std::string& json) {
    std::vector<Obstacle> result;
    size_t pos = 0;
    while ((pos = json.find('{', pos)) != std::string::npos) {
        size_t end = json.find('}', pos);
        if (end == std::string::npos) break;
        std::string obj = json.substr(pos, end - pos + 1);
        Obstacle o;
        o.x1 = extractField(obj, "x_1");
        o.x2 = extractField(obj, "x_2");
        o.y1 = extractField(obj, "y_1");
        o.y2 = extractField(obj, "y_2");
        result.push_back(o);
        pos = end + 1;
    }
    return result;
}

int main(int argc, char* argv[]) {
    if (argc != 5) {
        std::cerr << "Usage: " << argv[0]
                  << " <bin_height> <bin_width> <rectangles_json> <non_empty_space_json>"
                  << std::endl;
        return 1;
    }
    int binHeight = std::stoi(argv[1]);
    int binWidth  = std::stoi(argv[2]);
    auto rectangles = parseRectangles(argv[3]);
    auto obstacles  = parseObstacles(argv[4]);

    Repacking repacking;
    auto placements = repacking.solve(binHeight, binWidth, rectangles, obstacles);

    double totalHeight = 0.0;
    for (const auto& p : placements) {
        double top = std::get<1>(p) + std::get<3>(p);
        if (top > totalHeight) totalHeight = top;
    }

    std::cout << std::fixed << std::setprecision(6);
    std::cout << "{\"bin_width\":" << binWidth
              << ",\"total_height\":" << totalHeight
              << ",\"placements\":[";
    for (size_t i = 0; i < placements.size(); i++) {
        if (i > 0) std::cout << ",";
        std::cout << "{\"x\":"      << std::get<0>(placements[i])
                  << ",\"y\":"      << std::get<1>(placements[i])
                  << ",\"width\":"  << std::get<2>(placements[i])
                  << ",\"height\":" << std::get<3>(placements[i]) << "}";
    }
    std::cout << "]}" << std::endl;
    return 0;
}
"#;

/// The C++ program that runs the user's packing code.
pub open spec fn packing_source_text(code: Seq<char>) -> Seq<char> {
    CPP_INCLUDES@ + seq!['\n'] + code + seq!['\n'] + PACKING_MAIN@
}

/// The C++ program that runs the user's repacking code.
pub open spec fn repack_source_text(code: Seq<char>) -> Seq<char> {
    CPP_INCLUDES@ + seq!['\n'] + REPACK_PREAMBLE@ + seq!['\n'] + code + seq!['\n'] + REPACK_MAIN@
}

impl CppRunner {
    pub fn get_packing_main() -> (r: &'static str)
        ensures
            r@ == PACKING_MAIN@,
    {
        PACKING_MAIN
    }

    pub fn get_repack_main() -> (r: &'static str)
        ensures
            r@ == REPACK_MAIN@,
    {
        REPACK_MAIN
    }

    pub fn cpp_includes() -> (r: &'static str)
        ensures
            r@ == CPP_INCLUDES@,
    {
        CPP_INCLUDES
    }

    pub fn repack_preamble() -> (r: &'static str)
        ensures
            r@ == REPACK_PREAMBLE@,
    {
        REPACK_PREAMBLE
    }

    /// The headers, the user's code and the packing `main`, one after the
    /// other with a newline between each two.
    pub fn packing_source(code: &str) -> (r: String)
        ensures
            r@ == packing_source_text(code@),
    {
        let mut out: Vec<char> = chars_of(Self::cpp_includes());
        out.push('\n');
        push_str(&mut out, code);
        out.push('\n');
        push_str(&mut out, Self::get_packing_main());
        string_from_chars(&out)
    }

    /// The headers, the obstacle declaration, the user's code and the
    /// repacking `main`, one after the other with a newline between each two.
    pub fn repack_source(code: &str) -> (r: String)
        ensures
            r@ == repack_source_text(code@),
    {
        let mut out: Vec<char> = chars_of(Self::cpp_includes());
        out.push('\n');
        push_str(&mut out, Self::repack_preamble());
        out.push('\n');
        push_str(&mut out, code);
        out.push('\n');
        push_str(&mut out, Self::get_repack_main());
        string_from_chars(&out)
    }
}

/// A JSON array of integers with no spaces, as `serde_json` writes it.
pub open spec fn json_int_array(v: Seq<i32>) -> Seq<char> {
    seq!['['] + join(v.map_values(|x: i32| int_decimal(x as int)), seq![',']) + seq![']']
}

/// A JSON array of arrays of integers with no spaces.
pub open spec fn json_int_arrays(v: Seq<Seq<i32>>) -> Seq<char> {
    seq!['['] + join(v.map_values(|r: Seq<i32>| json_int_array(r)), seq![',']) + seq![']']
}

pub open spec fn nested_views(v: Seq<Vec<i32>>) -> Seq<Seq<i32>> {
    v.map_values(|r: Vec<i32>| r@)
}

/// `serde_json::to_string` on a list of lists of integers: the compact JSON
/// text of it. Serialising integers into a byte buffer never fails.
#[verifier::external_body]
fn json_of_int_lists(v: &Vec<Vec<i32>>) -> (r: Result<String, String>)
    ensures
        r is Ok,
        r.unwrap()@ == json_int_arrays(nested_views(v@)),
{
    serde_json::to_string(v).map_err(|e| e.to_string())
}

/// The triple `[width, height, quantity]` of a rectangle type.
pub open spec fn rectangle_triple(r: Rectangle) -> Seq<i32> {
    seq![r.width, r.height, r.quantity]
}

/// The rectangle types as the JSON an algorithm reads: an array of
/// `[width, height, quantity]` arrays.
pub open spec fn rectangles_json(rects: Seq<Rectangle>) -> Seq<char> {
    json_int_arrays(rects.map_values(|r: Rectangle| rectangle_triple(r)))
}

/// The rectangle types as JSON, or the message "Failed to serialize
/// rectangles: ..." when `serde_json` fails.
pub fn serialize_rectangles(rectangles: &Vec<Rectangle>) -> (r: Result<String, String>)
    ensures
        r matches Ok(s) && s@ == rectangles_json(rectangles@),
{
    let mut lists: Vec<Vec<i32>> = Vec::new();
    let mut i: usize = 0;
    while i < rectangles.len()
        invariant
            i <= rectangles.len(),
            nested_views(lists@) == rectangles@.take(i as int).map_values(|r: Rectangle| rectangle_triple(r)),
        decreases rectangles.len() - i,
    {
        let r = rectangles[i];
        let mut triple: Vec<i32> = Vec::new();
        triple.push(r.width);
        triple.push(r.height);
        triple.push(r.quantity);
        assert(triple@ =~= rectangle_triple(rectangles@[i as int]));
        let ghost before = lists@;
        lists.push(triple);
        assert(lists@ == before.push(triple));
        assert(nested_views(lists@) =~= nested_views(before).push(triple@));
        assert(rectangles@.take(i + 1).map_values(|r: Rectangle| rectangle_triple(r)) =~= rectangles@.take(
            i as int,
        ).map_values(|r: Rectangle| rectangle_triple(r)).push(rectangle_triple(rectangles@[i as int])));
        i += 1;
    }
    assert(rectangles@.take(i as int) == rectangles@);
    match json_of_int_lists(&lists) {
        Ok(s) => Ok(s),
        Err(e) => {
            let mut m: Vec<char> = chars_of("Failed to serialize rectangles: ");
            push_str(&mut m, e.as_str());
            Err(string_from_chars(&m))
        },
    }
}

} // verus!
