use packing_interface::hit_grid::{fill_hit_cells, grid_candidates, CellSpan};
use packing_interface::palette::dimension_hash;
use packing_interface::runner::{serialize_rectangles, CPP_INCLUDES, PACKING_MAIN, REPACK_MAIN, REPACK_PREAMBLE};
use packing_interface::types::{CppRunner, Rectangle};

#[test]
fn rectangles_as_json() {
    let rects = vec![
        Rectangle { width: 3, height: 4, quantity: 2 },
        Rectangle { width: 1, height: 10, quantity: 1 },
    ];
    assert_eq!(serialize_rectangles(&rects).unwrap(), "[[3,4,2],[1,10,1]]");
    assert_eq!(serialize_rectangles(&Vec::new()).unwrap(), "[]");
    let odd = vec![Rectangle { width: -5, height: 0, quantity: i32::MIN }];
    assert_eq!(serialize_rectangles(&odd).unwrap(), "[[-5,0,-2147483648]]");
}

#[test]
fn cpp_programs() {
    assert_eq!(CppRunner::cpp_includes(), CPP_INCLUDES);
    assert!(CPP_INCLUDES.starts_with("#include <iostream>\n"));
    let src = CppRunner::packing_source("class Packing {};");
    assert_eq!(src, format!("{}\n{}\n{}", CPP_INCLUDES, "class Packing {};", PACKING_MAIN));
    assert!(CppRunner::get_packing_main().contains("packing.solve(binWidth, rectangles)"));
    let rsrc = CppRunner::repack_source("class Repacking {};");
    assert_eq!(rsrc, format!("{}\n{}\n{}\n{}", CPP_INCLUDES, REPACK_PREAMBLE, "class Repacking {};", REPACK_MAIN));
    assert!(CppRunner::repack_preamble().contains("struct Obstacle"));
    assert!(CppRunner::get_repack_main().contains("repacking.solve(binHeight, binWidth, rectangles, obstacles)"));
}

#[test]
fn hit_grid_lists_covering_placements() {
    let spans = vec![
        CellSpan { min_col: 0, max_col: 1, min_row: 0, max_row: 0 },
        CellSpan { min_col: 1, max_col: 2, min_row: 0, max_row: 1 },
        CellSpan { min_col: 3, max_col: 2, min_row: 0, max_row: 1 },
    ];
    let cells = fill_hit_cells(3, 2, &spans);
    assert_eq!(cells.len(), 6);
    assert_eq!(cells[0], vec![0]);
    assert_eq!(cells[1], vec![0, 1]);
    assert_eq!(cells[2], vec![1]);
    assert_eq!(cells[3], Vec::<usize>::new());
    assert_eq!(cells[4], vec![1]);
    assert_eq!(cells[5], vec![1]);
    assert_eq!(grid_candidates(&cells, 3, 2, 0, 0, 1, 1, 5), vec![0, 1]);
    assert_eq!(grid_candidates(&cells, 3, 2, 0, 1, 0, 2, 5), vec![0, 1]);
    assert_eq!(grid_candidates(&cells, 3, 2, 0, 0, 2, 2, 1), vec![0]);
    assert_eq!(grid_candidates(&cells, 3, 2, 1, 1, 0, 0, 3), vec![0, 1, 2]);
    assert_eq!(grid_candidates(&cells, 3, 2, 1, 0, 0, 2, 2), vec![0, 1]);
}

#[test]
fn dimension_hashes() {
    assert_eq!(dimension_hash(3, 4), 591645040983300578);
    assert_eq!(dimension_hash(-1, 7), 94444927644181611);
    assert_eq!(dimension_hash(0, 0), 590684067820433389);
    assert_ne!(dimension_hash(3, 4), dimension_hash(4, 3));
}
