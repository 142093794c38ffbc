//! The logic of a desktop tool for two-dimensional strip packing: reading
//! the rectangle input form, building and generating test cases, the
//! algorithm templates, the programs that run the algorithms, the hit grid
//! of the visualisation and the workspace's editing decisions.
pub mod algorithm_templates;
pub mod config_parser;
pub mod hit_grid;
pub mod palette;
pub mod random;
pub mod rect_input;
pub mod round_trip;
pub mod runner;
pub mod sampling;
pub mod tab_book;
pub mod testcase_gen;
pub mod text;
pub mod types;
pub mod workspace;
