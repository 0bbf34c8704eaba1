//! Terminal heatmaps of byte-valued elevation grids.
//!
//! A grid is loaded from comma-separated text, its value range is scanned,
//! each value is scaled into a 256-entry grayscale table, and every row is
//! rendered as a line of background-colored terminal cells.

mod gradient;
mod grid;
mod range;
mod render;

pub use gradient::{create_gradient, gray, heat_index, scale_index, Rgb};
pub use grid::{
    all_digits, csv_fields_of, digit_of, digits_value, field_value, fields_valid, is_digit,
    is_field, is_first_bad, is_grid_of, load_grid, parse_field, parse_grid, unsigned_digits,
    LoadError,
};
pub use range::{has_values, is_cell, is_range_of, min_max};
pub use render::{
    bg_escape, cell_text, decimal, digit_char, lemma_flat_grid_one_color, render_heatmap,
    render_row, row_text,
};
