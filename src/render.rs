use vstd::prelude::*;
use vstd::string::*;

use crate::gradient::{heat_index, scale_index, Rgb};
use crate::range::{has_values, is_cell, is_range_of};

verus! {

/// The character of the decimal digit `d`.
pub open spec fn digit_char(d: nat) -> char {
    ((d + 48) as u8) as char
}

/// `n` written in decimal, without leading zeros.
pub open spec fn decimal(n: nat) -> Seq<char>
    decreases n,
{
    if n < 10 {
        seq![digit_char(n)]
    } else {
        decimal(n / 10).push(digit_char(n % 10))
    }
}

/// The escape sequence that sets a terminal's background to the color `c`:
/// `ESC [ 48 ; 2 ; red ; green ; blue m`.
pub open spec fn bg_escape(c: Rgb) -> Seq<char> {
    seq!['\x1b', '[', '4', '8', ';', '2', ';'] + decimal(c.red as nat) + seq![';'] + decimal(
        c.green as nat,
    ) + seq![';'] + decimal(c.blue as nat) + seq!['m']
}

/// Relies on termion's `color::Rgb::bg_string`: the background escape
/// sequence for `c`, each channel written in decimal.
#[verifier::external_body]
fn bg_string(c: Rgb) -> (r: String)
    ensures
        r@ == bg_escape(c),
{
    termion::color::Rgb(c.red, c.green, c.blue).bg_string()
}

/// One rendered cell: the background set to the gradient's color for `v`,
/// then two blanks.
pub open spec fn cell_text(v: u8, lo: u8, hi: u8, gradient: Seq<Rgb>) -> Seq<char> {
    bg_escape(gradient[heat_index(v, lo, hi)]) + seq![' ', ' ']
}

/// A rendered row: its cells in order.
pub open spec fn row_text(row: Seq<u8>, lo: u8, hi: u8, gradient: Seq<Rgb>) -> Seq<char>
    decreases row.len(),
{
    if row.len() == 0 {
        Seq::empty()
    } else {
        row_text(row.drop_last(), lo, hi, gradient) + cell_text(row.last(), lo, hi, gradient)
    }
}

/// Renders one row of the grid as a line of colored cells, for the range
/// `lo..=hi`, without a line break.
pub fn render_row(row: &[u8], lo: u8, hi: u8, gradient: &[Rgb]) -> (r: String)
    requires
        gradient@.len() == 256,
    ensures
        r@ == row_text(row@, lo, hi, gradient@),
{
    let mut line = String::new();
    let mut j: usize = 0;
    while j < row.len()
        invariant
            gradient@.len() == 256,
            j <= row@.len(),
            line@ == row_text(row@.take(j as int), lo, hi, gradient@),
        decreases row@.len() - j,
    {
        let index = scale_index(row[j], lo, hi);
        let escape = bg_string(gradient[index as usize]);
        line.append(escape.as_str());
        line.append("  ");
        proof {
            assert(row@.take(j + 1).drop_last() =~= row@.take(j as int));
            reveal_strlit("  ");
            assert("  "@ =~= seq![' ', ' ']);
        }
        j = j + 1;
    }
    assert(row@.take(j as int) =~= row@);
    line
}

/// Renders the grid as one line per row, in order, for the range `lo..=hi`.
pub fn render_heatmap(data: &[Vec<u8>], lo: u8, hi: u8, gradient: &[Rgb]) -> (r: Vec<String>)
    requires
        gradient@.len() == 256,
    ensures
        r@.len() == data@.len(),
        forall|i: int|
            0 <= i < data@.len() ==> (#[trigger] r@[i])@ == row_text(data@[i]@, lo, hi, gradient@),
{
    let mut lines: Vec<String> = Vec::new();
    let mut i: usize = 0;
    while i < data.len()
        invariant
            gradient@.len() == 256,
            i <= data@.len(),
            lines@.len() == i,
            forall|a: int|
                0 <= a < i ==> (#[trigger] lines@[a])@ == row_text(data@[a]@, lo, hi, gradient@),
        decreases data@.len() - i,
    {
        let line = render_row(data[i].as_slice(), lo, hi, gradient);
        lines.push(line);
        i = i + 1;
    }
    lines
}

/// A grid whose values all equal `k` has the range `(k, k)`, and each of its
/// values takes gradient index 0: every cell renders in one color.
pub proof fn lemma_flat_grid_one_color(g: Seq<Vec<u8>>, k: u8, lo: u8, hi: u8)
    requires
        has_values(g),
        forall|i: int, j: int| is_cell(g, i, j) ==> #[trigger] g[i]@[j] == k,
        is_range_of(g, lo, hi),
    ensures
        lo == k && hi == k,
        forall|i: int, j: int| is_cell(g, i, j) ==> heat_index(#[trigger] g[i]@[j], lo, hi) == 0,
{
    let (a, b) = choose|a: int, b: int| is_cell(g, a, b) && g[a]@[b] == lo;
    let (c, d) = choose|c: int, d: int| is_cell(g, c, d) && g[c]@[d] == hi;
    assert(g[a]@[b] == k);
    assert(g[c]@[d] == k);
}

} // verus!
