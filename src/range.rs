use vstd::prelude::*;

verus! {

/// `(i, j)` names a cell of the grid `g`.
pub open spec fn is_cell(g: Seq<Vec<u8>>, i: int, j: int) -> bool {
    0 <= i < g.len() && 0 <= j < g[i]@.len()
}

/// The grid holds at least one value.
pub open spec fn has_values(g: Seq<Vec<u8>>) -> bool {
    exists|i: int, j: int| is_cell(g, i, j)
}

/// `(lo, hi)` is what scanning `g` yields: the least and the greatest of its
/// values, or `(255, 0)` where it holds none.
pub open spec fn is_range_of(g: Seq<Vec<u8>>, lo: u8, hi: u8) -> bool {
    &&& forall|i: int, j: int| is_cell(g, i, j) ==> lo <= #[trigger] g[i]@[j] <= hi
    &&& has_values(g) ==> (exists|i: int, j: int| is_cell(g, i, j) && g[i]@[j] == lo)
    &&& has_values(g) ==> (exists|i: int, j: int| is_cell(g, i, j) && g[i]@[j] == hi)
    &&& !has_values(g) ==> lo == 255 && hi == 0
}

/// Scans the grid for its least and greatest value. A grid without values
/// gives `(255, 0)`, a range with `min > max`.
pub fn min_max(data: &[Vec<u8>]) -> (r: (u8, u8))
    ensures
        is_range_of(data@, r.0, r.1),
        has_values(data@) ==> r.0 <= r.1,
{
    let mut min: u8 = 255;
    let mut max: u8 = 0;
    let mut found: bool = false;
    let mut i: usize = 0;
    while i < data.len()
        invariant
            i <= data@.len(),
            found <==> exists|a: int, b: int| is_cell(data@, a, b) && a < i,
            forall|a: int, b: int|
                is_cell(data@, a, b) && a < i ==> min <= #[trigger] data@[a]@[b] <= max,
            found ==> exists|a: int, b: int|
                is_cell(data@, a, b) && a < i && data@[a]@[b] == min,
            found ==> exists|a: int, b: int|
                is_cell(data@, a, b) && a < i && data@[a]@[b] == max,
            !found ==> min == 255 && max == 0,
        decreases data@.len() - i,
    {
        let row = &data[i];
        let mut j: usize = 0;
        while j < row.len()
            invariant
                i < data@.len(),
                row@ == data@[i as int]@,
                j <= row@.len(),
                found <==> exists|a: int, b: int|
                    is_cell(data@, a, b) && (a < i || (a == i && b < j)),
                forall|a: int, b: int|
                    is_cell(data@, a, b) && (a < i || (a == i && b < j)) ==> min
                        <= #[trigger] data@[a]@[b] <= max,
                found ==> exists|a: int, b: int|
                    is_cell(data@, a, b) && (a < i || (a == i && b < j)) && data@[a]@[b] == min,
                found ==> exists|a: int, b: int|
                    is_cell(data@, a, b) && (a < i || (a == i && b < j)) && data@[a]@[b] == max,
                !found ==> min == 255 && max == 0,
            decreases row@.len() - j,
        {
            let value = row[j];
            if value < min {
                min = value;
            }
            if value > max {
                max = value;
            }
            proof {
                assert(is_cell(data@, i as int, j as int));
            }
            found = true;
            j = j + 1;
        }
        i = i + 1;
    }
    (min, max)
}

} // verus!
