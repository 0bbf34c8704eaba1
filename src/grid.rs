use vstd::prelude::*;

verus! {

/// csv's error type, carried opaquely inside `LoadError::Csv`.
#[verifier::external_type_specification]
#[verifier::external_body]
pub struct ExCsvError(csv::Error);

/// The records that the csv crate reads from `text`, headerless and with its
/// default settings, each as its fields' bytes; `None` where it fails on the text.
pub uninterp spec fn csv_fields_of(text: Seq<u8>) -> Option<Seq<Seq<Seq<u8>>>>;

/// Relies on csv's `Reader::records`, read from `text` with `has_headers(false)`:
/// it yields every record in order, or the first error met.
#[verifier::external_body]
fn read_records(text: &[u8]) -> (r: Result<Vec<Vec<Vec<u8>>>, csv::Error>)
    ensures
        match r {
            Ok(rows) => csv_fields_of(text@) == Some(rows.deep_view()),
            Err(_) => csv_fields_of(text@) is None,
        },
{
    let mut reader = csv::ReaderBuilder::new().has_headers(false).from_reader(text);
    reader
        .records()
        .map(|rec| rec.map(|rec| rec.iter().map(|f| f.as_bytes().to_vec()).collect()))
        .collect()
}

/// Why a grid could not be loaded.
#[derive(Debug)]
pub enum LoadError {
    /// The text is not readable as comma-separated records.
    Csv(csv::Error),
    /// The field at `row`, `column` (both from 0) is not an integer in `0..=255`.
    Parse { row: usize, column: usize },
}

pub open spec fn is_digit(c: u8) -> bool {
    48 <= c <= 57
}

pub open spec fn all_digits(s: Seq<u8>) -> bool {
    forall|k: int| 0 <= k < s.len() ==> is_digit(#[trigger] s[k])
}

pub open spec fn digit_of(c: u8) -> nat {
    if is_digit(c) {
        (c - 48) as nat
    } else {
        0
    }
}

/// The number that the decimal digits `s` write.
pub open spec fn digits_value(s: Seq<u8>) -> nat
    decreases s.len(),
{
    if s.len() == 0 {
        0
    } else {
        digits_value(s.drop_last()) * 10 + digit_of(s.last())
    }
}

/// The digits of a field: the field without one leading `+`.
pub open spec fn unsigned_digits(s: Seq<u8>) -> Seq<u8> {
    if s.len() > 0 && s[0] == 43 {
        s.drop_first()
    } else {
        s
    }
}

/// The value of a field read as a `u8`: an optional `+`, then one or more
/// decimal digits that write at most 255. Anything else has no value.
pub open spec fn field_value(s: Seq<u8>) -> Option<u8> {
    let d = unsigned_digits(s);
    if d.len() > 0 && all_digits(d) && digits_value(d) <= 255 {
        Some(digits_value(d) as u8)
    } else {
        None
    }
}

proof fn lemma_prefix_value_le(d: Seq<u8>, k: int)
    requires
        0 <= k <= d.len(),
    ensures
        digits_value(d.take(k)) <= digits_value(d),
    decreases d.len(),
{
    if k == d.len() {
        assert(d.take(k) =~= d);
    } else {
        lemma_prefix_value_le(d.drop_last(), k);
        assert(d.drop_last().take(k) =~= d.take(k));
    }
}

/// Reads one field as a `u8`.
pub fn parse_field(s: &[u8]) -> (r: Option<u8>)
    ensures
        r == field_value(s@),
{
    let start: usize = if s.len() > 0 && s[0] == 43 {
        1
    } else {
        0
    };
    proof {
        assert(unsigned_digits(s@) =~= s@.subrange(start as int, s@.len() as int));
    }
    if start >= s.len() {
        return None;
    }
    let mut value: u16 = 0;
    let mut k: usize = start;
    while k < s.len()
        invariant
            start <= k <= s@.len(),
            unsigned_digits(s@) =~= s@.subrange(start as int, s@.len() as int),
            all_digits(s@.subrange(start as int, k as int)),
            value == digits_value(s@.subrange(start as int, k as int)),
            value <= 255,
        decreases s@.len() - k,
    {
        let c = s[k];
        let ghost d = unsigned_digits(s@);
        if c < 48 || c > 57 {
            assert(!is_digit(d[k - start]));
            return None;
        }
        proof {
            let p = s@.subrange(start as int, k + 1);
            assert(p.drop_last() =~= s@.subrange(start as int, k as int));
            assert(all_digits(p));
        }
        value = value * 10 + (c - 48) as u16;
        if value > 255 {
            proof {
                let p = s@.subrange(start as int, k + 1);
                assert(d.take(k + 1 - start) =~= p);
                lemma_prefix_value_le(d, k + 1 - start);
            }
            return None;
        }
        k = k + 1;
    }
    Some(value as u8)
}

/// `(i, j)` names a field of the records `f`.
pub open spec fn is_field(f: Seq<Seq<Seq<u8>>>, i: int, j: int) -> bool {
    0 <= i < f.len() && 0 <= j < f[i].len()
}

/// Every field of the records has a value.
pub open spec fn fields_valid(f: Seq<Seq<Seq<u8>>>) -> bool {
    forall|i: int, j: int| is_field(f, i, j) ==> (#[trigger] field_value(f[i][j])) is Some
}

/// `g` holds the records `f` read field by field: as many rows, each as long
/// as its record, each value that of its field, in the same order.
pub open spec fn is_grid_of(g: Seq<Vec<u8>>, f: Seq<Seq<Seq<u8>>>) -> bool {
    &&& g.len() == f.len()
    &&& forall|i: int| 0 <= i < f.len() ==> (#[trigger] g[i])@.len() == f[i].len()
    &&& forall|i: int, j: int|
        is_field(f, i, j) ==> field_value(f[i][j]) == Some(#[trigger] g[i]@[j])
}

/// `(row, column)` is the first field of `f`, rows first, that has no value.
pub open spec fn is_first_bad(f: Seq<Seq<Seq<u8>>>, row: int, column: int) -> bool {
    &&& is_field(f, row, column)
    &&& field_value(f[row][column]) is None
    &&& forall|i: int, j: int|
        is_field(f, i, j) && (i < row || (i == row && j < column)) ==> (#[trigger] field_value(
            f[i][j],
        )) is Some
}

/// Reads every field of the records as a `u8`. Fails on the first field,
/// rows first, that has no value.
pub fn parse_grid(records: &Vec<Vec<Vec<u8>>>) -> (r: Result<Vec<Vec<u8>>, LoadError>)
    ensures
        r is Ok <==> fields_valid(records.deep_view()),
        match r {
            Ok(g) => is_grid_of(g@, records.deep_view()),
            Err(LoadError::Parse { row, column }) => is_first_bad(
                records.deep_view(),
                row as int,
                column as int,
            ),
            Err(LoadError::Csv(_)) => false,
        },
{
    let ghost f = records.deep_view();
    let mut grid: Vec<Vec<u8>> = Vec::new();
    let mut i: usize = 0;
    while i < records.len()
        invariant
            f == records.deep_view(),
            i <= records@.len(),
            grid@.len() == i,
            forall|a: int| 0 <= a < i ==> (#[trigger] grid@[a])@.len() == f[a].len(),
            forall|a: int, b: int|
                is_field(f, a, b) && a < i ==> field_value(f[a][b]) == Some(#[trigger] grid@[a]@[b]),
        decreases records@.len() - i,
    {
        let record = &records[i];
        let mut row: Vec<u8> = Vec::new();
        let mut j: usize = 0;
        while j < record.len()
            invariant
                f == records.deep_view(),
                i < records@.len(),
                record.deep_view() == f[i as int],
                grid@.len() == i,
                forall|a: int| 0 <= a < i ==> (#[trigger] grid@[a])@.len() == f[a].len(),
                forall|a: int, b: int|
                    is_field(f, a, b) && a < i ==> field_value(f[a][b]) == Some(
                        #[trigger] grid@[a]@[b],
                    ),
                j <= record@.len(),
                row@.len() == j,
                forall|b: int| 0 <= b < j ==> field_value(f[i as int][b]) == Some(#[trigger] row@[b]),
            decreases record@.len() - j,
        {
            assert(record[j as int]@ == f[i as int][j as int]);
            match parse_field(record[j].as_slice()) {
                Some(v) => row.push(v),
                None => {
                    assert forall|a: int, b: int|
                        is_field(f, a, b) && (a < i || (a == i && b < j)) implies (
                        #[trigger] field_value(f[a][b])) is Some by {
                        if a < i {
                            assert(field_value(f[a][b]) == Some(grid@[a]@[b]));
                        } else {
                            assert(field_value(f[a][b]) == Some(row@[b]));
                        }
                    }
                    return Err(LoadError::Parse { row: i, column: j });
                },
            }
            j = j + 1;
        }
        grid.push(row);
        i = i + 1;
    }
    assert forall|a: int, b: int| is_field(f, a, b) implies (#[trigger] field_value(
        f[a][b],
    )) is Some by {
        assert(field_value(f[a][b]) == Some(grid@[a]@[b]));
    }
    Ok(grid)
}

/// Loads a grid from comma-separated text without a header row. Fails where
/// the csv crate cannot read the text, else where a field has no value.
pub fn load_grid(text: &[u8]) -> (r: Result<Vec<Vec<u8>>, LoadError>)
    ensures
        r matches Err(LoadError::Csv(_)) <==> csv_fields_of(text@) is None,
        match csv_fields_of(text@) {
            None => true,
            Some(f) => {
                &&& (r is Ok <==> fields_valid(f))
                &&& match r {
                    Ok(g) => is_grid_of(g@, f),
                    Err(LoadError::Parse { row, column }) => is_first_bad(
                        f,
                        row as int,
                        column as int,
                    ),
                    Err(LoadError::Csv(_)) => false,
                }
            },
        },
{
    match read_records(text) {
        Ok(records) => parse_grid(&records),
        Err(e) => Err(LoadError::Csv(e)),
    }
}

} // verus!
