//! The converter: CSV bytes to a `RecordSet`, or a typed failure.
//!
//! Conversion is total over arbitrary byte sequences and is specified by
//! the pure function `spec_convert`: the input must be valid UTF-8 and
//! split into rows of fields; the first row names the columns, which must
//! be pairwise distinct; every further row must have exactly one field
//! per column and becomes one record, in input order. An input with no
//! rows at all (empty, or only skipped empty lines) yields a record set
//! with no columns and no records.

use vstd::prelude::*;
use crate::records::{ConversionFailure, MalformedKind, Record, RecordSet, RecordSetView, no_dup};
use crate::seqs::{bytes_eq, copy_cols, view2, view3};
use crate::split::{split_bytes, split_csv};
use crate::utf8::{is_valid_utf8, validate_utf8};

verus! {

/// The first index at or after `i` whose row does not have `expected`
/// fields, if any.
pub open spec fn first_bad_row(rows: Seq<Seq<Seq<u8>>>, expected: nat, i: int) -> Option<int>
    decreases rows.len() - i when 0 <= i <= rows.len()
{
    if i >= rows.len() {
        None
    } else if rows[i].len() != expected {
        Some(i)
    } else {
        first_bad_row(rows, expected, i + 1)
    }
}

/// What converting the bytes `s` yields: the record set value on
/// success, the failure otherwise. Conversion is a pure function of the
/// input bytes.
pub open spec fn spec_convert(s: Seq<u8>) -> Result<RecordSetView, ConversionFailure> {
    if !is_valid_utf8(s) {
        Err(ConversionFailure::MalformedInput { kind: MalformedKind::InvalidEncoding })
    } else {
        match split_csv(s) {
            Err(k) => Err(ConversionFailure::MalformedInput { kind: k }),
            Ok(rows) => if rows.len() == 0 {
                Ok(RecordSetView { columns: seq![], rows: seq![] })
            } else if !no_dup(rows[0]) {
                Err(ConversionFailure::MalformedInput { kind: MalformedKind::DuplicateColumn })
            } else {
                match first_bad_row(rows, rows[0].len(), 1) {
                    Some(i) => Err(
                        ConversionFailure::SchemaMismatch {
                            row: i as usize,
                            found: rows[i].len() as usize,
                            expected: rows[0].len() as usize,
                        },
                    ),
                    None => Ok(
                        RecordSetView { columns: rows[0], rows: rows.subrange(1, rows.len() as int) },
                    ),
                }
            },
        }
    }
}

/// Whether some column name occurs twice in `cols`.
fn find_dup(cols: &Vec<Vec<u8>>) -> (r: bool)
    ensures
        r == !no_dup(view2(cols@)),
{
    let n: usize = cols.len();
    let mut i: usize = 1;
    while i < n
        invariant
            1 <= i <= n || (n == 0 && i == 1),
            n == cols@.len(),
            forall|a: int, b: int| 0 <= a < b < i ==> view2(cols@)[a] != view2(cols@)[b],
        decreases n - i,
    {
        let mut j: usize = 0;
        while j < i
            invariant
                0 <= j <= i < n,
                n == cols@.len(),
                forall|a: int| 0 <= a < j ==> view2(cols@)[a] != view2(cols@)[i as int],
            decreases i - j,
        {
            if bytes_eq(&cols[j], &cols[i]) {
                proof {
                    assert(view2(cols@)[j as int] == view2(cols@)[i as int]);
                    assert(!no_dup(view2(cols@)));
                }
                return true;
            }
            j = j + 1;
        }
        i = i + 1;
    }
    false
}

proof fn lemma_first_bad_row_none(rows: Seq<Seq<Seq<u8>>>, expected: nat, i: int)
    requires
        0 <= i <= rows.len(),
        forall|j: int| i <= j < rows.len() ==> (#[trigger] rows[j]).len() == expected,
    ensures
        first_bad_row(rows, expected, i) is None,
    decreases rows.len() - i,
{
    if i < rows.len() {
        lemma_first_bad_row_none(rows, expected, i + 1);
    }
}

proof fn lemma_first_bad_row_finds(rows: Seq<Seq<Seq<u8>>>, expected: nat, k: int, i: int)
    requires
        0 <= k <= i < rows.len(),
        rows[i].len() != expected,
        forall|j: int| k <= j < i ==> (#[trigger] rows[j]).len() == expected,
    ensures
        first_bad_row(rows, expected, k) == Some(i),
    decreases i - k,
{
    if k < i {
        lemma_first_bad_row_finds(rows, expected, k + 1, i);
    }
}

/// A well-formed input converts to one record per data row, in input
/// order. Whenever the bytes are valid UTF-8 and split into a header
/// row and data rows whose columns are pairwise distinct and whose
/// field counts all match the header's, conversion succeeds; the
/// result's columns are the header's, and its value rows are exactly
/// the data rows, none skipped, reordered or changed.
pub proof fn lemma_convert_success(s: Seq<u8>, rows: Seq<Seq<Seq<u8>>>)
    requires
        is_valid_utf8(s),
        split_csv(s) == Ok::<Seq<Seq<Seq<u8>>>, MalformedKind>(rows),
        rows.len() > 0,
        no_dup(rows[0]),
        forall|i: int| 1 <= i < rows.len() ==> (#[trigger] rows[i]).len() == rows[0].len(),
    ensures
        spec_convert(s) is Ok,
        spec_convert(s)->Ok_0.columns == rows[0],
        spec_convert(s)->Ok_0.rows.len() == rows.len() - 1,
        forall|i: int| 0 <= i < rows.len() - 1 ==> spec_convert(s)->Ok_0.rows[i] == rows[i + 1],
{
    lemma_first_bad_row_none(rows, rows[0].len(), 1);
}

/// An input whose only row is the header converts to a record set with
/// the header's columns and no records at all, not to a failure.
pub proof fn lemma_convert_header_only(s: Seq<u8>, rows: Seq<Seq<Seq<u8>>>)
    requires
        is_valid_utf8(s),
        split_csv(s) == Ok::<Seq<Seq<Seq<u8>>>, MalformedKind>(rows),
        rows.len() == 1,
        no_dup(rows[0]),
    ensures
        spec_convert(s) is Ok,
        spec_convert(s)->Ok_0.columns == rows[0],
        spec_convert(s)->Ok_0.rows.len() == 0,
{
    lemma_convert_success(s, rows);
}

/// An input with no bytes at all converts to a record set with no
/// columns and no records: with no header present there is no row to
/// fail on.
pub proof fn lemma_convert_empty()
    ensures
        spec_convert(Seq::<u8>::empty()) == Ok::<RecordSetView, ConversionFailure>(
            RecordSetView { columns: seq![], rows: seq![] },
        ),
{
    let s = Seq::<u8>::empty();
    assert(is_valid_utf8(s));
    assert(crate::split::run(s) == crate::split::init_state());
    assert(split_csv(s) == Ok::<Seq<Seq<Seq<u8>>>, MalformedKind>(Seq::<Seq<Seq<u8>>>::empty()));
}

proof fn lemma_first_bad_row_none_all(rows: Seq<Seq<Seq<u8>>>, expected: nat, i: int)
    requires
        0 <= i <= rows.len(),
        first_bad_row(rows, expected, i) is None,
    ensures
        forall|j: int| i <= j < rows.len() ==> (#[trigger] rows[j]).len() == expected,
    decreases rows.len() - i,
{
    if i < rows.len() {
        lemma_first_bad_row_none_all(rows, expected, i + 1);
    }
}

/// Round trip: serializing any successful conversion and reading the
/// JSON back yields one object per record, in record order, whose keys
/// are the columns and whose values are that record's cells — exactly
/// the converted records, nothing lost or changed.
pub proof fn lemma_convert_serialize_round_trip(s: Seq<u8>)
    requires
        spec_convert(s) is Ok,
    ensures
        ({
            let m = spec_convert(s)->Ok_0;
            crate::json::parse_records(crate::json::json_recordset(m)) == Some(
                Seq::new(m.rows.len(), |i: int| (m.columns, m.rows[i])),
            )
        }),
{
    let m = spec_convert(s)->Ok_0;
    let rows = split_csv(s)->Ok_0;
    if rows.len() == 0 {
        assert(m.rows.len() == 0);
    } else {
        lemma_first_bad_row_none_all(rows, rows[0].len(), 1);
        assert(forall|i: int|
            0 <= i < m.rows.len() ==> (#[trigger] m.rows[i]).len() == m.columns.len());
    }
    crate::json::lemma_parse_recordset(m);
}

/// A data row whose field count differs from the header's makes the
/// whole conversion fail with `SchemaMismatch` naming that row — the
/// first such row — and both counts; the row is never padded,
/// truncated or dropped.
pub proof fn lemma_convert_schema_mismatch(s: Seq<u8>, rows: Seq<Seq<Seq<u8>>>, i: int)
    requires
        is_valid_utf8(s),
        split_csv(s) == Ok::<Seq<Seq<Seq<u8>>>, MalformedKind>(rows),
        rows.len() > 0,
        no_dup(rows[0]),
        1 <= i < rows.len(),
        rows[i].len() != rows[0].len(),
        forall|j: int| 1 <= j < i ==> (#[trigger] rows[j]).len() == rows[0].len(),
    ensures
        spec_convert(s) == Err::<RecordSetView, ConversionFailure>(
            ConversionFailure::SchemaMismatch {
                row: i as usize,
                found: rows[i].len() as usize,
                expected: rows[0].len() as usize,
            },
        ),
{
    lemma_first_bad_row_finds(rows, rows[0].len(), 1, i);
}

/// Converts CSV bytes into a record set, exactly as `spec_convert` says.
/// The result is a function of the input bytes alone: nothing else is
/// read, and equal inputs yield equal results.
pub fn convert(input: &Vec<u8>) -> (r: Result<RecordSet, ConversionFailure>)
    ensures
        match r {
            Ok(rs) => rs.wf() && spec_convert(input@) == Ok::<RecordSetView, ConversionFailure>(
                rs@,
            ),
            Err(e) => spec_convert(input@) == Err::<RecordSetView, ConversionFailure>(e),
        },
{
    if !validate_utf8(input) {
        return Err(ConversionFailure::MalformedInput { kind: MalformedKind::InvalidEncoding });
    }
    let rows_vec: Vec<Vec<Vec<u8>>> = match split_bytes(input) {
        Err(k) => {
            return Err(ConversionFailure::MalformedInput { kind: k });
        },
        Ok(v) => v,
    };
    let ghost rowsv = view3(rows_vec@);
    let n: usize = rows_vec.len();
    if n == 0 {
        let rs = RecordSet { columns: Vec::new(), records: Vec::new() };
        proof {
            assert(rs.columns_view() =~= Seq::<Seq<u8>>::empty());
            assert(rs.rows_view() =~= Seq::<Seq<Seq<u8>>>::empty());
            assert(rs@ == RecordSetView { columns: seq![], rows: seq![] });
        }
        return Ok(rs);
    }
    let header: &Vec<Vec<u8>> = &rows_vec[0];
    proof {
        assert(view2(header@) == rowsv[0]);
    }
    if find_dup(header) {
        return Err(ConversionFailure::MalformedInput { kind: MalformedKind::DuplicateColumn });
    }
    let expected: usize = header.len();
    let mut r: usize = 1;
    while r < n
        invariant
            1 <= r <= n,
            n == rows_vec@.len(),
            rowsv == view3(rows_vec@),
            n > 0,
            is_valid_utf8(input@),
            split_csv(input@) == Ok::<Seq<Seq<Seq<u8>>>, MalformedKind>(rowsv),
            no_dup(rowsv[0]),
            expected == rowsv[0].len(),
            first_bad_row(rowsv, rowsv[0].len(), 1) == first_bad_row(
                rowsv,
                rowsv[0].len(),
                r as int,
            ),
            forall|j: int| 1 <= j < r ==> (#[trigger] rowsv[j]).len() == rowsv[0].len(),
        decreases n - r,
    {
        let found: usize = rows_vec[r].len();
        if found != expected {
            proof {
                assert(rowsv[r as int].len() != rowsv[0].len());
                assert(first_bad_row(rowsv, rowsv[0].len(), r as int) == Some(r as int));
                assert(rowsv[r as int].len() == found);
                assert(rowsv[r as int].len() as usize == found);
                assert(rowsv[0].len() as usize == expected);
            }
            return Err(
                ConversionFailure::SchemaMismatch { row: r, found, expected },
            );
        }
        proof {
            assert(rowsv[r as int].len() == rowsv[0].len());
            assert(first_bad_row(rowsv, rowsv[0].len(), r as int) == first_bad_row(
                rowsv,
                rowsv[0].len(),
                r as int + 1,
            ));
        }
        r = r + 1;
    }
    proof {
        assert(first_bad_row(rowsv, rowsv[0].len(), n as int) is None);
    }
    let columns: Vec<Vec<u8>> = copy_cols(header);
    let mut records: Vec<Record> = Vec::new();
    let mut k: usize = 1;
    while k < n
        invariant
            1 <= k <= n,
            n == rows_vec@.len(),
            rowsv == view3(rows_vec@),
            view2(columns@) == rowsv[0],
            no_dup(rowsv[0]),
            forall|j: int| 1 <= j < n ==> (#[trigger] rowsv[j]).len() == rowsv[0].len(),
            records@.len() == k - 1,
            forall|j: int|
                0 <= j < k - 1 ==> (#[trigger] records@[j]).wf() && records@[j].columns_view()
                    == rowsv[0] && records@[j].values_view() == rowsv[j + 1],
        decreases n - k,
    {
        let rec = Record { columns: copy_cols(&columns), values: copy_cols(&rows_vec[k]) };
        proof {
            assert(rec.columns_view() == rowsv[0]);
            assert(rec.values_view() == rowsv[k as int]);
            assert(rec.wf());
        }
        records.push(rec);
        k = k + 1;
    }
    let rs = RecordSet { columns, records };
    proof {
        assert(rs.columns_view() == rowsv[0]);
        assert(rs.rows_view() =~= rowsv.subrange(1, rowsv.len() as int));
        assert(rs.wf());
        assert(rs@ == RecordSetView {
            columns: rowsv[0],
            rows: rowsv.subrange(1, rowsv.len() as int),
        });
    }
    Ok(rs)
}

} // verus!
