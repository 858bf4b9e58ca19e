//! The data model of a conversion: records, record sets, and the closed
//! taxonomy of conversion failures.
//!
//! A `Record` maps column names to cell values, both kept as UTF-8 byte
//! strings, with the keys in source header order. A `RecordSet` is the
//! ordered sequence of records decoded from one input, together with the
//! header columns; every record shares exactly the header's columns.

use vstd::prelude::*;
use crate::numfmt::{dec_rep, push_dec};
use crate::seqs::{bytes_eq, bytes_of_str, push_text, str_bytes, view2};

verus! {

/// Why an input could not be converted.
///
/// `MalformedInput` covers low-level syntax violations: bytes that are not
/// valid UTF-8, a quoted field that never closes, a byte other than a
/// separator after a closing quote, and a header that names the same
/// column twice (a record cannot hold one key twice). `SchemaMismatch`
/// reports a data row whose field count differs from the header's; `row`
/// counts rows of the input with the header as row 0, so the first data
/// row is row 1. `InternalFailure` is never produced by conversion; it
/// exists so an unanticipated failure at the service boundary can be
/// mapped through the same taxonomy.
#[derive(Clone, Copy, Debug, PartialEq, Eq)]
pub enum MalformedKind {
    InvalidEncoding,
    UnterminatedQuote,
    UnexpectedQuote,
    DuplicateColumn,
}

#[derive(Clone, Copy, Debug, PartialEq, Eq)]
pub enum ConversionFailure {
    MalformedInput { kind: MalformedKind },
    SchemaMismatch { row: usize, found: usize, expected: usize },
    InternalFailure,
}

/// One decoded data row: a mapping from column name to cell value, keys
/// in header order.
#[derive(Debug, Clone)]
pub struct Record {
    pub columns: Vec<Vec<u8>>,
    pub values: Vec<Vec<u8>>,
}

/// All records decoded from one input, in input row order.
#[derive(Debug, Clone)]
pub struct RecordSet {
    pub columns: Vec<Vec<u8>>,
    pub records: Vec<Record>,
}

impl Record {
    /// The columns of this record, as a sequence of byte strings.
    pub open spec fn columns_view(self) -> Seq<Seq<u8>> {
        view2(self.columns@)
    }

    /// The values of this record, as a sequence of byte strings.
    pub open spec fn values_view(self) -> Seq<Seq<u8>> {
        view2(self.values@)
    }

    /// A record is well formed when it has one value per column and no
    /// column name repeats.
    pub open spec fn wf(self) -> bool {
        &&& self.columns@.len() == self.values@.len()
        &&& no_dup(self.columns_view())
    }

    /// The mapping this record denotes.
    pub open spec fn map_view(self) -> Map<Seq<u8>, Seq<u8>> {
        Map::new(
            |k: Seq<u8>| self.columns_view().contains(k),
            |k: Seq<u8>| self.values_view()[self.columns_view().index_of(k)],
        )
    }

    /// The value under column `name`, or `None` when the record has no
    /// such column.
    pub fn get(&self, name: &Vec<u8>) -> (r: Option<&Vec<u8>>)
        requires
            self.wf(),
        ensures
            match r {
                Some(v) => self.map_view().contains_key(name@) && v@ == self.map_view()[name@],
                None => !self.map_view().contains_key(name@),
            },
    {
        let n = self.columns.len();
        let mut i: usize = 0;
        while i < n
            invariant
                0 <= i <= n,
                n == self.columns@.len(),
                self.wf(),
                forall|j: int| 0 <= j < i ==> self.columns_view()[j] != name@,
            decreases n - i,
        {
            if bytes_eq(&self.columns[i], name) {
                proof {
                    assert(self.columns_view()[i as int] == name@);
                    assert(self.columns_view().contains(name@));
                    let k = self.columns_view().index_of(name@);
                    assert(self.columns_view()[k] == name@);
                    assert(k == i as int) by {
                        if k != i as int {
                            assert(!no_dup(self.columns_view()));
                        }
                    }
                }
                return Some(&self.values[i]);
            }
            i = i + 1;
        }
        proof {
            if self.columns_view().contains(name@) {
                let k = choose|k: int|
                    0 <= k < self.columns_view().len() && self.columns_view()[k] == name@;
                assert(false);
            }
        }
        None
    }
}

/// The mathematical value of a `RecordSet`: the header columns and the
/// rows of cell values, in input order.
pub struct RecordSetView {
    pub columns: Seq<Seq<u8>>,
    pub rows: Seq<Seq<Seq<u8>>>,
}

impl View for RecordSet {
    type V = RecordSetView;

    open spec fn view(&self) -> RecordSetView {
        RecordSetView { columns: (*self).columns_view(), rows: (*self).rows_view() }
    }
}

/// Whether no element of `s` occurs twice.
pub open spec fn no_dup(s: Seq<Seq<u8>>) -> bool {
    forall|i: int, j: int| 0 <= i < j < s.len() ==> s[i] != s[j]
}

impl RecordSet {
    /// The header columns, as a sequence of byte strings.
    pub open spec fn columns_view(self) -> Seq<Seq<u8>> {
        view2(self.columns@)
    }

    /// The value rows, one per record, in input order.
    pub open spec fn rows_view(self) -> Seq<Seq<Seq<u8>>> {
        Seq::new(self.records@.len(), |i: int| self.records@[i].values_view())
    }

    /// A record set is well formed when the header has no duplicate
    /// column and every record carries exactly the header's columns,
    /// one value per column.
    pub open spec fn wf(self) -> bool {
        &&& no_dup(self.columns_view())
        &&& forall|i: int|
            0 <= i < self.records@.len() ==> (#[trigger] self.records@[i]).wf()
                && self.records@[i].columns_view() == self.columns_view()
    }

    /// The number of records.
    pub fn len(&self) -> (r: usize)
        ensures
            r == self.rows_view().len(),
    {
        self.records.len()
    }
}

impl ConversionFailure {
    /// The human-readable description of this failure.
    pub open spec fn message_view(self) -> Seq<u8> {
        match self {
            ConversionFailure::MalformedInput { kind } => match kind {
                MalformedKind::InvalidEncoding => bytes_of_str("input is not valid UTF-8"),
                MalformedKind::UnterminatedQuote => bytes_of_str("unterminated quoted field"),
                MalformedKind::UnexpectedQuote => bytes_of_str("invalid data after closing quote"),
                MalformedKind::DuplicateColumn => bytes_of_str("duplicate column name in header"),
            },
            ConversionFailure::SchemaMismatch { row, found, expected } => bytes_of_str("record ")
                + dec_rep(row as nat) + bytes_of_str(" has ") + dec_rep(found as nat)
                + bytes_of_str(" fields, expected ") + dec_rep(expected as nat),
            ConversionFailure::InternalFailure => bytes_of_str("UNHANDLED_REJECTION"),
        }
    }

    /// Builds the human-readable description of this failure.
    pub fn message(&self) -> (r: Vec<u8>)
        ensures
            r@ == self.message_view(),
    {
        match self {
            ConversionFailure::MalformedInput { kind } => match kind {
                MalformedKind::InvalidEncoding => {
                    proof {
                        reveal_strlit("input is not valid UTF-8");
                    }
                    str_bytes("input is not valid UTF-8")
                },
                MalformedKind::UnterminatedQuote => {
                    proof {
                        reveal_strlit("unterminated quoted field");
                    }
                    str_bytes("unterminated quoted field")
                },
                MalformedKind::UnexpectedQuote => {
                    proof {
                        reveal_strlit("invalid data after closing quote");
                    }
                    str_bytes("invalid data after closing quote")
                },
                MalformedKind::DuplicateColumn => {
                    proof {
                        reveal_strlit("duplicate column name in header");
                    }
                    str_bytes("duplicate column name in header")
                },
            },
            ConversionFailure::SchemaMismatch { row, found, expected } => {
                proof {
                    reveal_strlit("record ");
                    reveal_strlit(" has ");
                    reveal_strlit(" fields, expected ");
                }
                let mut out = str_bytes("record ");
                push_dec(&mut out, *row as u64);
                push_text(&mut out, " has ");
                push_dec(&mut out, *found as u64);
                push_text(&mut out, " fields, expected ");
                push_dec(&mut out, *expected as u64);
                out
            },
            ConversionFailure::InternalFailure => {
                proof {
                    reveal_strlit("UNHANDLED_REJECTION");
                }
                str_bytes("UNHANDLED_REJECTION")
            },
        }
    }
}

} // verus!
