//! Splitting raw CSV bytes into rows of fields.
//!
//! The format is the conventional one: fields are separated by commas,
//! rows by `\n`, `\r` or `\r\n`; a field may be enclosed in double
//! quotes, in which case it may contain separators, line breaks and
//! doubled quotes standing for a literal quote. A quoted field must end
//! at a separator, a row end or the end of the input. Lines with no
//! bytes at all are skipped, so a trailing line break adds no row.
//!
//! The splitter is specified as a byte-at-a-time state machine:
//! `run` folds `split_step` over the input and `finish` closes the last
//! row, rejecting an unterminated quote or a byte after a closing quote.

use vstd::prelude::*;
use crate::records::MalformedKind;
use crate::seqs::{lemma_prefix_snoc, lemma_view2_push, lemma_view3_push, view2, view3};

verus! {

pub const QUOTE: u8 = 0x22;

pub const COMMA: u8 = 0x2C;

pub const CR: u8 = 0x0D;

pub const LF: u8 = 0x0A;

/// Where in a field or row the splitter stands.
#[derive(Clone, Copy, Debug, PartialEq, Eq, Structural)]
pub enum Mode {
    /// At the start of a field (start of a line or just after a comma).
    FieldStart,
    /// Inside an unquoted field.
    Unquoted,
    /// Inside a quoted field.
    Quoted,
    /// Just after the closing quote of a quoted field.
    QuoteClosed,
    /// Just after a `\r` row end; a following `\n` belongs to it.
    AfterCr,
    /// A byte other than a separator followed a closing quote.
    Failed,
}

/// The splitter's state after reading some prefix of the input.
pub struct SplitState {
    pub rows: Seq<Seq<Seq<u8>>>,
    pub row: Seq<Seq<u8>>,
    pub field: Seq<u8>,
    pub mode: Mode,
}

pub open spec fn init_state() -> SplitState {
    SplitState { rows: seq![], row: seq![], field: seq![], mode: Mode::FieldStart }
}

/// Closes the current field.
pub open spec fn end_field(st: SplitState, mode: Mode) -> SplitState {
    SplitState { rows: st.rows, row: st.row.push(st.field), field: seq![], mode }
}

/// Closes the current field and row.
pub open spec fn emit_row(st: SplitState, mode: Mode) -> SplitState {
    SplitState { rows: st.rows.push(st.row.push(st.field)), row: seq![], field: seq![], mode }
}

/// A row end seen at the start of a field: a line with no bytes at all
/// is skipped, any other line ends as usual.
pub open spec fn end_line_at_start(st: SplitState, mode: Mode) -> SplitState {
    if st.row.len() == 0 {
        SplitState { rows: st.rows, row: seq![], field: seq![], mode }
    } else {
        emit_row(st, mode)
    }
}

/// One byte read at the start of a field.
pub open spec fn field_start_step(st: SplitState, b: u8) -> SplitState {
    if b == QUOTE {
        SplitState { rows: st.rows, row: st.row, field: st.field, mode: Mode::Quoted }
    } else if b == COMMA {
        end_field(st, Mode::FieldStart)
    } else if b == CR {
        end_line_at_start(st, Mode::AfterCr)
    } else if b == LF {
        end_line_at_start(st, Mode::FieldStart)
    } else {
        SplitState { rows: st.rows, row: st.row, field: st.field.push(b), mode: Mode::Unquoted }
    }
}

/// One byte read in any state.
pub open spec fn split_step(st: SplitState, b: u8) -> SplitState {
    match st.mode {
        Mode::FieldStart => field_start_step(st, b),
        Mode::AfterCr => if b == LF {
            SplitState { rows: st.rows, row: st.row, field: st.field, mode: Mode::FieldStart }
        } else {
            field_start_step(
                SplitState { rows: st.rows, row: st.row, field: st.field, mode: Mode::FieldStart },
                b,
            )
        },
        Mode::Unquoted => if b == COMMA {
            end_field(st, Mode::FieldStart)
        } else if b == CR {
            emit_row(st, Mode::AfterCr)
        } else if b == LF {
            emit_row(st, Mode::FieldStart)
        } else {
            SplitState { rows: st.rows, row: st.row, field: st.field.push(b), mode: Mode::Unquoted }
        },
        Mode::Quoted => if b == QUOTE {
            SplitState { rows: st.rows, row: st.row, field: st.field, mode: Mode::QuoteClosed }
        } else {
            SplitState { rows: st.rows, row: st.row, field: st.field.push(b), mode: Mode::Quoted }
        },
        Mode::QuoteClosed => if b == QUOTE {
            SplitState { rows: st.rows, row: st.row, field: st.field.push(b), mode: Mode::Quoted }
        } else if b == COMMA {
            end_field(st, Mode::FieldStart)
        } else if b == CR {
            emit_row(st, Mode::AfterCr)
        } else if b == LF {
            emit_row(st, Mode::FieldStart)
        } else {
            SplitState { rows: st.rows, row: st.row, field: st.field, mode: Mode::Failed }
        },
        Mode::Failed => st,
    }
}

/// The splitter's state after reading all of `s`.
pub open spec fn run(s: Seq<u8>) -> SplitState
    decreases s.len(),
{
    if s.len() == 0 {
        init_state()
    } else {
        split_step(run(s.drop_last()), s.last())
    }
}

/// Closes the final row and accepts or rejects the input.
pub open spec fn finish(st: SplitState) -> Result<Seq<Seq<Seq<u8>>>, MalformedKind> {
    match st.mode {
        Mode::Failed => Err(MalformedKind::UnexpectedQuote),
        Mode::Quoted => Err(MalformedKind::UnterminatedQuote),
        Mode::FieldStart => if st.row.len() == 0 {
            Ok(st.rows)
        } else {
            Ok(st.rows.push(st.row.push(st.field)))
        },
        Mode::AfterCr => Ok(st.rows),
        Mode::Unquoted => Ok(st.rows.push(st.row.push(st.field))),
        Mode::QuoteClosed => Ok(st.rows.push(st.row.push(st.field))),
    }
}

/// The rows of fields denoted by the CSV bytes `s`, or the way in which
/// `s` is malformed.
pub open spec fn split_csv(s: Seq<u8>) -> Result<Seq<Seq<Seq<u8>>>, MalformedKind> {
    finish(run(s))
}

pub proof fn lemma_run_snoc(s: Seq<u8>, i: int)
    requires
        0 <= i < s.len(),
    ensures
        run(s.subrange(0, i + 1)) == split_step(run(s.subrange(0, i)), s[i]),
{
    lemma_prefix_snoc(s, i);
    assert(run(s.subrange(0, i + 1)) == split_step(
        run(s.subrange(0, i + 1).drop_last()),
        s.subrange(0, i + 1).last(),
    ));
}

/// Splits CSV bytes into rows of fields, exactly as `split_csv` says.
pub fn split_bytes(input: &Vec<u8>) -> (r: Result<Vec<Vec<Vec<u8>>>, MalformedKind>)
    ensures
        match r {
            Ok(rows) => split_csv(input@) == Ok::<Seq<Seq<Seq<u8>>>, MalformedKind>(view3(rows@)),
            Err(k) => split_csv(input@) == Err::<Seq<Seq<Seq<u8>>>, MalformedKind>(k),
        },
{
    let ghost s = input@;
    let n: usize = input.len();
    let mut rows: Vec<Vec<Vec<u8>>> = Vec::new();
    let mut row: Vec<Vec<u8>> = Vec::new();
    let mut field: Vec<u8> = Vec::new();
    let mut mode: Mode = Mode::FieldStart;
    proof {
        assert(s.subrange(0, 0) =~= Seq::<u8>::empty());
        assert(view3(rows@) =~= init_state().rows);
        assert(view2(row@) =~= init_state().row);
    }
    let mut i: usize = 0;
    while i < n
        invariant
            0 <= i <= n,
            n == s.len(),
            s == input@,
            view3(rows@) == run(s.subrange(0, i as int)).rows,
            view2(row@) == run(s.subrange(0, i as int)).row,
            field@ == run(s.subrange(0, i as int)).field,
            mode == run(s.subrange(0, i as int)).mode,
        decreases n - i,
    {
        let b = input[i];
        proof {
            lemma_run_snoc(s, i as int);
        }
        let ghost rows0 = rows;
        let ghost row0 = row;
        let ghost field0 = field;
        if mode == Mode::Failed {
            // stays failed
        } else if mode == Mode::Quoted {
            if b == QUOTE {
                mode = Mode::QuoteClosed;
            } else {
                field.push(b);
            }
        } else if mode == Mode::QuoteClosed {
            if b == QUOTE {
                field.push(b);
                mode = Mode::Quoted;
            } else if b == COMMA {
                row.push(field);
                field = Vec::new();
                mode = Mode::FieldStart;
                proof {
                    lemma_view2_push(row0@, field0);
                }
            } else if b == CR || b == LF {
                row.push(field);
                field = Vec::new();
                let ghost rowv = row;
                rows.push(row);
                row = Vec::new();
                mode = if b == CR {
                    Mode::AfterCr
                } else {
                    Mode::FieldStart
                };
                proof {
                    lemma_view2_push(row0@, field0);
                    lemma_view3_push(rows0@, rowv);
                }
            } else {
                mode = Mode::Failed;
            }
        } else if mode == Mode::Unquoted {
            if b == COMMA {
                row.push(field);
                field = Vec::new();
                mode = Mode::FieldStart;
                proof {
                    lemma_view2_push(row0@, field0);
                }
            } else if b == CR || b == LF {
                row.push(field);
                field = Vec::new();
                let ghost rowv = row;
                rows.push(row);
                row = Vec::new();
                mode = if b == CR {
                    Mode::AfterCr
                } else {
                    Mode::FieldStart
                };
                proof {
                    lemma_view2_push(row0@, field0);
                    lemma_view3_push(rows0@, rowv);
                }
            } else {
                field.push(b);
            }
        } else if mode == Mode::AfterCr && b == LF {
            mode = Mode::FieldStart;
        } else {
            // at the start of a field
            if b == QUOTE {
                mode = Mode::Quoted;
            } else if b == COMMA {
                row.push(field);
                field = Vec::new();
                mode = Mode::FieldStart;
                proof {
                    lemma_view2_push(row0@, field0);
                }
            } else if b == CR || b == LF {
                if row.len() > 0 {
                    row.push(field);
                    field = Vec::new();
                    let ghost rowv = row;
                    rows.push(row);
                    row = Vec::new();
                    proof {
                        lemma_view2_push(row0@, field0);
                        lemma_view3_push(rows0@, rowv);
                    }
                } else {
                    field = Vec::new();
                    row = Vec::new();
                    proof {
                        assert(view2(row@) =~= Seq::<Seq<u8>>::empty());
                    }
                }
                mode = if b == CR {
                    Mode::AfterCr
                } else {
                    Mode::FieldStart
                };
            } else {
                field.push(b);
                mode = Mode::Unquoted;
            }
        }
        i = i + 1;
    }
    proof {
        assert(s.subrange(0, n as int) =~= s);
    }
    if mode == Mode::Failed {
        Err(MalformedKind::UnexpectedQuote)
    } else if mode == Mode::Quoted {
        Err(MalformedKind::UnterminatedQuote)
    } else if mode == Mode::AfterCr {
        Ok(rows)
    } else if mode == Mode::FieldStart && row.len() == 0 {
        Ok(rows)
    } else {
        let ghost rows0 = rows;
        let ghost row0 = row;
        let ghost field0 = field;
        row.push(field);
        let ghost rowv = row;
        rows.push(row);
        proof {
            lemma_view2_push(row0@, field0);
            lemma_view3_push(rows0@, rowv);
        }
        Ok(rows)
    }
}

} // verus!
