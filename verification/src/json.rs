//! Serializing a record set as JSON bytes.
//!
//! A record set becomes a JSON array with one object per record, in
//! record order; each object lists the record's columns in header order
//! with the cell values as JSON strings. Values are emitted byte for
//! byte, with `"` and `\` escaped and control bytes written as `\u00xx`;
//! all other bytes, including multi-byte UTF-8 sequences, pass through
//! unchanged, so the output of a converted input is valid UTF-8 JSON.

use vstd::prelude::*;
use crate::records::{Record, RecordSet, RecordSetView};
use crate::seqs::lemma_prefix_snoc;

verus! {

/// The lowercase hex digit for `d` (`d < 16`).
pub open spec fn hex_digit(d: u8) -> u8 {
    if d < 10 {
        (0x30 + d) as u8
    } else {
        (0x57 + d) as u8
    }
}

/// How one byte of a string value is written inside a JSON string.
pub open spec fn escape_byte(b: u8) -> Seq<u8> {
    if b == 0x22 {
        seq![0x5C, 0x22]
    } else if b == 0x5C {
        seq![0x5C, 0x5C]
    } else if b < 0x20 {
        seq![0x5C, 0x75, 0x30, 0x30, hex_digit(b / 16), hex_digit(b % 16)]
    } else {
        seq![b]
    }
}

/// The escaped form of a whole string value.
pub open spec fn escape(s: Seq<u8>) -> Seq<u8>
    decreases s.len(),
{
    if s.len() == 0 {
        seq![]
    } else {
        escape(s.drop_last()) + escape_byte(s.last())
    }
}

/// A JSON string literal: the escaped bytes between double quotes.
pub open spec fn json_string(s: Seq<u8>) -> Seq<u8> {
    seq![0x22u8] + escape(s) + seq![0x22u8]
}

/// The first `n` members of a record's JSON object, comma separated.
pub open spec fn json_members(cols: Seq<Seq<u8>>, vals: Seq<Seq<u8>>, n: int) -> Seq<u8>
    decreases n,
{
    if n <= 0 {
        seq![]
    } else if n == 1 {
        json_string(cols[0]) + seq![0x3Au8] + json_string(vals[0])
    } else {
        json_members(cols, vals, n - 1) + seq![0x2Cu8] + json_string(cols[n - 1]) + seq![0x3Au8]
            + json_string(vals[n - 1])
    }
}

/// A record as a JSON object.
pub open spec fn json_record(cols: Seq<Seq<u8>>, vals: Seq<Seq<u8>>) -> Seq<u8> {
    seq![0x7Bu8] + json_members(cols, vals, cols.len() as int) + seq![0x7Du8]
}

/// The first `n` records of a record set, comma separated.
pub open spec fn json_elems(rs: RecordSetView, n: int) -> Seq<u8>
    decreases n,
{
    if n <= 0 {
        seq![]
    } else if n == 1 {
        json_record(rs.columns, rs.rows[0])
    } else {
        json_elems(rs, n - 1) + seq![0x2Cu8] + json_record(rs.columns, rs.rows[n - 1])
    }
}

/// A record set as a JSON array of objects.
pub open spec fn json_recordset(rs: RecordSetView) -> Seq<u8> {
    seq![0x5Bu8] + json_elems(rs, rs.rows.len() as int) + seq![0x5Du8]
}

/// Whether `b` is a hex digit as `hex_digit` writes one.
pub open spec fn is_hex(b: u8) -> bool {
    (0x30 <= b && b <= 0x39) || (0x61 <= b && b <= 0x66)
}

/// The value of a hex digit written by `hex_digit`.
pub open spec fn hex_val(b: u8) -> u8 {
    if b <= 0x39 {
        (b - 0x30) as u8
    } else {
        (b - 0x57) as u8
    }
}

/// Reads an escaped string body from the head of `t`, up to and over
/// the closing quote: the value read and the bytes after the quote.
pub open spec fn parse_body(t: Seq<u8>) -> Option<(Seq<u8>, Seq<u8>)>
    decreases t.len(),
{
    if t.len() == 0 {
        None
    } else if t[0] == 0x22 {
        Some((seq![], t.drop_first()))
    } else if t[0] == 0x5C {
        if t.len() >= 2 && (t[1] == 0x22 || t[1] == 0x5C) {
            match parse_body(t.subrange(2, t.len() as int)) {
                Some(p) => Some((seq![t[1]] + p.0, p.1)),
                None => None,
            }
        } else if t.len() >= 6 && t[1] == 0x75 && t[2] == 0x30 && t[3] == 0x30 && is_hex(t[4])
            && is_hex(t[5]) {
            match parse_body(t.subrange(6, t.len() as int)) {
                Some(p) => Some((seq![(hex_val(t[4]) * 16 + hex_val(t[5])) as u8] + p.0, p.1)),
                None => None,
            }
        } else {
            None
        }
    } else {
        match parse_body(t.drop_first()) {
            Some(p) => Some((seq![t[0]] + p.0, p.1)),
            None => None,
        }
    }
}

/// Reads a JSON string literal from the head of `t`.
pub open spec fn parse_string(t: Seq<u8>) -> Option<(Seq<u8>, Seq<u8>)> {
    if t.len() > 0 && t[0] == 0x22 {
        parse_body(t.drop_first())
    } else {
        None
    }
}

/// Reads the members of an object after its `{`, up to and over the
/// `}`: the keys, the values, and the bytes after the brace. The
/// bound `r2.len() < t.len()` always holds of a string member already
/// read; it makes the recursion visibly well founded.
pub open spec fn parse_object_members(t: Seq<u8>) -> Option<
    (Seq<Seq<u8>>, Seq<Seq<u8>>, Seq<u8>),
>
    decreases t.len(),
{
    match parse_string(t) {
        None => None,
        Some(kp) => {
            let r1 = kp.1;
            if r1.len() > 0 && r1[0] == 0x3A {
                match parse_string(r1.drop_first()) {
                    None => None,
                    Some(vp) => {
                        let r2 = vp.1;
                        if r2.len() > 0 && r2[0] == 0x7D {
                            Some((seq![kp.0], seq![vp.0], r2.drop_first()))
                        } else if r2.len() > 0 && r2[0] == 0x2C && r2.len() < t.len() {
                            match parse_object_members(r2.drop_first()) {
                                Some(p) => Some((seq![kp.0] + p.0, seq![vp.0] + p.1, p.2)),
                                None => None,
                            }
                        } else {
                            None
                        }
                    },
                }
            } else {
                None
            }
        },
    }
}

/// Reads one object from the head of `t`: its keys, its values in key
/// order, and the bytes after the object.
pub open spec fn parse_object(t: Seq<u8>) -> Option<(Seq<Seq<u8>>, Seq<Seq<u8>>, Seq<u8>)> {
    if t.len() >= 2 && t[0] == 0x7B && t[1] == 0x7D {
        Some((seq![], seq![], t.subrange(2, t.len() as int)))
    } else if t.len() > 0 && t[0] == 0x7B {
        parse_object_members(t.drop_first())
    } else {
        None
    }
}

/// Reads the elements of a non-empty array after its `[`, up to and
/// over the `]`: one (keys, values) pair per object, in array order.
pub open spec fn parse_array_elems(t: Seq<u8>) -> Option<
    (Seq<(Seq<Seq<u8>>, Seq<Seq<u8>>)>, Seq<u8>),
>
    decreases t.len(),
{
    match parse_object(t) {
        None => None,
        Some(p) => {
            let r1 = p.2;
            if r1.len() > 0 && r1[0] == 0x5D {
                Some((seq![(p.0, p.1)], r1.drop_first()))
            } else if r1.len() > 0 && r1[0] == 0x2C && r1.len() < t.len() {
                match parse_array_elems(r1.drop_first()) {
                    Some(q) => Some((seq![(p.0, p.1)] + q.0, q.1)),
                    None => None,
                }
            } else {
                None
            }
        },
    }
}

/// What a serialized record set denotes when read back: for each
/// object of the array, its keys and values in written order; `None`
/// when the bytes are not a whole array of such objects.
pub open spec fn parse_records(t: Seq<u8>) -> Option<Seq<(Seq<Seq<u8>>, Seq<Seq<u8>>)>> {
    if t.len() == 2 && t[0] == 0x5B && t[1] == 0x5D {
        Some(seq![])
    } else if t.len() > 0 && t[0] == 0x5B {
        match parse_array_elems(t.drop_first()) {
            Some(p) => if p.1.len() == 0 {
                Some(p.0)
            } else {
                None
            },
            None => None,
        }
    } else {
        None
    }
}

proof fn lemma_escape_add(a: Seq<u8>, b: Seq<u8>)
    ensures
        escape(a + b) == escape(a) + escape(b),
    decreases b.len(),
{
    if b.len() == 0 {
        assert(a + b =~= a);
        assert(escape(b) =~= Seq::<u8>::empty());
        assert(escape(a) + escape(b) =~= escape(a));
    } else {
        lemma_escape_add(a, b.drop_last());
        assert((a + b).drop_last() =~= a + b.drop_last());
        assert((a + b).last() == b.last());
        assert(escape(a + b) == escape(a) + escape(b.drop_last()) + escape_byte(b.last()));
        assert(escape(a) + escape(b.drop_last()) + escape_byte(b.last()) =~= escape(a) + (escape(
            b.drop_last(),
        ) + escape_byte(b.last())));
    }
}

proof fn lemma_escape_cons(s: Seq<u8>)
    requires
        s.len() > 0,
    ensures
        escape(s) == escape_byte(s[0]) + escape(s.drop_first()),
    decreases s.len(),
{
    let single = seq![s[0]];
    assert(s =~= single + s.drop_first());
    lemma_escape_add(single, s.drop_first());
    assert(single.drop_last() =~= Seq::<u8>::empty());
    assert(escape(single) == escape(Seq::<u8>::empty()) + escape_byte(s[0]));
    assert(escape(Seq::<u8>::empty()) + escape_byte(s[0]) =~= escape_byte(s[0]));
}

/// Serialization of a string value is lossless: reading its escaped
/// form back, whatever follows it, yields exactly the value and the
/// following bytes.
pub proof fn lemma_parse_body_escape(s: Seq<u8>, rest: Seq<u8>)
    ensures
        parse_body(escape(s) + seq![0x22u8] + rest) == Some((s, rest)),
    decreases s.len(),
{
    let t = escape(s) + seq![0x22u8] + rest;
    if s.len() == 0 {
        assert(escape(s) =~= Seq::<u8>::empty());
        assert(t =~= seq![0x22u8] + rest);
        assert(t[0] == 0x22);
        assert(t.drop_first() =~= rest);
        assert(Seq::<u8>::empty() =~= s);
    } else {
        let b = s[0];
        let srest = s.drop_first();
        lemma_escape_cons(s);
        lemma_parse_body_escape(srest, rest);
        let eb = escape_byte(b);
        let tt = escape(srest) + seq![0x22u8] + rest;
        assert(t =~= eb + tt);
        assert(forall|i: int| 0 <= i < eb.len() ==> t[i] == eb[i]);
        if b == 0x22 || b == 0x5C {
            assert(eb =~= seq![0x5Cu8, b]);
            assert(t[0] == 0x5C && t[1] == b);
            assert(t.subrange(2, t.len() as int) =~= tt);
            assert(parse_body(t) == Some((seq![b] + srest, rest)));
            assert(seq![b] + srest =~= s);
        } else if b < 0x20 {
            let hi = b / 16;
            let lo = b % 16;
            assert(eb =~= seq![0x5Cu8, 0x75u8, 0x30u8, 0x30u8, hex_digit(hi), hex_digit(lo)]);
            assert(is_hex(hex_digit(hi)) && hex_val(hex_digit(hi)) == hi);
            assert(is_hex(hex_digit(lo)) && hex_val(hex_digit(lo)) == lo);
            assert(t.len() >= 6);
            assert(t.subrange(6, t.len() as int) =~= tt);
            assert(hex_val(t[4]) * 16 + hex_val(t[5]) == b);
            assert(parse_body(t) == Some((seq![b] + srest, rest)));
            assert(seq![b] + srest =~= s);
        } else {
            assert(eb =~= seq![b]);
            assert(t[0] == b && b != 0x22 && b != 0x5C);
            assert(t.drop_first() =~= tt);
            assert(parse_body(t) == Some((seq![b] + srest, rest)));
            assert(seq![b] + srest =~= s);
        }
    }
}

/// Reading a serialized string value back yields the value and what
/// follows it.
pub proof fn lemma_parse_string_json(s: Seq<u8>, rest: Seq<u8>)
    ensures
        parse_string(json_string(s) + rest) == Some((s, rest)),
{
    let t = json_string(s) + rest;
    assert(t[0] == 0x22);
    assert(t.drop_first() =~= escape(s) + seq![0x22u8] + rest);
    lemma_parse_body_escape(s, rest);
}

/// Distinct string values never serialize alike.
pub proof fn lemma_json_string_injective(a: Seq<u8>, b: Seq<u8>)
    requires
        json_string(a) == json_string(b),
    ensures
        a == b,
{
    lemma_parse_string_json(a, Seq::<u8>::empty());
    lemma_parse_string_json(b, Seq::<u8>::empty());
    assert(json_string(a) + Seq::<u8>::empty() =~= json_string(a));
    assert(json_string(b) + Seq::<u8>::empty() =~= json_string(b));
}

proof fn lemma_json_members_cons(cols: Seq<Seq<u8>>, vals: Seq<Seq<u8>>, n: int)
    requires
        2 <= n <= cols.len(),
        n <= vals.len(),
    ensures
        json_members(cols, vals, n) == json_string(cols[0]) + seq![0x3Au8] + json_string(vals[0])
            + seq![0x2Cu8] + json_members(cols.drop_first(), vals.drop_first(), n - 1),
    decreases n,
{
    let item0 = json_string(cols[0]) + seq![0x3Au8] + json_string(vals[0]);
    let dc = cols.drop_first();
    let dv = vals.drop_first();
    if n == 2 {
        assert(json_members(cols, vals, 2) == json_members(cols, vals, 1) + seq![0x2Cu8]
            + json_string(cols[1]) + seq![0x3Au8] + json_string(vals[1]));
        assert(dc[0] == cols[1] && dv[0] == vals[1]);
        assert(json_members(dc, dv, 1) == json_string(cols[1]) + seq![0x3Au8] + json_string(
            vals[1],
        ));
        assert(json_members(cols, vals, 1) + seq![0x2Cu8] + json_string(cols[1]) + seq![0x3Au8]
            + json_string(vals[1]) =~= item0 + seq![0x2Cu8] + json_members(dc, dv, 1));
    } else {
        lemma_json_members_cons(cols, vals, n - 1);
        assert(dc[n - 2] == cols[n - 1] && dv[n - 2] == vals[n - 1]);
        assert(json_members(cols, vals, n) == json_members(cols, vals, n - 1) + seq![0x2Cu8]
            + json_string(cols[n - 1]) + seq![0x3Au8] + json_string(vals[n - 1]));
        assert(json_members(dc, dv, n - 1) == json_members(dc, dv, n - 2) + seq![0x2Cu8]
            + json_string(dc[n - 2]) + seq![0x3Au8] + json_string(dv[n - 2]));
        assert(item0 + seq![0x2Cu8] + json_members(dc, dv, n - 2) + seq![0x2Cu8] + json_string(
            dc[n - 2],
        ) + seq![0x3Au8] + json_string(dv[n - 2]) =~= item0 + seq![0x2Cu8] + json_members(
            dc,
            dv,
            n - 1,
        ));
    }
}

#[verifier::rlimit(100)]
proof fn lemma_parse_members_json(cols: Seq<Seq<u8>>, vals: Seq<Seq<u8>>, n: int, rest: Seq<u8>)
    requires
        1 <= n <= cols.len(),
        n <= vals.len(),
    ensures
        parse_object_members(json_members(cols, vals, n) + seq![0x7Du8] + rest) == Some(
            (cols.subrange(0, n), vals.subrange(0, n), rest),
        ),
    decreases n,
{
    let t = json_members(cols, vals, n) + seq![0x7Du8] + rest;
    if n == 1 {
        let after_key = seq![0x3Au8] + json_string(vals[0]) + seq![0x7Du8] + rest;
        assert(t =~= json_string(cols[0]) + after_key);
        lemma_parse_string_json(cols[0], after_key);
        assert(parse_string(t) == Some((cols[0], after_key)));
        assert(after_key[0] == 0x3A);
        let after_colon = json_string(vals[0]) + (seq![0x7Du8] + rest);
        assert(after_key.drop_first() =~= after_colon);
        lemma_parse_string_json(vals[0], seq![0x7Du8] + rest);
        let r2 = seq![0x7Du8] + rest;
        assert(parse_string(after_colon) == Some((vals[0], r2)));
        assert(r2[0] == 0x7D);
        assert(r2.drop_first() =~= rest);
        assert(seq![cols[0]] =~= cols.subrange(0, 1));
        assert(seq![vals[0]] =~= vals.subrange(0, 1));
    } else {
        lemma_json_members_cons(cols, vals, n);
        let dc = cols.drop_first();
        let dv = vals.drop_first();
        let members_rest = json_members(dc, dv, n - 1) + seq![0x7Du8] + rest;
        let after_key = seq![0x3Au8] + json_string(vals[0]) + seq![0x2Cu8] + members_rest;
        assert(t =~= json_string(cols[0]) + after_key);
        lemma_parse_string_json(cols[0], after_key);
        assert(parse_string(t) == Some((cols[0], after_key)));
        assert(after_key[0] == 0x3A);
        let r2 = seq![0x2Cu8] + members_rest;
        let after_colon = json_string(vals[0]) + r2;
        assert(after_key.drop_first() =~= after_colon);
        lemma_parse_string_json(vals[0], r2);
        assert(parse_string(after_colon) == Some((vals[0], r2)));
        assert(r2[0] == 0x2C);
        assert(r2[0] != 0x7D);
        assert(json_string(cols[0]).len() >= 2 && json_string(vals[0]).len() >= 2);
        assert(r2.len() < t.len());
        assert(r2.drop_first() =~= members_rest);
        lemma_parse_members_json(dc, dv, n - 1, rest);
        assert(parse_object_members(members_rest) == Some(
            (dc.subrange(0, n - 1), dv.subrange(0, n - 1), rest),
        ));
        assert(seq![cols[0]] + dc.subrange(0, n - 1) =~= cols.subrange(0, n));
        assert(seq![vals[0]] + dv.subrange(0, n - 1) =~= vals.subrange(0, n));
    }
}

proof fn lemma_json_members_first_byte(cols: Seq<Seq<u8>>, vals: Seq<Seq<u8>>, n: int)
    requires
        1 <= n <= cols.len(),
        n <= vals.len(),
    ensures
        json_members(cols, vals, n).len() >= 2,
        json_members(cols, vals, n)[0] == 0x22,
{
    if n == 1 {
        assert(json_members(cols, vals, 1)[0] == json_string(cols[0])[0]);
    } else {
        lemma_json_members_cons(cols, vals, n);
        assert(json_members(cols, vals, n)[0] == json_string(cols[0])[0]);
    }
}

/// Reading a serialized record back yields its columns, its values in
/// column order, and what follows the object.
pub proof fn lemma_parse_object_json(cols: Seq<Seq<u8>>, vals: Seq<Seq<u8>>, rest: Seq<u8>)
    requires
        cols.len() == vals.len(),
    ensures
        parse_object(json_record(cols, vals) + rest) == Some((cols, vals, rest)),
{
    let t = json_record(cols, vals) + rest;
    let n = cols.len() as int;
    if n == 0 {
        assert(json_members(cols, vals, 0) =~= Seq::<u8>::empty());
        assert(json_record(cols, vals) =~= seq![0x7Bu8, 0x7Du8]);
        assert(t[0] == 0x7B && t[1] == 0x7D);
        assert(t.subrange(2, t.len() as int) =~= rest);
        assert(cols =~= Seq::<Seq<u8>>::empty());
        assert(vals =~= Seq::<Seq<u8>>::empty());
    } else {
        lemma_json_members_first_byte(cols, vals, n);
        let inner = json_members(cols, vals, n) + seq![0x7Du8] + rest;
        assert(t =~= seq![0x7Bu8] + inner);
        assert(t[0] == 0x7B);
        assert(t[1] == 0x22);
        assert(t.drop_first() =~= inner);
        lemma_parse_members_json(cols, vals, n, rest);
        assert(cols.subrange(0, n) =~= cols);
        assert(vals.subrange(0, n) =~= vals);
    }
}

proof fn lemma_json_elems_cons(rs: RecordSetView, n: int)
    requires
        2 <= n <= rs.rows.len(),
    ensures
        json_elems(rs, n) == json_record(rs.columns, rs.rows[0]) + seq![0x2Cu8] + json_elems(
            (RecordSetView { columns: rs.columns, rows: rs.rows.drop_first() }),
            n - 1,
        ),
    decreases n,
{
    let item0 = json_record(rs.columns, rs.rows[0]);
    let tl = RecordSetView { columns: rs.columns, rows: rs.rows.drop_first() };
    if n == 2 {
        assert(tl.rows[0] == rs.rows[1]);
        assert(json_elems(rs, 2) == json_elems(rs, 1) + seq![0x2Cu8] + json_record(
            rs.columns,
            rs.rows[1],
        ));
        assert(json_elems(tl, 1) == json_record(rs.columns, rs.rows[1]));
        assert(json_elems(rs, 1) + seq![0x2Cu8] + json_record(rs.columns, rs.rows[1]) =~= item0
            + seq![0x2Cu8] + json_elems(tl, 1));
    } else {
        lemma_json_elems_cons(rs, n - 1);
        assert(tl.rows[n - 2] == rs.rows[n - 1]);
        assert(json_elems(rs, n) == json_elems(rs, n - 1) + seq![0x2Cu8] + json_record(
            rs.columns,
            rs.rows[n - 1],
        ));
        assert(json_elems(tl, n - 1) == json_elems(tl, n - 2) + seq![0x2Cu8] + json_record(
            tl.columns,
            tl.rows[n - 2],
        ));
        assert(item0 + seq![0x2Cu8] + json_elems(tl, n - 2) + seq![0x2Cu8] + json_record(
            rs.columns,
            rs.rows[n - 1],
        ) =~= item0 + seq![0x2Cu8] + json_elems(tl, n - 1));
    }
}

proof fn lemma_parse_elems_json(rs: RecordSetView, n: int, rest: Seq<u8>)
    requires
        1 <= n <= rs.rows.len(),
        forall|i: int| 0 <= i < rs.rows.len() ==> (#[trigger] rs.rows[i]).len()
            == rs.columns.len(),
    ensures
        parse_array_elems(json_elems(rs, n) + seq![0x5Du8] + rest) == Some(
            (Seq::new(n as nat, |i: int| (rs.columns, rs.rows[i])), rest),
        ),
    decreases n,
{
    let t = json_elems(rs, n) + seq![0x5Du8] + rest;
    if n == 1 {
        let r1 = seq![0x5Du8] + rest;
        assert(t =~= json_record(rs.columns, rs.rows[0]) + r1);
        lemma_parse_object_json(rs.columns, rs.rows[0], r1);
        assert(parse_object(t) == Some((rs.columns, rs.rows[0], r1)));
        assert(r1[0] == 0x5D);
        assert(r1.drop_first() =~= rest);
        assert(seq![(rs.columns, rs.rows[0])] =~= Seq::new(
            1nat,
            |i: int| (rs.columns, rs.rows[i]),
        ));
    } else {
        lemma_json_elems_cons(rs, n);
        let tl = RecordSetView { columns: rs.columns, rows: rs.rows.drop_first() };
        let elems_rest = json_elems(tl, n - 1) + seq![0x5Du8] + rest;
        let r1 = seq![0x2Cu8] + elems_rest;
        assert(t =~= json_record(rs.columns, rs.rows[0]) + r1);
        lemma_parse_object_json(rs.columns, rs.rows[0], r1);
        assert(parse_object(t) == Some((rs.columns, rs.rows[0], r1)));
        assert(r1[0] == 0x2C);
        assert(r1[0] != 0x5D);
        assert(json_record(rs.columns, rs.rows[0]).len() >= 2);
        assert(r1.len() < t.len());
        assert(r1.drop_first() =~= elems_rest);
        lemma_parse_elems_json(tl, n - 1, rest);
        assert(parse_array_elems(elems_rest) == Some(
            (Seq::new((n - 1) as nat, |i: int| (tl.columns, tl.rows[i])), rest),
        ));
        assert(seq![(rs.columns, rs.rows[0])] + Seq::new(
            (n - 1) as nat,
            |i: int| (tl.columns, tl.rows[i]),
        ) =~= Seq::new(n as nat, |i: int| (rs.columns, rs.rows[i])));
    }
}

/// Round trip: reading a serialized record set back yields exactly one
/// object per record, in record order, each holding the set's columns
/// as keys and that record's cells as values — nothing is lost,
/// reordered or changed by serialization.
pub proof fn lemma_parse_recordset(rs: RecordSetView)
    requires
        forall|i: int| 0 <= i < rs.rows.len() ==> (#[trigger] rs.rows[i]).len()
            == rs.columns.len(),
    ensures
        parse_records(json_recordset(rs)) == Some(
            Seq::new(rs.rows.len(), |i: int| (rs.columns, rs.rows[i])),
        ),
{
    let t = json_recordset(rs);
    let n = rs.rows.len() as int;
    if n == 0 {
        assert(json_elems(rs, 0) =~= Seq::<u8>::empty());
        assert(t =~= seq![0x5Bu8, 0x5Du8]);
        assert(t.len() == 2 && t[0] == 0x5B && t[1] == 0x5D);
        assert(Seq::new(0nat, |i: int| (rs.columns, rs.rows[i])) =~= Seq::<
            (Seq<Seq<u8>>, Seq<Seq<u8>>),
        >::empty());
    } else {
        let inner = json_elems(rs, n) + seq![0x5Du8] + Seq::<u8>::empty();
        assert(t =~= seq![0x5Bu8] + inner);
        assert(t[0] == 0x5B);
        lemma_parse_elems_json(rs, n, Seq::<u8>::empty());
        assert(t.drop_first() =~= inner);
        assert(json_elems(rs, n).len() >= 2) by {
            if n == 1 {
                assert(json_elems(rs, 1) == json_record(rs.columns, rs.rows[0]));
            } else {
                lemma_json_elems_cons(rs, n);
            }
        }
        assert(t.len() != 2);
    }
}

/// Appends the escaped form of `s` to `out`.
fn push_escaped(out: &mut Vec<u8>, s: &Vec<u8>)
    ensures
        final(out)@ == old(out)@ + escape(s@),
{
    let n: usize = s.len();
    let mut i: usize = 0;
    proof {
        assert(s@.subrange(0, 0) =~= Seq::<u8>::empty());
    }
    while i < n
        invariant
            0 <= i <= n,
            n == s@.len(),
            out@ == old(out)@ + escape(s@.subrange(0, i as int)),
        decreases n - i,
    {
        let b = s[i];
        if b == 0x22 || b == 0x5C {
            out.push(0x5C);
            out.push(b);
        } else if b < 0x20 {
            out.push(0x5C);
            out.push(0x75);
            out.push(0x30);
            out.push(0x30);
            let hi: u8 = b / 16;
            let lo: u8 = b % 16;
            out.push(
                if hi < 10 {
                    0x30 + hi
                } else {
                    0x57 + hi
                },
            );
            out.push(
                if lo < 10 {
                    0x30 + lo
                } else {
                    0x57 + lo
                },
            );
        } else {
            out.push(b);
        }
        proof {
            lemma_prefix_snoc(s@, i as int);
            assert(escape(s@.subrange(0, i as int + 1)) == escape(s@.subrange(0, i as int))
                + escape_byte(s@[i as int]));
            assert(out@ =~= old(out)@ + escape(s@.subrange(0, i as int + 1)));
        }
        i = i + 1;
    }
    proof {
        assert(s@.subrange(0, n as int) =~= s@);
    }
}

/// Appends the JSON string literal for `s` to `out`.
pub(crate) fn push_json_string(out: &mut Vec<u8>, s: &Vec<u8>)
    ensures
        final(out)@ == old(out)@ + json_string(s@),
{
    out.push(0x22);
    push_escaped(out, s);
    out.push(0x22);
    proof {
        assert(out@ =~= old(out)@ + json_string(s@));
    }
}

/// Appends the JSON object for one record to `out`.
fn push_record(out: &mut Vec<u8>, rec: &Record)
    requires
        rec.wf(),
    ensures
        final(out)@ == old(out)@ + json_record(rec.columns_view(), rec.values_view()),
{
    let n: usize = rec.columns.len();
    out.push(0x7B);
    proof {
        assert(out@ =~= old(out)@ + seq![0x7Bu8] + json_members(
            rec.columns_view(),
            rec.values_view(),
            0,
        ));
    }
    let mut i: usize = 0;
    while i < n
        invariant
            0 <= i <= n,
            rec.wf(),
            n == rec.columns@.len(),
            out@ == old(out)@ + seq![0x7Bu8] + json_members(
                rec.columns_view(),
                rec.values_view(),
                i as int,
            ),
        decreases n - i,
    {
        if i > 0 {
            out.push(0x2C);
        }
        push_json_string(out, &rec.columns[i]);
        out.push(0x3A);
        push_json_string(out, &rec.values[i]);
        proof {
            assert(rec.columns_view()[i as int] == rec.columns@[i as int]@);
            assert(rec.values_view()[i as int] == rec.values@[i as int]@);
            if i == 0 {
                assert(json_members(rec.columns_view(), rec.values_view(), 1) == json_string(
                    rec.columns_view()[0],
                ) + seq![0x3Au8] + json_string(rec.values_view()[0]));
            }
            assert(out@ =~= old(out)@ + seq![0x7Bu8] + json_members(
                rec.columns_view(),
                rec.values_view(),
                i as int + 1,
            ));
        }
        i = i + 1;
    }
    out.push(0x7D);
    proof {
        assert(out@ =~= old(out)@ + json_record(rec.columns_view(), rec.values_view()));
    }
}

/// Serializes a record set as a JSON array of objects, exactly as
/// `json_recordset` says. An empty record set becomes `[]`.
pub fn to_json(rs: &RecordSet) -> (r: Vec<u8>)
    requires
        rs.wf(),
    ensures
        r@ == json_recordset(rs@),
{
    let n: usize = rs.records.len();
    let mut out: Vec<u8> = Vec::new();
    out.push(0x5B);
    proof {
        assert(out@ =~= seq![0x5Bu8] + json_elems(rs@, 0));
    }
    let mut i: usize = 0;
    while i < n
        invariant
            0 <= i <= n,
            rs.wf(),
            n == rs.records@.len(),
            out@ == seq![0x5Bu8] + json_elems(rs@, i as int),
        decreases n - i,
    {
        if i > 0 {
            out.push(0x2C);
        }
        push_record(&mut out, &rs.records[i]);
        proof {
            assert(rs.records@[i as int].columns_view() == rs@.columns);
            assert(rs.records@[i as int].values_view() == rs@.rows[i as int]);
            if i == 0 {
                assert(json_elems(rs@, 1) == json_record(rs@.columns, rs@.rows[0]));
            }
            assert(out@ =~= seq![0x5Bu8] + json_elems(rs@, i as int + 1));
        }
        i = i + 1;
    }
    out.push(0x5D);
    proof {
        assert(out@ =~= json_recordset(rs@));
    }
    out
}

} // verus!
