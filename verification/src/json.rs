//! The wire format of responses: JSON encoding of todo items, of item
//! collections, and of error bodies, specified byte for byte.
use vstd::prelude::*;

use crate::Todo;

verus! {

// ---------------------------------------------------------------------------
// Decimal rendering of identifiers
// ---------------------------------------------------------------------------
/// The decimal digits of `n`, most significant first.
pub open spec fn dec_digits(n: nat) -> Seq<u8>
    decreases n,
{
    if n < 10 {
        seq![(48 + n) as u8]
    } else {
        dec_digits(n / 10).push((48 + n % 10) as u8)
    }
}

/// The decimal rendering of `i`, with a leading minus sign when negative.
pub open spec fn int_digits(i: int) -> Seq<u8> {
    if i < 0 {
        seq![45u8] + dec_digits((-i) as nat)
    } else {
        dec_digits(i as nat)
    }
}

fn push_u32_digits(n: u32, out: &mut Vec<u8>)
    ensures
        final(out)@ == old(out)@ + dec_digits(n as nat),
    decreases n,
{
    if n < 10 {
        out.push(48 + (n as u8));
        proof {
            assert(out@ =~= old(out)@ + dec_digits(n as nat));
        }
    } else {
        push_u32_digits(n / 10, out);
        out.push(48 + ((n % 10) as u8));
        proof {
            assert(out@ =~= old(out)@ + dec_digits(n as nat));
        }
    }
}

/// Appends the decimal rendering of `i`.
pub fn push_i32_digits(i: i32, out: &mut Vec<u8>)
    ensures
        final(out)@ == old(out)@ + int_digits(i as int),
{
    if i < 0 {
        out.push(45);
        let wide: i64 = i as i64;
        let mag: u32 = (-wide) as u32;
        proof {
            assert(mag as nat == (-(i as int)) as nat);
        }
        push_u32_digits(mag, out);
        proof {
            assert(out@ =~= old(out)@ + int_digits(i as int));
        }
    } else {
        push_u32_digits(i as u32, out);
        proof {
            assert(out@ =~= old(out)@ + int_digits(i as int));
        }
    }
}

// ---------------------------------------------------------------------------
// JSON strings
// ---------------------------------------------------------------------------
/// The lower-case hexadecimal digit for `n`, for `n < 16`.
pub open spec fn hex_digit(n: u8) -> u8 {
    if n < 10 {
        (48 + n) as u8
    } else {
        (87 + n) as u8
    }
}

/// How one byte of a string appears inside a JSON string literal: the
/// quote, the backslash and the named control characters get two-byte
/// escapes, other control bytes a `\u00XX` escape, everything else
/// passes through unchanged.
pub open spec fn escape_byte(b: u8) -> Seq<u8> {
    if b == 34 {
        seq![92u8, 34u8]
    } else if b == 92 {
        seq![92u8, 92u8]
    } else if b == 10 {
        seq![92u8, 110u8]
    } else if b == 13 {
        seq![92u8, 114u8]
    } else if b == 9 {
        seq![92u8, 116u8]
    } else if b == 8 {
        seq![92u8, 98u8]
    } else if b == 12 {
        seq![92u8, 102u8]
    } else if b < 32 {
        seq![92u8, 117u8, 48u8, 48u8, hex_digit(b / 16), hex_digit(b % 16)]
    } else {
        seq![b]
    }
}

/// The escaped form of a whole string body.
pub open spec fn escape_bytes(s: Seq<u8>) -> Seq<u8>
    decreases s.len(),
{
    if s.len() == 0 {
        Seq::empty()
    } else {
        escape_bytes(s.drop_last()) + escape_byte(s.last())
    }
}

/// A JSON string literal: the escaped body between double quotes.
pub open spec fn json_string(s: Seq<u8>) -> Seq<u8> {
    seq![34u8] + escape_bytes(s) + seq![34u8]
}

fn push_escape_byte(b: u8, out: &mut Vec<u8>)
    ensures
        final(out)@ == old(out)@ + escape_byte(b),
{
    if b == 34 {
        out.push(92);
        out.push(34);
    } else if b == 92 {
        out.push(92);
        out.push(92);
    } else if b == 10 {
        out.push(92);
        out.push(110);
    } else if b == 13 {
        out.push(92);
        out.push(114);
    } else if b == 9 {
        out.push(92);
        out.push(116);
    } else if b == 8 {
        out.push(92);
        out.push(98);
    } else if b == 12 {
        out.push(92);
        out.push(102);
    } else if b < 32 {
        out.push(92);
        out.push(117);
        out.push(48);
        out.push(48);
        let hi: u8 = b / 16;
        let lo: u8 = b % 16;
        out.push(if hi < 10 { 48 + hi } else { 87 + hi });
        out.push(if lo < 10 { 48 + lo } else { 87 + lo });
    } else {
        out.push(b);
    }
    proof {
        assert(out@ =~= old(out)@ + escape_byte(b));
    }
}

/// Appends the JSON string literal for `s`.
pub fn push_json_string(s: &[u8], out: &mut Vec<u8>)
    ensures
        final(out)@ == old(out)@ + json_string(s@),
{
    out.push(34);
    let mut i: usize = 0;
    while i < s.len()
        invariant
            i <= s@.len(),
            out@ == old(out)@ + seq![34u8] + escape_bytes(s@.subrange(0, i as int)),
        decreases s@.len() - i,
    {
        push_escape_byte(s[i], out);
        proof {
            assert(s@.subrange(0, i + 1 as int).drop_last() =~= s@.subrange(0, i as int));
            assert(s@.subrange(0, i + 1 as int).last() == s@[i as int]);
            assert(out@ =~= old(out)@ + seq![34u8] + escape_bytes(s@.subrange(0, i + 1 as int)));
        }
        i += 1;
    }
    out.push(34);
    proof {
        assert(s@.subrange(0, s@.len() as int) =~= s@);
        assert(out@ =~= old(out)@ + json_string(s@));
    }
}

// ---------------------------------------------------------------------------
// Objects and arrays
// ---------------------------------------------------------------------------
/// `true` or `false` as bytes.
pub open spec fn bool_bytes(b: bool) -> Seq<u8> {
    if b {
        seq![116u8, 114u8, 117u8, 101u8]
    } else {
        seq![102u8, 97u8, 108u8, 115u8, 101u8]
    }
}

/// The JSON object for one todo item:
/// `{"id":<id>,"title":<title>,"completed":<completed>}`.
pub open spec fn todo_json(t: Todo) -> Seq<u8> {
    seq![123u8, 34u8, 105u8, 100u8, 34u8, 58u8] + int_digits(t.id as int) + seq![
        44u8,
        34u8,
        116u8,
        105u8,
        116u8,
        108u8,
        101u8,
        34u8,
        58u8,
    ] + json_string(t.title@) + seq![
        44u8,
        34u8,
        99u8,
        111u8,
        109u8,
        112u8,
        108u8,
        101u8,
        116u8,
        101u8,
        100u8,
        34u8,
        58u8,
    ] + bool_bytes(t.completed) + seq![125u8]
}

fn push_bool(b: bool, out: &mut Vec<u8>)
    ensures
        final(out)@ == old(out)@ + bool_bytes(b),
{
    if b {
        out.push(116);
        out.push(114);
        out.push(117);
        out.push(101);
    } else {
        out.push(102);
        out.push(97);
        out.push(108);
        out.push(115);
        out.push(101);
    }
    proof {
        assert(out@ =~= old(out)@ + bool_bytes(b));
    }
}

fn push_todo_json(t: &Todo, out: &mut Vec<u8>)
    ensures
        final(out)@ == old(out)@ + todo_json(*t),
{
    out.push(123);
    out.push(34);
    out.push(105);
    out.push(100);
    out.push(34);
    out.push(58);
    push_i32_digits(t.id, out);
    out.push(44);
    out.push(34);
    out.push(116);
    out.push(105);
    out.push(116);
    out.push(108);
    out.push(101);
    out.push(34);
    out.push(58);
    push_json_string(t.title.as_slice(), out);
    out.push(44);
    out.push(34);
    out.push(99);
    out.push(111);
    out.push(109);
    out.push(112);
    out.push(108);
    out.push(101);
    out.push(116);
    out.push(101);
    out.push(100);
    out.push(34);
    out.push(58);
    push_bool(t.completed, out);
    out.push(125);
    proof {
        assert(out@ =~= old(out)@ + todo_json(*t));
    }
}

/// Encodes one todo item as its JSON object.
pub fn encode_todo(t: &Todo) -> (r: Vec<u8>)
    ensures
        r@ == todo_json(*t),
{
    let mut out: Vec<u8> = Vec::new();
    push_todo_json(t, &mut out);
    proof {
        assert(out@ =~= todo_json(*t));
    }
    out
}

/// The comma-separated object list inside the JSON array of todo items.
pub open spec fn todos_json_items(ts: Seq<Todo>) -> Seq<u8>
    decreases ts.len(),
{
    if ts.len() == 0 {
        Seq::empty()
    } else if ts.len() == 1 {
        todo_json(ts[0])
    } else {
        todos_json_items(ts.drop_last()) + seq![44u8] + todo_json(ts.last())
    }
}

/// The JSON array of todo items, in the given order.
pub open spec fn todos_json(ts: Seq<Todo>) -> Seq<u8> {
    seq![91u8] + todos_json_items(ts) + seq![93u8]
}

/// Encodes a collection of todo items as a JSON array, keeping their order.
pub fn encode_todos(ts: &Vec<Todo>) -> (r: Vec<u8>)
    ensures
        r@ == todos_json(ts@),
{
    let mut out: Vec<u8> = Vec::new();
    out.push(91);
    let mut i: usize = 0;
    while i < ts.len()
        invariant
            i <= ts@.len(),
            out@ == seq![91u8] + todos_json_items(ts@.subrange(0, i as int)),
        decreases ts@.len() - i,
    {
        if i > 0 {
            out.push(44);
        }
        push_todo_json(&ts[i], &mut out);
        proof {
            assert(ts@.subrange(0, i + 1 as int).drop_last() =~= ts@.subrange(0, i as int));
            assert(ts@.subrange(0, i + 1 as int).last() == ts@[i as int]);
            assert(out@ =~= seq![91u8] + todos_json_items(ts@.subrange(0, i + 1 as int)));
        }
        i += 1;
    }
    out.push(93);
    proof {
        assert(ts@.subrange(0, ts@.len() as int) =~= ts@);
        assert(out@ =~= todos_json(ts@));
    }
    out
}

/// The JSON error body `{"error":<message>}`.
pub open spec fn error_json(msg: Seq<u8>) -> Seq<u8> {
    seq![123u8, 34u8, 101u8, 114u8, 114u8, 111u8, 114u8, 34u8, 58u8] + json_string(msg) + seq![
        125u8,
    ]
}

/// Encodes a failure message as the JSON error body.
pub fn encode_error(msg: &[u8]) -> (r: Vec<u8>)
    ensures
        r@ == error_json(msg@),
{
    let mut out: Vec<u8> = Vec::new();
    out.push(123);
    out.push(34);
    out.push(101);
    out.push(114);
    out.push(114);
    out.push(111);
    out.push(114);
    out.push(34);
    out.push(58);
    push_json_string(msg, &mut out);
    out.push(125);
    proof {
        assert(out@ =~= error_json(msg@));
    }
    out
}

} // verus!
