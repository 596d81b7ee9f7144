//! Decoding of the creation payload: a JSON object with exactly a
//! `title` string and a `completed` boolean, in either order. The
//! grammar is stated by spec functions that consume a byte sequence
//! from the front and hand back the decoded value with the unread rest.
use vstd::prelude::*;

use crate::CreateTodo;

verus! {

/// JSON insignificant whitespace.
pub open spec fn is_ws(b: u8) -> bool {
    b == 32 || b == 9 || b == 10 || b == 13
}

/// `s` with its leading whitespace removed.
pub open spec fn spec_trim(s: Seq<u8>) -> Seq<u8>
    decreases s.len(),
{
    if s.len() > 0 && is_ws(s[0]) {
        spec_trim(s.drop_first())
    } else {
        s
    }
}

/// The byte named by a single-character escape, if the character names one.
pub open spec fn unescape(b: u8) -> Option<u8> {
    if b == 34 {
        Some(34u8)
    } else if b == 92 {
        Some(92u8)
    } else if b == 47 {
        Some(47u8)
    } else if b == 110 {
        Some(10u8)
    } else if b == 116 {
        Some(9u8)
    } else if b == 114 {
        Some(13u8)
    } else if b == 98 {
        Some(8u8)
    } else if b == 102 {
        Some(12u8)
    } else {
        None
    }
}

/// Whether `b` is a hexadecimal digit, either case.
pub open spec fn is_hex(b: u8) -> bool {
    (48 <= b && b <= 57) || (97 <= b && b <= 102) || (65 <= b && b <= 70)
}

/// The value of the hexadecimal digit `b`.
pub open spec fn hex_val(b: u8) -> u8 {
    if 48 <= b && b <= 57 {
        (b - 48) as u8
    } else if 97 <= b && b <= 102 {
        (b - 87) as u8
    } else if 65 <= b && b <= 70 {
        (b - 55) as u8
    } else {
        0u8
    }
}

/// Whether `b` is a UTF-8 continuation byte.
pub open spec fn is_cont(b: u8) -> bool {
    128 <= b && b <= 191
}

/// The UTF-8 encoding of the scalar value `cp`.
pub open spec fn utf8_enc(cp: int) -> Seq<u8> {
    if cp < 0x80 {
        seq![cp as u8]
    } else if cp < 0x800 {
        seq![(192 + cp / 64) as u8, (128 + cp % 64) as u8]
    } else if cp < 0x10000 {
        seq![(224 + cp / 4096) as u8, (128 + (cp / 64) % 64) as u8, (128 + cp % 64) as u8]
    } else {
        seq![
            (240 + cp / 262144) as u8,
            (128 + (cp / 4096) % 64) as u8,
            (128 + (cp / 64) % 64) as u8,
            (128 + cp % 64) as u8,
        ]
    }
}

/// The value of the four hexadecimal digits of `s` starting at `i`.
pub open spec fn hex_quad(s: Seq<u8>, i: int) -> int {
    hex_val(s[i]) * 4096 + hex_val(s[i + 1]) * 256 + hex_val(s[i + 2]) * 16 + hex_val(s[i + 3])
}

/// Whether `s` is well-formed UTF-8: every byte sequence is a shortest
/// encoding of a scalar value, surrogates excluded.
pub open spec fn valid_utf8(s: Seq<u8>) -> bool
    decreases s.len(),
{
    if s.len() == 0 {
        true
    } else if s[0] < 128 {
        valid_utf8(s.drop_first())
    } else if 194 <= s[0] && s[0] <= 223 {
        s.len() >= 2 && is_cont(s[1]) && valid_utf8(s.skip(2))
    } else if s[0] == 224 {
        s.len() >= 3 && 160 <= s[1] && s[1] <= 191 && is_cont(s[2]) && valid_utf8(s.skip(3))
    } else if (225 <= s[0] && s[0] <= 236) || s[0] == 238 || s[0] == 239 {
        s.len() >= 3 && is_cont(s[1]) && is_cont(s[2]) && valid_utf8(s.skip(3))
    } else if s[0] == 237 {
        s.len() >= 3 && 128 <= s[1] && s[1] <= 159 && is_cont(s[2]) && valid_utf8(s.skip(3))
    } else if s[0] == 240 {
        s.len() >= 4 && 144 <= s[1] && s[1] <= 191 && is_cont(s[2]) && is_cont(s[3]) && valid_utf8(
            s.skip(4),
        )
    } else if 241 <= s[0] && s[0] <= 243 {
        s.len() >= 4 && is_cont(s[1]) && is_cont(s[2]) && is_cont(s[3]) && valid_utf8(s.skip(4))
    } else if s[0] == 244 {
        s.len() >= 4 && 128 <= s[1] && s[1] <= 143 && is_cont(s[2]) && is_cont(s[3]) && valid_utf8(
            s.skip(4),
        )
    } else {
        false
    }
}

/// The body of a JSON string literal, entered just after the opening
/// quote. Raw bytes must be well-formed UTF-8 and pass through
/// unchanged; the named escapes decode to one byte; `\uXXXX` decodes
/// to the scalar's UTF-8 bytes, a surrogate pair to one four-byte
/// scalar, a lone surrogate being refused; control bytes must be
/// escaped; the closing quote ends the literal. Yields the decoded
/// bytes and the rest after the quote.
pub open spec fn spec_str_body(s: Seq<u8>) -> Option<(Seq<u8>, Seq<u8>)>
    decreases s.len(),
{
    if s.len() == 0 {
        None
    } else if s[0] == 34 {
        Some((Seq::empty(), s.drop_first()))
    } else if s[0] == 92 {
        if s.len() >= 2 && s[1] == 117 {
            if s.len() >= 6 && is_hex(s[2]) && is_hex(s[3]) && is_hex(s[4]) && is_hex(s[5]) {
                let cp = hex_quad(s, 2);
                if 0xD800 <= cp && cp <= 0xDBFF {
                    if s.len() >= 12 && s[6] == 92 && s[7] == 117 && is_hex(s[8]) && is_hex(s[9])
                        && is_hex(s[10]) && is_hex(s[11]) {
                        let cp2 = hex_quad(s, 8);
                        if 0xDC00 <= cp2 && cp2 <= 0xDFFF {
                            match spec_str_body(s.skip(12)) {
                                Some((d, r)) => Some(
                                    (
                                        utf8_enc(
                                            0x10000 + (cp - 0xD800) * 0x400 + (cp2 - 0xDC00),
                                        ) + d,
                                        r,
                                    ),
                                ),
                                None => None,
                            }
                        } else {
                            None
                        }
                    } else {
                        None
                    }
                } else if 0xDC00 <= cp && cp <= 0xDFFF {
                    None
                } else {
                    match spec_str_body(s.skip(6)) {
                        Some((d, r)) => Some((utf8_enc(cp) + d, r)),
                        None => None,
                    }
                }
            } else {
                None
            }
        } else if s.len() >= 2 {
            match unescape(s[1]) {
                Some(b) => match spec_str_body(s.skip(2)) {
                    Some((d, r)) => Some((seq![b] + d, r)),
                    None => None,
                },
                None => None,
            }
        } else {
            None
        }
    } else if s[0] < 32 {
        None
    } else if s[0] < 128 {
        match spec_str_body(s.drop_first()) {
            Some((d, r)) => Some((seq![s[0]] + d, r)),
            None => None,
        }
    } else if 194 <= s[0] && s[0] <= 223 {
        if s.len() >= 2 && is_cont(s[1]) {
            match spec_str_body(s.skip(2)) {
                Some((d, r)) => Some((s.subrange(0, 2) + d, r)),
                None => None,
            }
        } else {
            None
        }
    } else if s[0] == 224 {
        if s.len() >= 3 && 160 <= s[1] && s[1] <= 191 && is_cont(s[2]) {
            match spec_str_body(s.skip(3)) {
                Some((d, r)) => Some((s.subrange(0, 3) + d, r)),
                None => None,
            }
        } else {
            None
        }
    } else if (225 <= s[0] && s[0] <= 236) || s[0] == 238 || s[0] == 239 {
        if s.len() >= 3 && is_cont(s[1]) && is_cont(s[2]) {
            match spec_str_body(s.skip(3)) {
                Some((d, r)) => Some((s.subrange(0, 3) + d, r)),
                None => None,
            }
        } else {
            None
        }
    } else if s[0] == 237 {
        if s.len() >= 3 && 128 <= s[1] && s[1] <= 159 && is_cont(s[2]) {
            match spec_str_body(s.skip(3)) {
                Some((d, r)) => Some((s.subrange(0, 3) + d, r)),
                None => None,
            }
        } else {
            None
        }
    } else if s[0] == 240 {
        if s.len() >= 4 && 144 <= s[1] && s[1] <= 191 && is_cont(s[2]) && is_cont(s[3]) {
            match spec_str_body(s.skip(4)) {
                Some((d, r)) => Some((s.subrange(0, 4) + d, r)),
                None => None,
            }
        } else {
            None
        }
    } else if 241 <= s[0] && s[0] <= 243 {
        if s.len() >= 4 && is_cont(s[1]) && is_cont(s[2]) && is_cont(s[3]) {
            match spec_str_body(s.skip(4)) {
                Some((d, r)) => Some((s.subrange(0, 4) + d, r)),
                None => None,
            }
        } else {
            None
        }
    } else if s[0] == 244 {
        if s.len() >= 4 && 128 <= s[1] && s[1] <= 143 && is_cont(s[2]) && is_cont(s[3]) {
            match spec_str_body(s.skip(4)) {
                Some((d, r)) => Some((s.subrange(0, 4) + d, r)),
                None => None,
            }
        } else {
            None
        }
    } else {
        None
    }
}

/// A JSON string literal: an opening quote followed by a string body.
pub open spec fn spec_string(s: Seq<u8>) -> Option<(Seq<u8>, Seq<u8>)> {
    if s.len() > 0 && s[0] == 34 {
        spec_str_body(s.drop_first())
    } else {
        None
    }
}

/// A JSON boolean literal, `true` or `false`.
pub open spec fn spec_bool(s: Seq<u8>) -> Option<(bool, Seq<u8>)> {
    if s.len() >= 4 && s[0] == 116 && s[1] == 114 && s[2] == 117 && s[3] == 101 {
        Some((true, s.skip(4)))
    } else if s.len() >= 5 && s[0] == 102 && s[1] == 97 && s[2] == 108 && s[3] == 115 && s[4]
        == 101 {
        Some((false, s.skip(5)))
    } else {
        None
    }
}

/// The member name `title` as bytes.
pub open spec fn title_key() -> Seq<u8> {
    seq![116u8, 105u8, 116u8, 108u8, 101u8]
}

/// The member name `completed` as bytes.
pub open spec fn completed_key() -> Seq<u8> {
    seq![99u8, 111u8, 109u8, 112u8, 108u8, 101u8, 116u8, 101u8, 100u8]
}

/// The object member `"title" : <string>`, entered at its key.
pub open spec fn spec_member_title(s: Seq<u8>) -> Option<(Seq<u8>, Seq<u8>)> {
    match spec_string(s) {
        Some((k, r)) => if k == title_key() {
            let r1 = spec_trim(r);
            if r1.len() > 0 && r1[0] == 58 {
                spec_string(spec_trim(r1.drop_first()))
            } else {
                None
            }
        } else {
            None
        },
        None => None,
    }
}

/// The object member `"completed" : <bool>`, entered at its key.
pub open spec fn spec_member_completed(s: Seq<u8>) -> Option<(bool, Seq<u8>)> {
    match spec_string(s) {
        Some((k, r)) => if k == completed_key() {
            let r1 = spec_trim(r);
            if r1.len() > 0 && r1[0] == 58 {
                spec_bool(spec_trim(r1.drop_first()))
            } else {
                None
            }
        } else {
            None
        },
        None => None,
    }
}

/// A comma between members, with surrounding whitespace; yields the
/// rest entered at the next member's key.
pub open spec fn spec_comma(s: Seq<u8>) -> Option<Seq<u8>> {
    let r = spec_trim(s);
    if r.len() > 0 && r[0] == 44 {
        Some(spec_trim(r.drop_first()))
    } else {
        None
    }
}

/// The closing brace followed by nothing but whitespace.
pub open spec fn spec_close(s: Seq<u8>) -> bool {
    let r = spec_trim(s);
    r.len() > 0 && r[0] == 125 && spec_trim(r.drop_first()).len() == 0
}

/// The whole creation payload: an object holding exactly one `title`
/// string member and one `completed` boolean member, in either order,
/// and nothing else.
pub open spec fn spec_create(s: Seq<u8>) -> Option<(Seq<u8>, bool)> {
    let r0 = spec_trim(s);
    if r0.len() > 0 && r0[0] == 123 {
        let r1 = spec_trim(r0.drop_first());
        match spec_member_title(r1) {
            Some((t, j)) => match spec_comma(j) {
                Some(j2) => match spec_member_completed(j2) {
                    Some((c, k)) => if spec_close(k) {
                        Some((t, c))
                    } else {
                        None
                    },
                    None => None,
                },
                None => None,
            },
            None => match spec_member_completed(r1) {
                Some((c, j)) => match spec_comma(j) {
                    Some(j2) => match spec_member_title(j2) {
                        Some((t, k)) => if spec_close(k) {
                            Some((t, c))
                        } else {
                            None
                        },
                        None => None,
                    },
                    None => None,
                },
                None => None,
            },
        }
    } else {
        None
    }
}

// ---------------------------------------------------------------------------
// The executable parser
// ---------------------------------------------------------------------------
fn trim_ws(s: &[u8], i: usize) -> (j: usize)
    requires
        i <= s@.len(),
    ensures
        i <= j <= s@.len(),
        s@.skip(j as int) == spec_trim(s@.skip(i as int)),
{
    let mut j: usize = i;
    while j < s.len() && (s[j] == 32 || s[j] == 9 || s[j] == 10 || s[j] == 13)
        invariant
            i <= j <= s@.len(),
            spec_trim(s@.skip(i as int)) == spec_trim(s@.skip(j as int)),
        decreases s@.len() - j,
    {
        proof {
            assert(s@.skip(j as int)[0] == s@[j as int]);
            assert(s@.skip(j as int).drop_first() =~= s@.skip(j + 1 as int));
        }
        j += 1;
    }
    proof {
        if j < s@.len() {
            assert(s@.skip(j as int)[0] == s@[j as int]);
        }
        assert(spec_trim(s@.skip(j as int)) == s@.skip(j as int));
    }
    j
}

fn hex_val_of(b: u8) -> (r: Option<u8>)
    ensures
        is_hex(b) ==> r == Some(hex_val(b)),
        !is_hex(b) ==> r is None,
        r matches Some(v) ==> v < 16,
{
    if 48 <= b && b <= 57 {
        Some(b - 48)
    } else if 97 <= b && b <= 102 {
        Some(b - 87)
    } else if 65 <= b && b <= 70 {
        Some(b - 55)
    } else {
        None
    }
}

fn unescape_of(b: u8) -> (r: Option<u8>)
    ensures
        r == unescape(b),
{
    if b == 34 {
        Some(34)
    } else if b == 92 {
        Some(92)
    } else if b == 47 {
        Some(47)
    } else if b == 110 {
        Some(10)
    } else if b == 116 {
        Some(9)
    } else if b == 114 {
        Some(13)
    } else if b == 98 {
        Some(8)
    } else if b == 102 {
        Some(12)
    } else {
        None
    }
}

fn is_cont_byte(b: u8) -> (r: bool)
    ensures
        r == is_cont(b),
{
    128 <= b && b <= 191
}

fn utf8_encode(cp: u32) -> (r: Vec<u8>)
    requires
        cp <= 0x10FFFF,
    ensures
        r@ == utf8_enc(cp as int),
{
    let mut r: Vec<u8> = Vec::new();
    if cp < 0x80 {
        r.push(cp as u8);
    } else if cp < 0x800 {
        r.push((192 + cp / 64) as u8);
        r.push((128 + cp % 64) as u8);
    } else if cp < 0x10000 {
        r.push((224 + cp / 4096) as u8);
        r.push((128 + (cp / 64) % 64) as u8);
        r.push((128 + cp % 64) as u8);
    } else {
        r.push((240 + cp / 262144) as u8);
        r.push((128 + (cp / 4096) % 64) as u8);
        r.push((128 + (cp / 64) % 64) as u8);
        r.push((128 + cp % 64) as u8);
    }
    proof {
        assert(r@ =~= utf8_enc(cp as int));
    }
    r
}

#[verifier::rlimit(40)]
fn parse_str_body(s: &[u8], i: usize) -> (r: Option<(Vec<u8>, usize)>)
    requires
        i <= s@.len(),
    ensures
        r is None ==> spec_str_body(s@.skip(i as int)) is None,
        r matches Some(p) ==> p.1 <= s@.len() && spec_str_body(s@.skip(i as int)) == Some(
            (p.0@, s@.skip(p.1 as int)),
        ),
    decreases s@.len() - i,
{
    if i >= s.len() {
        return None;
    }
    let b = s[i];
    proof {
        assert(s@.skip(i as int).len() == s@.len() - i);
        assert forall|k: int| 0 <= k < s@.len() - i implies s@.skip(i as int)[k] == s@[i + k] by {}
    }
    if b == 34 {
        proof {
            assert(s@.skip(i as int).drop_first() =~= s@.skip(i + 1 as int));
        }
        Some((Vec::new(), i + 1))
    } else if b == 92 {
        if s.len() - i >= 2 && s[i + 1] == 117 {
            if s.len() - i >= 6 {
                let quad = (
                    hex_val_of(s[i + 2]),
                    hex_val_of(s[i + 3]),
                    hex_val_of(s[i + 4]),
                    hex_val_of(s[i + 5]),
                );
                match quad {
                    (Some(a0), Some(a1), Some(a2), Some(a3)) => {
                        let cp: u32 = (a0 as u32) * 4096 + (a1 as u32) * 256 + (a2 as u32) * 16 + (
                        a3 as u32);
                        proof {
                            assert(cp as int == hex_quad(s@.skip(i as int), 2));
                        }
                        if 0xD800 <= cp && cp <= 0xDBFF {
                            if s.len() - i >= 12 && s[i + 6] == 92 && s[i + 7] == 117 {
                                let quad2 = (
                                    hex_val_of(s[i + 8]),
                                    hex_val_of(s[i + 9]),
                                    hex_val_of(s[i + 10]),
                                    hex_val_of(s[i + 11]),
                                );
                                match quad2 {
                                    (Some(c0), Some(c1), Some(c2), Some(c3)) => {
                                        let cp2: u32 = (c0 as u32) * 4096 + (c1 as u32) * 256 + (
                                        c2 as u32) * 16 + (c3 as u32);
                                        proof {
                                            assert(cp2 as int == hex_quad(s@.skip(i as int), 8));
                                        }
                                        if 0xDC00 <= cp2 && cp2 <= 0xDFFF {
                                            proof {
                                                assert(s@.skip(i as int).skip(12) =~= s@.skip(
                                                    i + 12 as int,
                                                ));
                                            }
                                            match parse_str_body(s, i + 12) {
                                                Some((mut v, j)) => {
                                                    let scalar: u32 = 0x10000 + (cp - 0xD800)
                                                        * 0x400 + (cp2 - 0xDC00);
                                                    let mut e = utf8_encode(scalar);
                                                    let ghost dv = v@;
                                                    e.append(&mut v);
                                                    proof {
                                                        assert(e@ == utf8_enc(scalar as int) + dv);
                                                    }
                                                    Some((e, j))
                                                },
                                                None => None,
                                            }
                                        } else {
                                            None
                                        }
                                    },
                                    _ => None,
                                }
                            } else {
                                None
                            }
                        } else if 0xDC00 <= cp && cp <= 0xDFFF {
                            None
                        } else {
                            proof {
                                assert(s@.skip(i as int).skip(6) =~= s@.skip(i + 6 as int));
                            }
                            match parse_str_body(s, i + 6) {
                                Some((mut v, j)) => {
                                    let mut e = utf8_encode(cp);
                                    let ghost dv = v@;
                                    e.append(&mut v);
                                    proof {
                                        assert(e@ == utf8_enc(cp as int) + dv);
                                    }
                                    Some((e, j))
                                },
                                None => None,
                            }
                        }
                    },
                    _ => None,
                }
            } else {
                None
            }
        } else if s.len() - i >= 2 {
            proof {
                assert(s@.skip(i as int)[1] == s@[i + 1 as int]);
            }
            match unescape_of(s[i + 1]) {
                Some(e) => {
                    proof {
                        assert(s@.skip(i as int).skip(2) =~= s@.skip(i + 2 as int));
                    }
                    match parse_str_body(s, i + 2) {
                        Some((mut v, j)) => {
                            v.insert(0, e);
                            proof {
                                assert(v@ =~= seq![e] + v@.drop_first());
                            }
                            Some((v, j))
                        },
                        None => None,
                    }
                },
                None => None,
            }
        } else {
            None
        }
    } else if b < 32 {
        None
    } else if b < 128 {
        proof {
            assert(s@.skip(i as int).drop_first() =~= s@.skip(i + 1 as int));
        }
        match parse_str_body(s, i + 1) {
            Some((mut v, j)) => {
                v.insert(0, b);
                proof {
                    assert(v@ =~= seq![b] + v@.drop_first());
                }
                Some((v, j))
            },
            None => None,
        }
    } else if 194 <= b && b <= 223 {
        if s.len() - i >= 2 && is_cont_byte(s[i + 1]) {
            proof {
                assert(s@.skip(i as int).skip(2) =~= s@.skip(i + 2 as int));
            }
            match parse_str_body(s, i + 2) {
                Some((mut v, j)) => {
                    let mut e: Vec<u8> = Vec::new();
                    e.push(s[i]);
                    e.push(s[i + 1]);
                    let ghost dv = v@;
                    e.append(&mut v);
                    proof {
                        assert(s@.skip(i as int).subrange(0, 2) =~= seq![
                            s@[i as int],
                            s@[i + 1 as int],
                        ]);
                        assert(e@ =~= s@.skip(i as int).subrange(0, 2) + dv);
                    }
                    Some((e, j))
                },
                None => None,
            }
        } else {
            None
        }
    } else if b == 224 || (225 <= b && b <= 236) || b == 237 || b == 238 || b == 239 {
        let second_ok = if b == 224 {
            s.len() - i >= 2 && 160 <= s[i + 1] && s[i + 1] <= 191
        } else if b == 237 {
            s.len() - i >= 2 && 128 <= s[i + 1] && s[i + 1] <= 159
        } else {
            s.len() - i >= 2 && is_cont_byte(s[i + 1])
        };
        if second_ok && s.len() - i >= 3 && is_cont_byte(s[i + 2]) {
            proof {
                assert(s@.skip(i as int).skip(3) =~= s@.skip(i + 3 as int));
            }
            match parse_str_body(s, i + 3) {
                Some((mut v, j)) => {
                    let mut e: Vec<u8> = Vec::new();
                    e.push(s[i]);
                    e.push(s[i + 1]);
                    e.push(s[i + 2]);
                    let ghost dv = v@;
                    e.append(&mut v);
                    proof {
                        assert(s@.skip(i as int).subrange(0, 3) =~= seq![
                            s@[i as int],
                            s@[i + 1 as int],
                            s@[i + 2 as int],
                        ]);
                        assert(e@ =~= s@.skip(i as int).subrange(0, 3) + dv);
                    }
                    Some((e, j))
                },
                None => None,
            }
        } else {
            None
        }
    } else if 240 <= b && b <= 244 {
        let second_ok = if b == 240 {
            s.len() - i >= 2 && 144 <= s[i + 1] && s[i + 1] <= 191
        } else if b == 244 {
            s.len() - i >= 2 && 128 <= s[i + 1] && s[i + 1] <= 143
        } else {
            s.len() - i >= 2 && is_cont_byte(s[i + 1])
        };
        if second_ok && s.len() - i >= 4 && is_cont_byte(s[i + 2]) && is_cont_byte(s[i + 3]) {
            proof {
                assert(s@.skip(i as int).skip(4) =~= s@.skip(i + 4 as int));
            }
            match parse_str_body(s, i + 4) {
                Some((mut v, j)) => {
                    let mut e: Vec<u8> = Vec::new();
                    e.push(s[i]);
                    e.push(s[i + 1]);
                    e.push(s[i + 2]);
                    e.push(s[i + 3]);
                    let ghost dv = v@;
                    e.append(&mut v);
                    proof {
                        assert(s@.skip(i as int).subrange(0, 4) =~= seq![
                            s@[i as int],
                            s@[i + 1 as int],
                            s@[i + 2 as int],
                            s@[i + 3 as int],
                        ]);
                        assert(e@ =~= s@.skip(i as int).subrange(0, 4) + dv);
                    }
                    Some((e, j))
                },
                None => None,
            }
        } else {
            None
        }
    } else {
        None
    }
}

fn parse_string(s: &[u8], i: usize) -> (r: Option<(Vec<u8>, usize)>)
    requires
        i <= s@.len(),
    ensures
        r is None ==> spec_string(s@.skip(i as int)) is None,
        r matches Some(p) ==> p.1 <= s@.len() && spec_string(s@.skip(i as int)) == Some(
            (p.0@, s@.skip(p.1 as int)),
        ),
{
    if i < s.len() && s[i] == 34 {
        proof {
            assert(s@.skip(i as int)[0] == s@[i as int]);
            assert(s@.skip(i as int).drop_first() =~= s@.skip(i + 1 as int));
        }
        parse_str_body(s, i + 1)
    } else {
        proof {
            if i < s@.len() {
                assert(s@.skip(i as int)[0] == s@[i as int]);
            }
        }
        None
    }
}

fn parse_bool(s: &[u8], i: usize) -> (r: Option<(bool, usize)>)
    requires
        i <= s@.len(),
    ensures
        r is None ==> spec_bool(s@.skip(i as int)) is None,
        r matches Some(p) ==> p.1 <= s@.len() && spec_bool(s@.skip(i as int)) == Some(
            (p.0, s@.skip(p.1 as int)),
        ),
{
    proof {
        assert forall|k: int| 0 <= k < s@.len() - i implies s@.skip(i as int)[k] == s@[i + k] by {}
    }
    if s.len() - i >= 4 && s[i] == 116 && s[i + 1] == 114 && s[i + 2] == 117 && s[i + 3] == 101 {
        proof {
            assert(s@.skip(i as int).skip(4) =~= s@.skip(i + 4 as int));
        }
        Some((true, i + 4))
    } else if s.len() - i >= 5 && s[i] == 102 && s[i + 1] == 97 && s[i + 2] == 108 && s[i + 3]
        == 115 && s[i + 4] == 101 {
        proof {
            assert(s@.skip(i as int).skip(5) =~= s@.skip(i + 5 as int));
        }
        Some((false, i + 5))
    } else {
        None
    }
}

fn is_title_key(k: &Vec<u8>) -> (r: bool)
    ensures
        r == (k@ == title_key()),
{
    let r = k.len() == 5 && k[0] == 116 && k[1] == 105 && k[2] == 116 && k[3] == 108 && k[4] == 101;
    proof {
        if r {
            assert(k@ =~= title_key());
        } else {
            if k@ == title_key() {
                assert(k@.len() == 5);
                assert(k@[0] == 116 && k@[1] == 105 && k@[2] == 116 && k@[3] == 108 && k@[4]
                    == 101);
            }
        }
    }
    r
}

fn is_completed_key(k: &Vec<u8>) -> (r: bool)
    ensures
        r == (k@ == completed_key()),
{
    let r = k.len() == 9 && k[0] == 99 && k[1] == 111 && k[2] == 109 && k[3] == 112 && k[4] == 108
        && k[5] == 101 && k[6] == 116 && k[7] == 101 && k[8] == 100;
    proof {
        if r {
            assert(k@ =~= completed_key());
        } else {
            if k@ == completed_key() {
                assert(k@.len() == 9);
                assert(k@[0] == 99 && k@[1] == 111 && k@[2] == 109 && k@[3] == 112 && k@[4] == 108
                    && k@[5] == 101 && k@[6] == 116 && k@[7] == 101 && k@[8] == 100);
            }
        }
    }
    r
}

fn parse_member_title(s: &[u8], i: usize) -> (r: Option<(Vec<u8>, usize)>)
    requires
        i <= s@.len(),
    ensures
        r is None ==> spec_member_title(s@.skip(i as int)) is None,
        r matches Some(p) ==> p.1 <= s@.len() && spec_member_title(s@.skip(i as int)) == Some(
            (p.0@, s@.skip(p.1 as int)),
        ),
{
    match parse_string(s, i) {
        Some((k, j)) => {
            if is_title_key(&k) {
                let j1 = trim_ws(s, j);
                if j1 < s.len() && s[j1] == 58 {
                    proof {
                        assert(s@.skip(j1 as int)[0] == s@[j1 as int]);
                        assert(s@.skip(j1 as int).drop_first() =~= s@.skip(j1 + 1 as int));
                    }
                    let j2 = trim_ws(s, j1 + 1);
                    parse_string(s, j2)
                } else {
                    proof {
                        if j1 < s@.len() {
                            assert(s@.skip(j1 as int)[0] == s@[j1 as int]);
                        }
                    }
                    None
                }
            } else {
                None
            }
        },
        None => None,
    }
}

fn parse_member_completed(s: &[u8], i: usize) -> (r: Option<(bool, usize)>)
    requires
        i <= s@.len(),
    ensures
        r is None ==> spec_member_completed(s@.skip(i as int)) is None,
        r matches Some(p) ==> p.1 <= s@.len() && spec_member_completed(s@.skip(i as int)) == Some(
            (p.0, s@.skip(p.1 as int)),
        ),
{
    match parse_string(s, i) {
        Some((k, j)) => {
            if is_completed_key(&k) {
                let j1 = trim_ws(s, j);
                if j1 < s.len() && s[j1] == 58 {
                    proof {
                        assert(s@.skip(j1 as int)[0] == s@[j1 as int]);
                        assert(s@.skip(j1 as int).drop_first() =~= s@.skip(j1 + 1 as int));
                    }
                    let j2 = trim_ws(s, j1 + 1);
                    parse_bool(s, j2)
                } else {
                    proof {
                        if j1 < s@.len() {
                            assert(s@.skip(j1 as int)[0] == s@[j1 as int]);
                        }
                    }
                    None
                }
            } else {
                None
            }
        },
        None => None,
    }
}

fn parse_comma(s: &[u8], i: usize) -> (r: Option<usize>)
    requires
        i <= s@.len(),
    ensures
        r is None ==> spec_comma(s@.skip(i as int)) is None,
        r matches Some(j) ==> j <= s@.len() && spec_comma(s@.skip(i as int)) == Some(
            s@.skip(j as int),
        ),
{
    let j = trim_ws(s, i);
    if j < s.len() && s[j] == 44 {
        proof {
            assert(s@.skip(j as int)[0] == s@[j as int]);
            assert(s@.skip(j as int).drop_first() =~= s@.skip(j + 1 as int));
        }
        let j2 = trim_ws(s, j + 1);
        Some(j2)
    } else {
        proof {
            if j < s@.len() {
                assert(s@.skip(j as int)[0] == s@[j as int]);
            }
        }
        None
    }
}

fn parse_close(s: &[u8], i: usize) -> (r: bool)
    requires
        i <= s@.len(),
    ensures
        r == spec_close(s@.skip(i as int)),
{
    let j = trim_ws(s, i);
    if j < s.len() && s[j] == 125 {
        proof {
            assert(s@.skip(j as int)[0] == s@[j as int]);
            assert(s@.skip(j as int).drop_first() =~= s@.skip(j + 1 as int));
        }
        let j2 = trim_ws(s, j + 1);
        proof {
            assert(s@.skip(j2 as int).len() == s@.len() - j2);
        }
        j2 == s.len()
    } else {
        proof {
            if j < s@.len() {
                assert(s@.skip(j as int)[0] == s@[j as int]);
            }
        }
        false
    }
}

/// Decodes a creation payload, returning the decoded request exactly
/// when the body matches the payload grammar and nothing otherwise.
pub fn parse_create_todo(body: &[u8]) -> (r: Option<CreateTodo>)
    ensures
        match spec_create(body@) {
            Some(tc) => r matches Some(ct) && ct.title@ == tc.0 && ct.completed == tc.1,
            None => r is None,
        },
{
    proof {
        assert(body@.skip(0) =~= body@);
    }
    let i0 = trim_ws(body, 0);
    if i0 < body.len() && body[i0] == 123 {
        proof {
            assert(body@.skip(i0 as int)[0] == body@[i0 as int]);
            assert(body@.skip(i0 as int).drop_first() =~= body@.skip(i0 + 1 as int));
        }
        let i1 = trim_ws(body, i0 + 1);
        match parse_member_title(body, i1) {
            Some((t, j)) => match parse_comma(body, j) {
                Some(j2) => match parse_member_completed(body, j2) {
                    Some((c, k)) => {
                        if parse_close(body, k) {
                            Some(CreateTodo { title: t, completed: c })
                        } else {
                            None
                        }
                    },
                    None => None,
                },
                None => None,
            },
            None => match parse_member_completed(body, i1) {
                Some((c, j)) => match parse_comma(body, j) {
                    Some(j2) => match parse_member_title(body, j2) {
                        Some((t, k)) => {
                            if parse_close(body, k) {
                                Some(CreateTodo { title: t, completed: c })
                            } else {
                                None
                            }
                        },
                        None => None,
                    },
                    None => None,
                },
                None => None,
            },
        }
    } else {
        proof {
            if i0 < body@.len() {
                assert(body@.skip(i0 as int)[0] == body@[i0 as int]);
            }
        }
        None
    }
}

} // verus!
