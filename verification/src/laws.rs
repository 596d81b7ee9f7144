//! Laws that relate the encoder and the parser across calls: what a
//! client round trip, a reordered read, and the shape of failure
//! bodies rely on.
use vstd::prelude::*;

use crate::Todo;
use crate::json::bool_bytes;
use crate::json::error_json;
use crate::json::escape_byte;
use crate::json::escape_bytes;
use crate::json::json_string;
use crate::json::todo_json;
use crate::json::todos_json;
use crate::parse::completed_key;
use crate::parse::spec_bool;
use crate::parse::spec_close;
use crate::parse::spec_comma;
use crate::parse::spec_create;
use crate::parse::spec_member_completed;
use crate::parse::spec_member_title;
use crate::parse::spec_str_body;
use crate::parse::spec_string;
use crate::parse::spec_trim;
use crate::parse::title_key;
use crate::parse::valid_utf8;

verus! {

/// A creation payload built the way the encoder writes strings:
/// `{"title":<title>,"completed":<completed>}` with the title escaped.
pub open spec fn create_payload(title: Seq<u8>, completed: bool) -> Seq<u8> {
    seq![123u8] + json_string(title_key()) + seq![58u8] + json_string(title) + seq![44u8]
        + json_string(completed_key()) + seq![58u8] + bool_bytes(completed) + seq![125u8]
}

proof fn lemma_escape_bytes_front(t: Seq<u8>)
    requires
        t.len() > 0,
    ensures
        escape_bytes(t) == escape_byte(t[0]) + escape_bytes(t.drop_first()),
    decreases t.len(),
{
    if t.len() == 1 {
        assert(t.drop_last() =~= Seq::<u8>::empty());
        assert(t.drop_first() =~= Seq::<u8>::empty());
        assert(t.last() == t[0]);
        assert(escape_bytes(t) =~= escape_byte(t[0]) + escape_bytes(t.drop_first()));
    } else {
        lemma_escape_bytes_front(t.drop_last());
        assert(t.drop_last()[0] == t[0]);
        assert(t.drop_last().drop_first() =~= t.drop_first().drop_last());
        assert(t.drop_first().last() == t.last());
        assert(escape_bytes(t) == escape_bytes(t.drop_last()) + escape_byte(t.last()));
        assert(escape_bytes(t.drop_first()) == escape_bytes(t.drop_first().drop_last())
            + escape_byte(t.drop_first().last()));
        assert(escape_bytes(t) =~= escape_byte(t[0]) + escape_bytes(t.drop_first()));
    }
}

proof fn lemma_escape_raw_prefix(t: Seq<u8>, k: int)
    requires
        0 <= k <= t.len(),
        forall|m: int| 0 <= m < k ==> 32 <= t[m] && t[m] != 34 && t[m] != 92,
    ensures
        escape_bytes(t) == t.subrange(0, k) + escape_bytes(t.skip(k)),
    decreases k,
{
    if k == 0 {
        assert(t.skip(0) =~= t);
        assert(escape_bytes(t) =~= t.subrange(0, 0) + escape_bytes(t));
    } else {
        lemma_escape_bytes_front(t);
        assert(escape_byte(t[0]) =~= seq![t[0]]);
        assert forall|m: int| 0 <= m < k - 1 implies 32 <= t.drop_first()[m] && t.drop_first()[m]
            != 34 && t.drop_first()[m] != 92 by {
            assert(t.drop_first()[m] == t[m + 1]);
        }
        lemma_escape_raw_prefix(t.drop_first(), k - 1);
        assert(t.drop_first().skip(k - 1) =~= t.skip(k));
        assert(t.drop_first().subrange(0, k - 1) =~= t.subrange(1, k));
        assert(escape_bytes(t) =~= t.subrange(0, k) + escape_bytes(t.skip(k)));
    }
}

proof fn lemma_ascii_valid(s: Seq<u8>)
    requires
        forall|i: int| 0 <= i < s.len() ==> s[i] < 128,
    ensures
        valid_utf8(s),
    decreases s.len(),
{
    if s.len() > 0 {
        assert forall|i: int| 0 <= i < s.drop_first().len() implies s.drop_first()[i] < 128 by {
            assert(s.drop_first()[i] == s[i + 1]);
        }
        lemma_ascii_valid(s.drop_first());
    }
}

#[verifier::rlimit(60)]
proof fn lemma_str_body_inverts(t: Seq<u8>, rest: Seq<u8>)
    requires
        valid_utf8(t),
    ensures
        spec_str_body(escape_bytes(t) + seq![34u8] + rest) == Some((t, rest)),
    decreases t.len(),
{
    let s = escape_bytes(t) + seq![34u8] + rest;
    if t.len() == 0 {
        assert(escape_bytes(t) =~= Seq::<u8>::empty());
        assert(s[0] == 34);
        assert(s.drop_first() =~= rest);
        assert(t =~= Seq::<u8>::empty());
    } else {
        lemma_escape_bytes_front(t);
        let b = t[0];
        let e = escape_byte(b);
        let tail = escape_bytes(t.drop_first()) + seq![34u8] + rest;
        assert(s =~= e + tail);
        if b < 128 {
            assert(valid_utf8(t.drop_first()));
            lemma_str_body_inverts(t.drop_first(), rest);
            if b == 34 || b == 92 || b == 10 || b == 13 || b == 9 || b == 8 || b == 12 {
                assert(e.len() == 2 && e[0] == 92);
                assert(s[0] == 92 && s[1] == e[1]);
                assert(s.len() >= 2);
                assert(e[1] != 117);
                assert(crate::parse::unescape(e[1]) == Some(b));
                assert(s.skip(2) =~= tail);
                assert(spec_str_body(s) == Some((seq![b] + t.drop_first(), rest)));
                assert(seq![b] + t.drop_first() =~= t);
            } else if b < 32 {
                assert(e.len() == 6 && e[0] == 92 && e[1] == 117 && e[2] == 48 && e[3] == 48);
                assert(s[0] == 92 && s[1] == 117 && s[2] == 48 && s[3] == 48);
                assert(s[4] == e[4] && s[5] == e[5]);
                assert(s.len() >= 6);
                let hi = b / 16;
                let lo = b % 16;
                assert(e[4] == crate::json::hex_digit(hi) && e[5] == crate::json::hex_digit(lo));
                assert(crate::parse::is_hex(48));
                assert(crate::parse::is_hex(e[4]));
                assert(crate::parse::is_hex(e[5]));
                assert(crate::parse::hex_val(48) == 0);
                assert(crate::parse::hex_val(e[4]) == hi);
                assert(crate::parse::hex_val(e[5]) == lo);
                assert(crate::parse::hex_quad(s, 2) == hi * 16 + lo);
                assert(hi * 16 + lo == b);
                assert(!(0xD800 <= b as int && b as int <= 0xDFFF));
                assert(crate::parse::utf8_enc(b as int) =~= seq![b]);
                assert(s.skip(6) =~= tail);
                assert(spec_str_body(s) == Some((seq![b] + t.drop_first(), rest)));
                assert(seq![b] + t.drop_first() =~= t);
            } else {
                assert(e =~= seq![b]);
                assert(s[0] == b);
                assert(32 <= b && b < 128 && b != 34 && b != 92);
                assert(s.drop_first() =~= tail);
                assert(spec_str_body(s) == Some((seq![b] + t.drop_first(), rest)));
                assert(seq![b] + t.drop_first() =~= t);
            }
        } else {
            // a multi-byte UTF-8 sequence of k raw bytes passes through
            let k: int = if b <= 223 {
                2
            } else if b <= 239 {
                3
            } else {
                4
            };
            assert(194 <= b);
            assert(k <= t.len());
            assert forall|m: int| 0 <= m < k implies 32 <= t[m] && t[m] != 34 && t[m] != 92 by {
                if m > 0 {
                    assert(128 <= t[m] && t[m] <= 191);
                }
            }
            lemma_escape_raw_prefix(t, k);
            let tailk = escape_bytes(t.skip(k)) + seq![34u8] + rest;
            assert(s =~= t.subrange(0, k) + tailk);
            assert(s.len() == k + tailk.len());
            assert(s[0] == t[0]);
            assert(s[1] == t[1]);
            if k >= 3 {
                assert(s[2] == t[2]);
            }
            if k >= 4 {
                assert(s[3] == t[3]);
            }
            assert(valid_utf8(t.skip(k)));
            lemma_str_body_inverts(t.skip(k), rest);
            assert(s.skip(k) =~= tailk);
            assert(spec_str_body(s) == Some((s.subrange(0, k) + t.skip(k), rest)));
            assert(s.subrange(0, k) =~= t.subrange(0, k));
            assert(t.subrange(0, k) + t.skip(k) =~= t);
        }
    }
}

proof fn lemma_escape_plain(t: Seq<u8>)
    requires
        forall|i: int| 0 <= i < t.len() ==> 32 <= t[i] && t[i] != 34 && t[i] != 92,
    ensures
        escape_bytes(t) == t,
    decreases t.len(),
{
    if t.len() > 0 {
        lemma_escape_plain(t.drop_last());
        assert(escape_byte(t.last()) =~= seq![t.last()]);
        assert(escape_bytes(t) =~= t);
    } else {
        assert(escape_bytes(t) =~= t);
    }
}

/// A client round trip through the wire format: any UTF-8 title and
/// any flag, written as the creation payload with the title escaped
/// the way the encoder escapes strings, decode back to exactly that
/// title and flag. The codec loses nothing on well-formed text; a
/// title that is not UTF-8 is refused by the grammar, not mangled.
#[verifier::rlimit(80)]
pub proof fn law_parse_inverts_encode(title: Seq<u8>, completed: bool)
    requires
        valid_utf8(title),
    ensures
        spec_create(create_payload(title, completed)) == Some((title, completed)),
{
    let p = create_payload(title, completed);
    // the payload in pieces, from the back
    let rest2 = seq![125u8];
    let rest1 = seq![44u8] + json_string(completed_key()) + seq![58u8] + bool_bytes(completed)
        + rest2;
    let rest0 = seq![58u8] + json_string(title) + rest1;
    assert(title_key().len() == 5);
    assert(forall|i: int|
        0 <= i < title_key().len() ==> 32 <= title_key()[i] && title_key()[i] < 128
            && title_key()[i] != 34 && title_key()[i] != 92);
    lemma_escape_plain(title_key());
    lemma_ascii_valid(title_key());
    assert(completed_key().len() == 9);
    assert(forall|i: int|
        0 <= i < completed_key().len() ==> 32 <= completed_key()[i] && completed_key()[i] < 128
            && completed_key()[i] != 34 && completed_key()[i] != 92);
    lemma_escape_plain(completed_key());
    lemma_ascii_valid(completed_key());

    // the object opens at once: no leading whitespace
    assert(p[0] == 123);
    assert(spec_trim(p) == p);
    let r1 = p.drop_first();
    assert(r1 =~= json_string(title_key()) + rest0);
    assert(r1[0] == 34);
    assert(spec_trim(r1) == r1);

    // the first member is the title
    assert(r1.drop_first() =~= escape_bytes(title_key()) + seq![34u8] + rest0);
    lemma_str_body_inverts(title_key(), rest0);
    assert(spec_string(r1) == Some((title_key(), rest0)));
    assert(rest0[0] == 58);
    assert(spec_trim(rest0) == rest0);
    let after_colon = rest0.drop_first();
    assert(after_colon =~= json_string(title) + rest1);
    assert(after_colon[0] == 34);
    assert(spec_trim(after_colon) == after_colon);
    assert(after_colon.drop_first() =~= escape_bytes(title) + seq![34u8] + rest1);
    lemma_str_body_inverts(title, rest1);
    assert(spec_string(after_colon) == Some((title, rest1)));
    assert(spec_member_title(r1) == Some((title, rest1)));

    // the comma leads to the second member
    assert(rest1[0] == 44);
    assert(spec_trim(rest1) == rest1);
    let member2 = rest1.drop_first();
    assert(member2 =~= json_string(completed_key()) + seq![58u8] + bool_bytes(completed) + rest2);
    assert(member2[0] == 34);
    assert(spec_trim(member2) == member2);
    assert(spec_comma(rest1) == Some(member2));

    // the second member is the flag
    let rest3 = seq![58u8] + bool_bytes(completed) + rest2;
    assert(member2.drop_first() =~= escape_bytes(completed_key()) + seq![34u8] + rest3);
    lemma_str_body_inverts(completed_key(), rest3);
    assert(spec_string(member2) == Some((completed_key(), rest3)));
    assert(rest3[0] == 58);
    assert(spec_trim(rest3) == rest3);
    let val = rest3.drop_first();
    assert(val =~= bool_bytes(completed) + rest2);
    assert(val[0] != 32 && val[0] != 9 && val[0] != 10 && val[0] != 13);
    assert(spec_trim(val) == val);
    if completed {
        assert(val[0] == 116 && val[1] == 114 && val[2] == 117 && val[3] == 101);
        assert(val.skip(4) =~= rest2);
        assert(spec_bool(val) == Some((true, rest2)));
    } else {
        assert(val[0] == 102 && val[1] == 97 && val[2] == 108 && val[3] == 115 && val[4] == 101);
        assert(val.skip(5) =~= rest2);
        assert(spec_bool(val) == Some((false, rest2)));
    }
    assert(spec_member_completed(member2) == Some((completed, rest2)));

    // the brace closes the object and nothing follows
    assert(rest2[0] == 125);
    assert(spec_trim(rest2) == rest2);
    assert(rest2.drop_first() =~= Seq::<u8>::empty());
    assert(spec_trim(Seq::<u8>::empty()).len() == 0);
    assert(spec_close(rest2));
}

/// Reading twice without a write in between answers the same bytes:
/// the list body is a function of the rows alone.
pub proof fn law_idempotent_read(rows_first: Seq<Todo>, rows_second: Seq<Todo>)
    requires
        rows_first == rows_second,
    ensures
        todos_json(rows_first) == todos_json(rows_second),
{
}

/// Each row's JSON object, in row order.
pub open spec fn item_bodies(ts: Seq<Todo>) -> Seq<Seq<u8>> {
    ts.map_values(|t: Todo| todo_json(t))
}

/// Reading the same items in another order answers the same items:
/// row sequences that hold one multiset of rows encode, item for item,
/// one multiset of JSON objects — the collections agree, order
/// notwithstanding.
pub proof fn law_reordered_read(rows_first: Seq<Todo>, rows_second: Seq<Todo>)
    requires
        rows_first.to_multiset() == rows_second.to_multiset(),
    ensures
        item_bodies(rows_first).to_multiset() == item_bodies(rows_second).to_multiset(),
    decreases rows_first.len(),
{
    broadcast use vstd::seq_lib::group_to_multiset_ensures;
    broadcast use vstd::multiset::group_multiset_axioms;

    if rows_first.len() == 0 {
        assert(rows_first.to_multiset().len() == 0);
        assert(rows_second.len() == 0);
        assert(item_bodies(rows_first) =~= Seq::<Seq<u8>>::empty());
        assert(item_bodies(rows_second) =~= Seq::<Seq<u8>>::empty());
    } else {
        let n1 = rows_first.len() - 1;
        let x = rows_first[n1 as int];
        assert(rows_first.contains(x));
        assert(rows_first.to_multiset().count(x) > 0);
        assert(rows_second.to_multiset().count(x) > 0);
        assert(rows_second.contains(x));
        let j = choose|j: int| 0 <= j < rows_second.len() && rows_second[j] == x;
        let shorter_first = rows_first.remove(n1 as int);
        let shorter_second = rows_second.remove(j);
        assert(shorter_first.to_multiset() =~= rows_first.to_multiset().remove(x));
        assert(shorter_second.to_multiset() =~= rows_second.to_multiset().remove(x));
        law_reordered_read(shorter_first, shorter_second);
        assert(item_bodies(shorter_first) =~= item_bodies(rows_first).remove(n1 as int));
        assert(item_bodies(shorter_second) =~= item_bodies(rows_second).remove(j));
        let v = todo_json(x);
        assert(item_bodies(rows_first)[n1 as int] == v);
        assert(item_bodies(rows_second)[j] == v);
        assert(item_bodies(rows_first).remove(n1 as int).to_multiset() =~= item_bodies(
            rows_first,
        ).to_multiset().remove(v));
        assert(item_bodies(rows_second).remove(j).to_multiset() =~= item_bodies(
            rows_second,
        ).to_multiset().remove(v));
        assert(item_bodies(rows_first).contains(v));
        assert(item_bodies(rows_second).contains(v));
        assert(item_bodies(rows_first).to_multiset().count(v) > 0);
        assert(item_bodies(rows_second).to_multiset().count(v) > 0);
        assert(item_bodies(rows_first).to_multiset() =~= item_bodies(
            rows_first,
        ).to_multiset().remove(v).insert(v));
        assert(item_bodies(rows_second).to_multiset() =~= item_bodies(
            rows_second,
        ).to_multiset().remove(v).insert(v));
        assert(item_bodies(rows_first).to_multiset() =~= item_bodies(rows_second).to_multiset());
    }
}

/// A failure body is never a resource body: the error object differs
/// from every encoded item and from every encoded collection.
pub proof fn law_error_body_distinct(msg: Seq<u8>, t: Todo, ts: Seq<Todo>)
    ensures
        error_json(msg) != todo_json(t),
        error_json(msg) != todos_json(ts),
{
    assert(error_json(msg)[2] == 101);
    assert(todo_json(t)[2] == 105);
    assert(error_json(msg)[0] == 123);
    assert(todos_json(ts)[0] == 91);
}

} // verus!
