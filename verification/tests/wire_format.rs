use todo_service::json::encode_error;
use todo_service::json::encode_todo;
use todo_service::json::encode_todos;
use todo_service::parse::parse_create_todo;
use todo_service::Todo;

fn todo(id: i32, title: &[u8], completed: bool) -> Todo {
    Todo { id, title: title.to_vec(), completed }
}

#[test]
fn encodes_simple_todo() {
    let body = encode_todo(&todo(1, b"buy milk", false));
    assert_eq!(body, b"{\"id\":1,\"title\":\"buy milk\",\"completed\":false}".to_vec());
}

#[test]
fn encodes_completed_todo() {
    let body = encode_todo(&todo(42, b"write tests", true));
    assert_eq!(body, b"{\"id\":42,\"title\":\"write tests\",\"completed\":true}".to_vec());
}

#[test]
fn encodes_negative_and_extreme_ids() {
    let body = encode_todo(&todo(-7, b"x", true));
    assert_eq!(body, b"{\"id\":-7,\"title\":\"x\",\"completed\":true}".to_vec());
    let body = encode_todo(&todo(i32::MIN, b"", false));
    assert_eq!(
        body,
        b"{\"id\":-2147483648,\"title\":\"\",\"completed\":false}".to_vec()
    );
    let body = encode_todo(&todo(i32::MAX, b"", false));
    assert_eq!(
        body,
        b"{\"id\":2147483647,\"title\":\"\",\"completed\":false}".to_vec()
    );
    let body = encode_todo(&todo(0, b"", false));
    assert_eq!(body, b"{\"id\":0,\"title\":\"\",\"completed\":false}".to_vec());
}

#[test]
fn escapes_title_bytes() {
    let body = encode_todo(&todo(1, b"a\"b\\c\nd\te\x01f", false));
    assert_eq!(
        body,
        b"{\"id\":1,\"title\":\"a\\\"b\\\\c\\nd\\te\\u0001f\",\"completed\":false}".to_vec()
    );
}

#[test]
fn encodes_empty_collection() {
    assert_eq!(encode_todos(&Vec::new()), b"[]".to_vec());
}

#[test]
fn encodes_collection_in_order() {
    let rows = vec![todo(1, b"a", false), todo(2, b"b", true)];
    assert_eq!(
        encode_todos(&rows),
        b"[{\"id\":1,\"title\":\"a\",\"completed\":false},{\"id\":2,\"title\":\"b\",\"completed\":true}]"
            .to_vec()
    );
}

#[test]
fn reordered_rows_encode_the_same_items() {
    let one_way = vec![todo(1, b"a", false), todo(2, b"b", true)];
    let other_way = vec![todo(2, b"b", true), todo(1, b"a", false)];
    let mut items_one: Vec<Vec<u8>> = one_way.iter().map(encode_todo).collect();
    let mut items_other: Vec<Vec<u8>> = other_way.iter().map(encode_todo).collect();
    items_one.sort();
    items_other.sort();
    assert_eq!(items_one, items_other);
}

#[test]
fn repeated_encodes_agree() {
    let rows = vec![todo(3, b"same", true), todo(4, b"rows", false)];
    let first = encode_todos(&rows);
    let second = encode_todos(&rows);
    assert_eq!(first, second);
}

#[test]
fn encodes_error_body() {
    assert_eq!(encode_error(b"boom"), b"{\"error\":\"boom\"}".to_vec());
    assert_eq!(
        encode_error(b"pool timed out\n"),
        b"{\"error\":\"pool timed out\\n\"}".to_vec()
    );
}

#[test]
fn parses_simple_payload() {
    let r = parse_create_todo(b"{\"title\":\"buy milk\",\"completed\":false}").unwrap();
    assert_eq!(r.title, b"buy milk".to_vec());
    assert!(!r.completed);
}

#[test]
fn parses_either_member_order() {
    let r = parse_create_todo(b"{\"completed\":true,\"title\":\"x\"}").unwrap();
    assert_eq!(r.title, b"x".to_vec());
    assert!(r.completed);
}

#[test]
fn parses_with_whitespace() {
    let r = parse_create_todo(b" { \"title\" : \"a b\" , \"completed\" : true } ").unwrap();
    assert_eq!(r.title, b"a b".to_vec());
    assert!(r.completed);
}

#[test]
fn parses_escapes_in_title() {
    let r = parse_create_todo(b"{\"title\":\"q\\\"w\\\\e\\n\\u0041\\u0001\",\"completed\":false}")
        .unwrap();
    assert_eq!(r.title, b"q\"w\\e\nA\x01".to_vec());
}

#[test]
fn round_trips_encoded_titles() {
    let titles: [&[u8]; 5] = [
        b"plain",
        b"with \"quotes\"",
        b"tab\tand\nnewline",
        b"ctrl\x02byte",
        "caf\u{e9} \u{1f600}".as_bytes(),
    ];
    for title in titles {
        // carve the escaped title literal out of an encoded item and
        // embed it in a creation payload: decoding must give it back
        let obj = encode_todo(&todo(1, title, true));
        let title_start = obj.windows(8).position(|w| w == b"\"title\":").unwrap() + 8;
        let title_end = obj.windows(12).position(|w| w == b",\"completed\"").unwrap();
        let mut payload = b"{\"title\":".to_vec();
        payload.extend_from_slice(&obj[title_start..title_end]);
        payload.extend_from_slice(b",\"completed\":true}");
        let r = parse_create_todo(&payload).unwrap();
        assert_eq!(r.title, title.to_vec());
        assert!(r.completed);
    }
}

#[test]
fn rejects_missing_completed() {
    assert!(parse_create_todo(b"{\"title\":\"x\"}").is_none());
}

#[test]
fn rejects_missing_title() {
    assert!(parse_create_todo(b"{\"completed\":true}").is_none());
}

#[test]
fn rejects_duplicate_members() {
    assert!(parse_create_todo(b"{\"title\":\"a\",\"title\":\"b\"}").is_none());
    assert!(parse_create_todo(b"{\"completed\":true,\"completed\":false}").is_none());
}

#[test]
fn rejects_malformed_json() {
    assert!(parse_create_todo(b"").is_none());
    assert!(parse_create_todo(b"not json").is_none());
    assert!(parse_create_todo(b"{\"title\":\"x\",\"completed\":false").is_none());
    assert!(parse_create_todo(b"{\"title\":\"x\",\"completed\":\"no\"}").is_none());
    assert!(parse_create_todo(b"{\"title\":1,\"completed\":true}").is_none());
    assert!(parse_create_todo(b"{\"title\":\"x\",\"completed\":true}trail").is_none());
    assert!(parse_create_todo(b"{\"title\":\"x\",\"completed\":true,\"extra\":1}").is_none());
}

#[test]
fn parses_unicode_escapes_to_utf8() {
    // two-byte scalar
    let r = parse_create_todo(b"{\"title\":\"\\u00e9\",\"completed\":true}").unwrap();
    assert_eq!(r.title, "\u{e9}".as_bytes().to_vec());
    // three-byte scalar
    let r = parse_create_todo(b"{\"title\":\"\\u1234\",\"completed\":true}").unwrap();
    assert_eq!(r.title, "\u{1234}".as_bytes().to_vec());
    // surrogate pair: one four-byte scalar
    let r = parse_create_todo(b"{\"title\":\"\\ud83d\\ude00\",\"completed\":true}").unwrap();
    assert_eq!(r.title, "\u{1f600}".as_bytes().to_vec());
    // upper-case hex digits
    let r = parse_create_todo(b"{\"title\":\"\\u00E9\",\"completed\":true}").unwrap();
    assert_eq!(r.title, "\u{e9}".as_bytes().to_vec());
}

#[test]
fn rejects_lone_surrogates_and_bad_escapes() {
    assert!(parse_create_todo(b"{\"title\":\"\\ud800\",\"completed\":true}").is_none());
    assert!(parse_create_todo(b"{\"title\":\"\\ud800\\u0041\",\"completed\":true}").is_none());
    assert!(parse_create_todo(b"{\"title\":\"\\udc00\",\"completed\":true}").is_none());
    assert!(parse_create_todo(b"{\"title\":\"\\q\",\"completed\":true}").is_none());
    assert!(parse_create_todo(b"{\"title\":\"\\u12\",\"completed\":true}").is_none());
}

#[test]
fn parses_raw_utf8_title() {
    let mut payload = b"{\"title\":\"".to_vec();
    payload.extend_from_slice("caf\u{e9} \u{1234} \u{1f600}".as_bytes());
    payload.extend_from_slice(b"\",\"completed\":false}");
    let r = parse_create_todo(&payload).unwrap();
    assert_eq!(r.title, "caf\u{e9} \u{1234} \u{1f600}".as_bytes().to_vec());
    assert!(!r.completed);
}

#[test]
fn rejects_invalid_utf8_titles() {
    // a lone non-ASCII byte, a bare continuation byte, an overlong
    // lead, a raw surrogate encoding, and an out-of-range lead
    let bad: [&[u8]; 5] = [b"\xe9", b"\x80a", b"\xc0\xaf", b"\xed\xa0\x80", b"\xf5\x80\x80\x80"];
    for title in bad {
        let mut payload = b"{\"title\":\"".to_vec();
        payload.extend_from_slice(title);
        payload.extend_from_slice(b"\",\"completed\":true}");
        assert!(parse_create_todo(&payload).is_none());
    }
}
