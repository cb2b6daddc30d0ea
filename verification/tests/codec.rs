// Tests of the JSON wire codec: what parses, what does not, and what the
// parsed tree looks like.

use trezor_bridge::json::{parse_json, Json, JsonList, JsonMembers};

fn obj(members: Vec<(&[u8], Json)>) -> Json {
    let mut tail = JsonMembers::Nil;
    for (k, v) in members.into_iter().rev() {
        tail = JsonMembers::Cons(k.to_vec(), Box::new(v), Box::new(tail));
    }
    Json::Obj(Box::new(tail))
}

fn arr(items: Vec<Json>) -> Json {
    let mut tail = JsonList::Nil;
    for v in items.into_iter().rev() {
        tail = JsonList::Cons(Box::new(v), Box::new(tail));
    }
    Json::Arr(Box::new(tail))
}

#[test]
fn parses_scalars() {
    assert_eq!(parse_json(&b"null".to_vec()), Some(Json::Null));
    assert_eq!(parse_json(&b"true".to_vec()), Some(Json::Bool(true)));
    assert_eq!(parse_json(&b"false".to_vec()), Some(Json::Bool(false)));
    assert_eq!(parse_json(&b" -12.5e+3 ".to_vec()), Some(Json::Num(b"-12.5e+3".to_vec())));
    assert_eq!(parse_json(&b"0".to_vec()), Some(Json::Num(b"0".to_vec())));
    assert_eq!(parse_json(&b"\"hi\"".to_vec()), Some(Json::Str(b"hi".to_vec())));
}

#[test]
fn parses_escapes() {
    assert_eq!(
        parse_json(&br#""a\"b\\c\/d\n\t\r\b\f""#.to_vec()),
        Some(Json::Str(b"a\"b\\c/d\n\t\r\x08\x0c".to_vec()))
    );
    // \u0041 is 'A'; \u00e9 is e-acute, two UTF-8 bytes; \u20ac is the euro
    // sign, three UTF-8 bytes.
    assert_eq!(
        parse_json(&br#""\u0041\u00e9\u20ac""#.to_vec()),
        Some(Json::Str("A\u{e9}\u{20ac}".as_bytes().to_vec()))
    );
}

#[test]
fn parses_composites() {
    assert_eq!(
        parse_json(&b" [ 1 , \"x\" , null ] ".to_vec()),
        Some(arr(vec![
            Json::Num(b"1".to_vec()),
            Json::Str(b"x".to_vec()),
            Json::Null,
        ]))
    );
    assert_eq!(parse_json(&b"[]".to_vec()), Some(arr(vec![])));
    assert_eq!(parse_json(&b"{}".to_vec()), Some(obj(vec![])));
    assert_eq!(
        parse_json(&br#"{"a":{"b":[true]},"c":2}"#.to_vec()),
        Some(obj(vec![
            (b"a", obj(vec![(b"b", arr(vec![Json::Bool(true)]))])),
            (b"c", Json::Num(b"2".to_vec())),
        ]))
    );
}

#[test]
fn rejects_malformed() {
    let bad: Vec<&[u8]> = vec![
        b"{",
        b"[1,2",
        b"tru",
        b"nul",
        b"01",
        b"1.",
        b"1e",
        b"+1",
        b"\"unterminated",
        b"\"bad\\x\"",
        b"\"\\ud800\"",
        b"{} trailing",
        b"'single'",
        b"{\"a\" 1}",
        b"[1,]",
        b"{\"a\":1,}",
        b"\"ctrl\x01\"",
    ];
    for case in bad {
        assert_eq!(parse_json(&case.to_vec()), None, "should reject {:?}", case);
    }
}

#[test]
fn depth_limit_marks_deep_nesting_malformed() {
    let mut deep = Vec::new();
    for _ in 0..200 {
        deep.push(b'[');
    }
    for _ in 0..200 {
        deep.push(b']');
    }
    assert_eq!(parse_json(&deep), None);

    let mut fine = Vec::new();
    for _ in 0..100 {
        fine.push(b'[');
    }
    for _ in 0..100 {
        fine.push(b']');
    }
    assert!(parse_json(&fine).is_some());
}

#[test]
fn agrees_with_serde_on_samples() {
    let samples: Vec<&[u8]> = vec![
        br#"{"success":true,"payload":{"device_id":"abc","vendor":"v"}}"#,
        br#"[0.5, 1e9, -3, "s", [], {}]"#,
        br#"{"nested":{"deep":[null,true,false]}}"#,
        b"not json at all",
        b"{\"a\":}",
        b"",
    ];
    for case in samples {
        let mine = parse_json(&case.to_vec()).is_some();
        let serde = serde_json::from_slice::<serde_json::Value>(case).is_ok();
        assert_eq!(mine, serde, "disagree on {:?}", case);
    }
}
