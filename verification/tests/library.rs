use progresscafe::{
    check_string, collect_tasks, format_i64, parse_i64_or_null, read_state, Error, Key, StoreOp,
    Tristate, Update, Value, EXPIRE_SECONDS,
};

#[test]
fn format_i64_round_trips() {
    for v in [
        0,
        1,
        -1,
        10,
        -10,
        5,
        100,
        i64::MAX,
        i64::MIN,
        i64::MAX - 1,
        i64::MIN + 1,
    ] {
        let s = format_i64(v);
        assert_eq!(s, v.to_string());
        assert_eq!(parse_i64_or_null(&s), Ok(Some(v)));
    }
}

#[test]
fn encode_decode_round_trip() {
    let key = Key::new(String::from("randomtoken"), String::from("some:key")).unwrap();
    let raw = key.redis_key("state").unwrap();
    assert_eq!(raw, "pcafe:randomtoken:some:key:state");
    let back = Key::from_redis_key(&raw).unwrap();
    assert_eq!(back.token, "randomtoken");
    assert_eq!(back.key, "some:key");
    assert!(back == key);
}

#[test]
fn encode_decode_round_trip_empty_task() {
    let key = Key::new(String::from("tok"), String::new()).unwrap();
    let raw = key.redis_key("max").unwrap();
    assert_eq!(raw, "pcafe:tok::max");
    let back = Key::from_redis_key(&raw).unwrap();
    assert_eq!(back.token, "tok");
    assert_eq!(back.key, "");
}

#[test]
fn charset_is_enforced() {
    assert!(check_string("Azb9_-.").is_ok());
    assert!(check_string("").is_ok());
    assert_eq!(check_string("has space"), Err(Error::InvalidCharset));
    assert_eq!(check_string("col:on"), Err(Error::InvalidCharset));
    assert_eq!(check_string("b@d"), Err(Error::InvalidCharset));
    assert!(matches!(
        Key::new(String::from("bad token"), String::from("k")),
        Err(Error::InvalidCharset)
    ));
    assert!(matches!(
        Key::new(String::from("tok"), String::from("a:b$c")),
        Err(Error::InvalidCharset)
    ));
    // The pattern builder refuses the same inputs at construction.
    assert!(Key::new(String::from("tok"), String::from("pre:")).is_ok());
}

#[test]
fn pattern_has_wildcard_suffix() {
    let key = Key::new(String::from("randomtoken"), String::from("some:")).unwrap();
    assert_eq!(key.redis_key_pattern(), "pcafe:randomtoken:some:*");
}

#[test]
fn field_with_colon_is_rejected() {
    let key = Key::new(String::from("tok"), String::from("k")).unwrap();
    assert_eq!(key.redis_key("sta:te"), Err(Error::InvalidField));
}

#[test]
fn decode_rejects_foreign_keys() {
    assert_eq!(
        Key::from_redis_key("other:tok:task:state"),
        Err(Error::BadStructure)
    );
    assert_eq!(Key::from_redis_key("pcafe:tok"), Err(Error::BadStructure));
    assert_eq!(
        Key::from_redis_key("pcafe:t@k:state"),
        Err(Error::InvalidCharset)
    );
    // Charset is checked before structure.
    assert_eq!(Key::from_redis_key("oth@r:tok"), Err(Error::InvalidCharset));
}

#[test]
fn decode_three_segments_gives_empty_task() {
    let key = Key::from_redis_key("pcafe:tok:state").unwrap();
    assert_eq!(key.token, "tok");
    assert_eq!(key.key, "");
}

#[test]
fn parse_plain_current_and_max() {
    let u = Update::from_query("tok", (String::from("task"), String::from("10/100"))).unwrap();
    assert!(matches!(u.state, Tristate::Absent));
    assert!(matches!(u.current, Tristate::Put(10)));
    assert!(matches!(u.max, Tristate::Put(100)));
    assert_eq!(u.key.token, "tok");
    assert_eq!(u.key.key, "task");
}

#[test]
fn parse_label_current_and_null_max() {
    let u = Update::from_query("tok", (String::from("task"), String::from("done!5/null")))
        .unwrap();
    match &u.state {
        Tristate::Put(s) => assert_eq!(s, "done"),
        _ => panic!("label should be set"),
    }
    assert!(matches!(u.current, Tristate::Put(5)));
    assert!(matches!(u.max, Tristate::Delete));
}

#[test]
fn parse_empty_current_with_max() {
    let u = Update::from_query("tok", (String::from("task"), String::from("/50"))).unwrap();
    assert!(matches!(u.state, Tristate::Absent));
    assert!(matches!(u.current, Tristate::Absent));
    assert!(matches!(u.max, Tristate::Put(50)));
}

#[test]
fn parse_bad_current_fails() {
    let r = Update::from_query("tok", (String::from("task"), String::from("abc/100")));
    assert!(matches!(r, Err(Error::InvalidNumber)));
}

#[test]
fn parse_null_current() {
    let u = Update::from_query("tok", (String::from("task"), String::from("null/5"))).unwrap();
    assert!(matches!(u.current, Tristate::Delete));
    assert!(matches!(u.max, Tristate::Put(5)));
    let u2 = Update::from_query("tok", (String::from("task"), String::from("NULL"))).unwrap();
    assert!(matches!(u2.current, Tristate::Delete));
    assert!(matches!(u2.max, Tristate::Absent));
}

#[test]
fn parse_label_null_is_a_label() {
    // `null` before `!` is an ordinary label token, not a delete.
    let u = Update::from_query("tok", (String::from("task"), String::from("null!3"))).unwrap();
    match &u.state {
        Tristate::Put(s) => assert_eq!(s, "null"),
        _ => panic!("label should be set"),
    }
    assert!(matches!(u.current, Tristate::Put(3)));
}

#[test]
fn parse_empty_max_is_an_error() {
    // The grammar is asymmetric on purpose: an empty current is "absent",
    // an empty max after `/` is a parse error.
    let r = Update::from_query("tok", (String::from("task"), String::from("5/")));
    assert!(matches!(r, Err(Error::InvalidNumber)));
    let u = Update::from_query("tok", (String::from("task"), String::from(""))).unwrap();
    assert!(matches!(u.current, Tristate::Absent));
    assert!(matches!(u.max, Tristate::Absent));
}

#[test]
fn parse_error_order() {
    // A bad label is reported before the bad number after it.
    let r = Update::from_query("tok", (String::from("task"), String::from("b@d!x/y")));
    assert!(matches!(r, Err(Error::InvalidCharset)));
    // A bad max is reported before the bad current.
    let r2 = Update::from_query("tok", (String::from("task"), String::from("x/y")));
    assert!(matches!(r2, Err(Error::InvalidNumber)));
    // A bad token surfaces only once the value itself parses.
    let r3 = Update::from_query("bad token", (String::from("task"), String::from("1/2")));
    assert!(matches!(r3, Err(Error::InvalidCharset)));
}

#[test]
fn parse_i64_or_null_grammar() {
    assert_eq!(parse_i64_or_null("null"), Ok(None));
    assert_eq!(parse_i64_or_null("NulL"), Ok(None));
    assert_eq!(parse_i64_or_null("42"), Ok(Some(42)));
    assert_eq!(parse_i64_or_null("-7"), Ok(Some(-7)));
    assert_eq!(parse_i64_or_null("+8"), Ok(Some(8)));
    assert_eq!(
        parse_i64_or_null("9223372036854775807"),
        Ok(Some(i64::MAX))
    );
    assert_eq!(
        parse_i64_or_null("-9223372036854775808"),
        Ok(Some(i64::MIN))
    );
    assert_eq!(
        parse_i64_or_null("9223372036854775808"),
        Err(Error::InvalidNumber)
    );
    assert_eq!(
        parse_i64_or_null("-9223372036854775809"),
        Err(Error::InvalidNumber)
    );
    assert_eq!(parse_i64_or_null(""), Err(Error::InvalidNumber));
    assert_eq!(parse_i64_or_null("-"), Err(Error::InvalidNumber));
    assert_eq!(parse_i64_or_null("1 2"), Err(Error::InvalidNumber));
    assert_eq!(parse_i64_or_null("nulls"), Err(Error::InvalidNumber));
}

#[test]
fn compile_delete_label_set_max() {
    let key = Key::new(String::from("tok"), String::from("task")).unwrap();
    let u = Update::new(key, Tristate::Delete, Tristate::Absent, Tristate::Put(10));
    let ops = u.as_cmds();
    assert_eq!(ops.len(), 2);
    match &ops[0] {
        StoreOp::Del { key } => assert_eq!(key, "pcafe:tok:task:state"),
        other => panic!("expected a delete, got {:?}", other),
    }
    match &ops[1] {
        StoreOp::SetNumber { key, value, ttl_seconds } => {
            assert_eq!(key, "pcafe:tok:task:max");
            assert_eq!(*value, 10);
            assert_eq!(*ttl_seconds, EXPIRE_SECONDS);
        }
        other => panic!("expected a write, got {:?}", other),
    }
}

#[test]
fn compile_absent_update_is_empty() {
    let key = Key::new(String::from("tok"), String::from("task")).unwrap();
    let u = Update::new(key, Tristate::Absent, Tristate::Absent, Tristate::Absent);
    assert_eq!(u.as_cmds().len(), 0);
}

#[test]
fn compile_all_fields() {
    let key = Key::new(String::from("tok"), String::from("task")).unwrap();
    let u = Update::new(
        key,
        Tristate::Put(String::from("busy")),
        Tristate::Put(3),
        Tristate::Delete,
    );
    let ops = u.as_cmds();
    assert_eq!(ops.len(), 3);
    match &ops[0] {
        StoreOp::SetText { key, value, ttl_seconds } => {
            assert_eq!(key, "pcafe:tok:task:state");
            assert_eq!(value, "busy");
            assert_eq!(*ttl_seconds, 60 * 60 * 4);
        }
        other => panic!("expected a text write, got {:?}", other),
    }
    match &ops[1] {
        StoreOp::SetNumber { key, value, .. } => {
            assert_eq!(key, "pcafe:tok:task:current");
            assert_eq!(*value, 3);
        }
        other => panic!("expected a number write, got {:?}", other),
    }
    match &ops[2] {
        StoreOp::Del { key } => assert_eq!(key, "pcafe:tok:task:max"),
        other => panic!("expected a delete, got {:?}", other),
    }
}

#[test]
fn read_state_all_absent() {
    let v: Value = read_state(None, None, None).unwrap();
    assert!(v.state.is_none());
    assert!(v.current.is_none());
    assert!(v.max.is_none());
}

#[test]
fn read_state_partial_and_bad() {
    let v = read_state(Some(String::from("busy")), None, Some(String::from("100"))).unwrap();
    assert_eq!(v.state.as_deref(), Some("busy"));
    assert_eq!(v.current, None);
    assert_eq!(v.max, Some(100));
    let r = read_state(None, Some(String::from("ten")), None);
    assert!(matches!(r, Err(Error::InvalidNumber)));
}

#[test]
fn list_tasks_empty_scan() {
    let keys = collect_tasks(&Vec::new());
    assert!(keys.is_empty());
}

#[test]
fn list_tasks_dedups_and_drops() {
    let raws = vec![
        String::from("pcafe:tok:some:key:state"),
        String::from("pcafe:tok:some:key:current"),
        String::from("pcafe:tok:some:key:max"),
        String::from("foreign:data"),
        String::from("pcafe:tok:bad segment:state"),
        String::from("pcafe:tok:other:current"),
    ];
    let keys = collect_tasks(&raws);
    assert_eq!(keys.len(), 2);
    let mut names: Vec<String> = keys.iter().map(|k| k.key.clone()).collect();
    names.sort();
    assert_eq!(names, vec![String::from("other"), String::from("some:key")]);
    for k in &keys {
        assert_eq!(k.token, "tok");
    }
}

#[test]
fn write_then_read_round_trip() {
    // Compile an update, apply its operations to a simulated expiring store,
    // and read the record back: exactly the written values come out.
    let key = Key::new(String::from("tok"), String::from("job:1")).unwrap();
    let u = Update::new(
        key,
        Tristate::Put(String::from("done")),
        Tristate::Put(5),
        Tristate::Put(100),
    );
    let mut store: Vec<(String, String)> = Vec::new();
    for op in u.as_cmds() {
        match op {
            StoreOp::SetText { key, value, .. } => {
                store.retain(|(k, _)| *k != key);
                store.push((key, value));
            }
            StoreOp::SetNumber { key, value, .. } => {
                store.retain(|(k, _)| *k != key);
                store.push((key, format_i64(value)));
            }
            StoreOp::Del { key } => store.retain(|(k, _)| *k != key),
        }
    }
    let key = Key::new(String::from("tok"), String::from("job:1")).unwrap();
    let get = |field: &str| -> Option<String> {
        let raw = key.redis_key(field).unwrap();
        store
            .iter()
            .find(|(k, _)| *k == raw)
            .map(|(_, v)| v.clone())
    };
    let v = read_state(get("state"), get("current"), get("max")).unwrap();
    assert_eq!(v.state.as_deref(), Some("done"));
    assert_eq!(v.current, Some(5));
    assert_eq!(v.max, Some(100));
}
