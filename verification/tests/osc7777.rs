use carrot::osc7777::{self, encode, encode_hex, parse, BlockMetadata, GitInfo, Osc7777ParseError};

#[test]
fn round_trip_preserves_all_fields() {
    let md = BlockMetadata {
        cwd: Some("/home/nyxb/carrot".into()),
        git: Some(GitInfo {
            branch: Some("main".into()),
            dirty: Some(false),
            ahead: Some(2),
            behind: Some(0),
        }),
        user: Some("nyxb".into()),
        host: Some("moonbox".into()),
        shell: Some("nu".into()),
        exit: Some(0),
        runtime_ms: Some(247),
    };
    let hex = encode(&md);
    let back = parse(&hex).unwrap();
    assert_eq!(back, md);
}

#[test]
fn encode_then_decode_handles_empty_metadata() {
    let md = BlockMetadata::default();
    let hex = encode(&md);
    let back = parse(&hex).unwrap();
    assert_eq!(back, md);
}

#[test]
fn hex_decode_odd_length_errors() {
    assert!(matches!(parse("abc"), Err(Osc7777ParseError::Hex(_))));
}

#[test]
fn hex_decode_nonhex_errors() {
    assert!(matches!(parse("zz"), Err(Osc7777ParseError::Hex(_))));
}

#[test]
fn string_escapes_survive_roundtrip() {
    let md = BlockMetadata {
        cwd: Some("/weird \"path\"\nwith\ttabs".into()),
        ..Default::default()
    };
    let hex = encode(&md);
    let back = parse(&hex).unwrap();
    assert_eq!(back.cwd, md.cwd);
}

#[test]
fn partial_metadata_parses_correctly() {
    let md = BlockMetadata {
        exit: Some(1),
        runtime_ms: Some(1234),
        ..Default::default()
    };
    let hex = encode(&md);
    let back = parse(&hex).unwrap();
    assert_eq!(back.exit, Some(1));
    assert_eq!(back.runtime_ms, Some(1234));
    assert!(back.cwd.is_none());
    assert!(back.git.is_none());
}

#[test]
fn git_info_roundtrips_with_dirty_true() {
    let md = BlockMetadata {
        git: Some(GitInfo {
            branch: Some("feat/x".into()),
            dirty: Some(true),
            ahead: Some(0),
            behind: Some(3),
        }),
        ..Default::default()
    };
    let hex = encode(&md);
    let back = parse(&hex).unwrap();
    assert_eq!(back.git, md.git);
}

#[test]
fn unknown_keys_are_skipped() {
    let json = r#"{"cwd":"/x","future_field":"ignored","exit":0}"#;
    let hex = encode_hex(json.as_bytes());
    let back = parse(&hex).unwrap();
    assert_eq!(back.cwd.as_deref(), Some("/x"));
    assert_eq!(back.exit, Some(0));
}

#[test]
fn unterminated_string_errors() {
    let json = r#"{"cwd":"/no-close"#;
    let hex = encode_hex(json.as_bytes());
    assert!(matches!(parse(&hex), Err(Osc7777ParseError::Json(_))));
}

#[test]
fn negative_exit_code_parses() {
    let md = BlockMetadata {
        exit: Some(-1),
        ..Default::default()
    };
    let hex = encode(&md);
    let back = parse(&hex).unwrap();
    assert_eq!(back.exit, Some(-1));
}

#[test]
fn error_display_mentions_category() {
    let hex = Osc7777ParseError::Hex("oops".into()).to_string();
    let json = Osc7777ParseError::Json("oops").to_string();
    assert!(hex.contains("hex"));
    assert!(json.contains("JSON"));
}

#[test]
fn boolean_field_toggles_roundtrip() {
    let md = BlockMetadata {
        git: Some(GitInfo {
            dirty: Some(false),
            ..Default::default()
        }),
        ..Default::default()
    };
    let hex = encode(&md);
    let back = parse(&hex).unwrap();
    assert_eq!(back.git.unwrap().dirty, Some(false));
}

#[test]
fn osc7777_round_trips_through_wire_format() {
    let md = BlockMetadata {
        cwd: Some("/home/nyxb".into()),
        git: Some(GitInfo {
            branch: Some("feat/inazuma-block-primitive".into()),
            dirty: Some(true),
            ahead: Some(1),
            behind: Some(0),
        }),
        user: Some("nyxb".into()),
        shell: Some("nu".into()),
        exit: Some(0),
        runtime_ms: Some(42),
        host: None,
    };
    let hex = osc7777::encode(&md);
    let back = osc7777::parse(&hex).unwrap();
    assert_eq!(back, md);
}

// ---- further cases ----

#[test]
fn encode_writes_exact_hex_of_json() {
    let md = BlockMetadata {
        cwd: Some("/x".into()),
        exit: Some(-7),
        ..Default::default()
    };
    let expected_json = r#"{"cwd":"/x","exit":-7}"#;
    assert_eq!(encode(&md), encode_hex(expected_json.as_bytes()));
    assert_eq!(encode_hex(&[0x00, 0x7b, 0xff]), "007bff");
}

#[test]
fn empty_metadata_encodes_to_empty_object() {
    assert_eq!(encode(&BlockMetadata::default()), "7b7d");
}

#[test]
fn control_characters_use_unicode_escape_and_read_back() {
    let md = BlockMetadata {
        user: Some("a\u{1}b\u{1f}".into()),
        ..Default::default()
    };
    let hex = encode(&md);
    assert_eq!(hex, encode_hex(br#"{"user":"a\u0001b\u001f"}"#));
    assert_eq!(parse(&hex), Ok(md));
}

#[test]
fn non_ascii_text_reads_back_whole() {
    let md = BlockMetadata {
        cwd: Some("/home/jörg/日本".into()),
        git: Some(GitInfo {
            branch: Some("fix-✓".into()),
            dirty: None,
            ahead: None,
            behind: None,
        }),
        host: Some("é\u{7f}\u{10348}".into()),
        ..Default::default()
    };
    assert_eq!(parse(&encode(&md)), Ok(md));
}

#[test]
fn unicode_escapes_are_read() {
    let hex = encode_hex(br#"{"cwd":"\u00e9\u00C9\u0041/\/"}"#);
    assert_eq!(parse(&hex).unwrap().cwd.as_deref(), Some("éÉA//"));
}

#[test]
fn bad_unicode_escapes_are_refused() {
    for json in [
        &br#"{"cwd":"\ud800"}"#[..],
        &br#"{"cwd":"\u12"}"#[..],
        &br#"{"cwd":"\u12zz"}"#[..],
        &br#"{"cwd":"\x41"}"#[..],
    ] {
        assert_eq!(
            parse(&encode_hex(json)),
            Err(Osc7777ParseError::Json("unsupported escape"))
        );
    }
}

#[test]
fn hex_errors_carry_their_reason() {
    assert_eq!(parse("abc"), Err(Osc7777ParseError::Hex("odd-length string".into())));
    assert_eq!(
        parse("zz"),
        Err(Osc7777ParseError::Hex("invalid digit found in string".into()))
    );
    assert_eq!(parse("ff"), Err(Osc7777ParseError::Hex("invalid utf8".into())));
    assert_eq!(parse("+7"), Err(Osc7777ParseError::Json("unexpected char")));
}

#[test]
fn uppercase_hex_is_accepted() {
    let back = parse("7B7D").unwrap();
    assert_eq!(back, BlockMetadata::default());
}

#[test]
fn number_overflow_is_reported_as_parse_int_error() {
    let hex = encode_hex(br#"{"exit":99999999999}"#);
    assert_eq!(
        parse(&hex),
        Err(Osc7777ParseError::Hex("number too large to fit in target type".into()))
    );
}

#[test]
fn display_text_names_the_category() {
    assert_eq!(Osc7777ParseError::Hex("x".into()).to_string(), "hex decode failed: x");
    assert_eq!(Osc7777ParseError::Json("y").to_string(), "JSON parse error: y");
}
