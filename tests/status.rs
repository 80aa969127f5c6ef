use qtvstat::{StatusError, parse_status87_response, status87_command, status_from_reply};

#[test]
fn test_parse_status87_response() {
    // invalid response
    assert_eq!(
        parse_status87_response(br#"\invalid\response"#).unwrap_err().message(),
        "header is missing"
    );

    // valid response
    let response = [
        vec![255; 4],
        br#"n\*version\QTV 1.14\maxclients\100\hostname\QUAKE.SE KTX Qtv"#.to_vec(),
    ]
    .concat();
    let text = parse_status87_response(&response).unwrap();
    assert_eq!(text, r#"\*version\QTV 1.14\maxclients\100\hostname\QUAKE.SE KTX Qtv"#);
    assert!(text.contains(r#"\hostname\QUAKE.SE KTX Qtv"#));
    assert!(text.contains(r#"\maxclients\100"#));
    assert!(text.contains(r#"\*version\QTV 1.14"#));
}

#[test]
fn request_is_out_of_band_status_87() {
    let mut expected = vec![255u8, 255, 255, 255];
    expected.extend_from_slice(b"status 87");
    assert_eq!(status87_command(), expected);
}

#[test]
fn short_or_wrong_headers_are_refused() {
    let cases: Vec<&[u8]> = vec![
        b"",
        &[255, 255, 255, 255],
        &[255, 255, 255, 254, b'n'],
        &[255, 255, 255, 255, b'm', b'x'],
        &[0, 255, 255, 255, 255, b'n'],
    ];
    for case in cases {
        assert_eq!(parse_status87_response(case), Err(StatusError::HeaderMissing));
    }
}

#[test]
fn header_alone_gives_empty_text() {
    assert_eq!(parse_status87_response(&[255, 255, 255, 255, b'n']), Ok(String::new()));
}

#[test]
fn invalid_utf8_is_replaced() {
    let reply = [255, 255, 255, 255, b'n', b'a', 0xC3, b'b'];
    assert_eq!(parse_status87_response(&reply), Ok("a\u{FFFD}b".to_string()));
}

#[test]
fn missing_reply_names_the_address() {
    let r = status_from_reply("qtv.example:28000", None);
    assert_eq!(
        r,
        Err(StatusError::NoReply { address: "qtv.example:28000".to_string() })
    );
    assert_eq!(
        r.unwrap_err().message(),
        "qtvstat::info: unable to get status 87 from qtv.example:28000"
    );
}

#[test]
fn reply_is_parsed_after_header() {
    let reply = vec![255, 255, 255, 255, b'n', b'\\', b'k', b'\\', b'v'];
    assert_eq!(status_from_reply("h", Some(reply)), Ok("\\k\\v".to_string()));
    assert_eq!(
        status_from_reply("h", Some(b"xyz".to_vec())),
        Err(StatusError::HeaderMissing)
    );
}
