use zero2prod::codec::{decode, encode, encode_header_list, decode_header_list, CodecError, HeaderPair, HttpResponse, SavedResponse};

fn text_response() -> HttpResponse {
    HttpResponse {
        status: 200,
        headers: vec![HeaderPair { name: b"Content-Type".to_vec(), value: b"text/plain".to_vec() }],
        body: b"ok".to_vec(),
    }
}

#[test]
fn stored_response_replays_status_headers_and_body() {
    let saved = encode(&text_response());
    let replayed = decode(&saved).expect("a stored response decodes");
    assert_eq!(replayed.status, 200);
    assert_eq!(replayed.headers.len(), 1);
    assert_eq!(replayed.headers[0].name, b"Content-Type".to_vec());
    assert_eq!(replayed.headers[0].value, b"text/plain".to_vec());
    assert_eq!(replayed.body, b"ok".to_vec());
}

#[test]
fn header_column_is_length_prefixed() {
    let headers = vec![HeaderPair { name: b"ab".to_vec(), value: b"c".to_vec() }];
    let bytes = encode_header_list(&headers);
    assert_eq!(bytes, vec![2, 0, 0, 0, 0, 0, 0, 0, b'a', b'b', 1, 0, 0, 0, 0, 0, 0, 0, b'c']);
}

#[test]
fn header_order_is_kept() {
    let headers = vec![
        HeaderPair { name: b"b".to_vec(), value: b"2".to_vec() },
        HeaderPair { name: b"a".to_vec(), value: b"1".to_vec() },
        HeaderPair { name: b"b".to_vec(), value: b"3".to_vec() },
    ];
    let back = decode_header_list(&encode_header_list(&headers)).unwrap();
    let pairs: Vec<(Vec<u8>, Vec<u8>)> = back.into_iter().map(|h| (h.name, h.value)).collect();
    assert_eq!(
        pairs,
        vec![
            (b"b".to_vec(), b"2".to_vec()),
            (b"a".to_vec(), b"1".to_vec()),
            (b"b".to_vec(), b"3".to_vec())
        ]
    );
}

#[test]
fn empty_header_list_round_trips() {
    let bytes = encode_header_list(&Vec::new());
    assert!(bytes.is_empty());
    assert_eq!(decode_header_list(&bytes).unwrap().len(), 0);
}

#[test]
fn status_outside_three_digits_is_refused() {
    let saved = SavedResponse { status_code: 99, headers: Vec::new(), body: Vec::new() };
    assert_eq!(decode(&saved).err(), Some(CodecError::InvalidStatusCode));
    let saved = SavedResponse { status_code: 1000, headers: Vec::new(), body: Vec::new() };
    assert_eq!(decode(&saved).err(), Some(CodecError::InvalidStatusCode));
}

#[test]
fn truncated_header_column_is_refused() {
    let mut bytes = encode_header_list(&vec![HeaderPair { name: b"x".to_vec(), value: b"yz".to_vec() }]);
    bytes.pop();
    let saved = SavedResponse { status_code: 200, headers: bytes, body: Vec::new() };
    assert_eq!(decode(&saved).err(), Some(CodecError::MalformedHeaders));
    assert!(decode_header_list(&vec![1, 2, 3]).is_none());
}
