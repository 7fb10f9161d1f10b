use sozune_redirectionio::host::{
    host_header, host_list, host_text, pair_headers, read_request_headers, read_via,
    request_header_names, request_header_values, scheme, split_nul, HEADER_NAMES_CAPACITY,
    HEADER_VALUES_CAPACITY,
};

/// Write `bytes` to the start of `buf`, as far as they fit.
fn written(mut buf: Vec<u8>, bytes: &[u8]) -> Vec<u8> {
    let n = bytes.len().min(buf.len());
    buf[..n].copy_from_slice(&bytes[..n]);
    buf
}

#[test]
fn read_via_takes_what_the_host_reports() {
    let text = read_via(16, |buf| (written(buf, b"GET\0junk"), 3));
    assert_eq!(text, "GET");
}

#[test]
fn read_via_hands_out_a_blank_buffer_of_the_capacity() {
    let text = read_via(4, |buf| {
        assert_eq!(buf, vec![0u8; 4]);
        (buf, 0)
    });
    assert_eq!(text, "");
}

#[test]
fn a_negative_length_reads_as_empty() {
    assert_eq!(read_via(16, |buf| (written(buf, b"GET"), -1)), "");
}

#[test]
fn a_length_beyond_the_capacity_is_cut() {
    assert_eq!(read_via(4, |buf| (written(buf, b"/long/path"), 10)), "/lon");
    assert_eq!(host_text(b"abcdef".to_vec(), 100, 3), "abc");
    assert_eq!(host_text(b"ab".to_vec(), 100, 3), "ab");
}

#[test]
fn text_that_is_not_utf8_reads_as_empty() {
    assert_eq!(host_text(vec![b'a', 0xff, b'b'], 3, 16), "");
    assert_eq!(host_text("é".as_bytes().to_vec(), 2, 16), "é");
    assert_eq!(host_text("é".as_bytes().to_vec(), 1, 16), "");
}

#[test]
fn split_nul_drops_empty_fields() {
    assert_eq!(split_nul(b"a\0bc\0\0d\0"), vec!["a", "bc", "d"]);
    assert_eq!(split_nul(b"\0\0"), Vec::<String>::new());
    assert_eq!(split_nul(b""), Vec::<String>::new());
    assert_eq!(split_nul(b"last"), vec!["last"]);
}

#[test]
fn split_nul_repairs_malformed_text() {
    assert_eq!(split_nul(&[b'a', 0xff, 0, b'b']), vec!["a\u{FFFD}", "b"]);
    assert_eq!(split_nul("é\0".as_bytes()), vec!["é"]);
}

#[test]
fn a_list_that_the_host_writes_reads_back() {
    let names = ["host", "accept", "x-forwarded-for"];
    let mut bytes = Vec::new();
    for name in names {
        bytes.extend_from_slice(name.as_bytes());
        bytes.push(0);
    }
    assert_eq!(split_nul(&bytes), names);
}

#[test]
fn only_the_low_half_of_a_list_result_is_its_length() {
    let count_of_two_and_length_of_four = (2i64 << 32) | 4;
    assert_eq!(
        host_list(b"a\0b\0c\0".to_vec(), count_of_two_and_length_of_four, 16),
        vec!["a", "b"]
    );
    assert_eq!(host_list(b"a\0b\0".to_vec(), -1, 16), vec!["a", "b"]);
    assert_eq!(host_list(b"a\0b\0".to_vec(), i64::MAX, 2), vec!["a"]);
    assert_eq!(host_list(b"a\0".to_vec(), 1i64 << 32, 16), Vec::<String>::new());
}

#[test]
fn header_reads_use_their_own_buffers() {
    let names = request_header_names(|buf| {
        assert_eq!(buf.len(), HEADER_NAMES_CAPACITY);
        (written(buf, b"host\0accept\0"), 12)
    });
    assert_eq!(names, vec!["host", "accept"]);
    let values = request_header_values("accept", |name, buf| {
        assert_eq!(name, "accept");
        assert_eq!(buf.len(), HEADER_VALUES_CAPACITY);
        (written(buf, b"a/b\0c/d\0"), 8)
    });
    assert_eq!(values, vec!["a/b", "c/d"]);
}

#[test]
fn request_headers_pair_each_value_with_its_name() {
    let headers = read_request_headers(
        || vec!["a".to_string(), "b".to_string(), "c".to_string()],
        |name| match name {
            "a" => vec!["1".to_string(), "2".to_string()],
            "c" => vec!["3".to_string()],
            _ => Vec::new(),
        },
    );
    assert_eq!(
        headers,
        vec![
            ("a".to_string(), "1".to_string()),
            ("a".to_string(), "2".to_string()),
            ("c".to_string(), "3".to_string()),
        ]
    );
}

#[test]
fn no_names_pair_to_no_headers() {
    assert!(pair_headers(&Vec::new(), &Vec::new()).is_empty());
}

#[test]
fn every_request_counts_as_https() {
    assert_eq!(scheme(), "https");
}

#[test]
fn the_host_stands_in_the_host_header() {
    assert_eq!(host_header(), "host");
}

#[test]
fn listed_texts_are_not_empty_and_hold_no_nul() {
    let list = split_nul(&[0xff, 0, 0, 0xc0, 0x80, 0, b'a', 0xed, 0xa0, 0x80]);
    assert_eq!(list.len(), 3);
    for text in list {
        assert!(!text.is_empty());
        assert!(!text.contains('\0'));
    }
}
