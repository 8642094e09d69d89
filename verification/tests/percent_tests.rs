use pinentry_bitwarden::percent::percent_decode;
use pinentry_bitwarden::percent::percent_encode;

#[test]
fn encode_leaves_plain_bytes_alone() {
    let data = b"12345 hello".to_vec();
    assert_eq!(percent_encode(&data), b"12345 hello".to_vec());
}

#[test]
fn encode_escapes_percent_cr_lf() {
    let data = vec![37u8, 13, 10, 65];
    assert_eq!(percent_encode(&data), b"%25%0D%0AA".to_vec());
}

#[test]
fn encode_output_has_no_raw_escape_bytes() {
    let data = vec![37u8, 13, 10, 37, 37, 0, 255, 10, 13];
    let out = percent_encode(&data);
    for (i, b) in out.iter().enumerate() {
        assert!(*b != 13 && *b != 10);
        if *b == 37 {
            assert!(i + 2 < out.len());
            assert!(out[i + 1].is_ascii_hexdigit());
            assert!(out[i + 2].is_ascii_hexdigit());
        }
    }
}

#[test]
fn decode_inverts_encode() {
    let samples: Vec<Vec<u8>> = vec![
        vec![],
        b"plain".to_vec(),
        vec![37u8, 13, 10],
        vec![0u8, 1, 2, 3, 254, 255, 37, 37, 10, 13, 65],
        (0u8..=255).collect(),
    ];
    for data in samples {
        let encoded = percent_encode(&data);
        assert_eq!(percent_decode(&encoded), Some(data));
    }
}

#[test]
fn decode_accepts_lower_case_hex() {
    assert_eq!(percent_decode(&b"%0d%0a%25".to_vec()), Some(vec![13u8, 10, 37]));
}

#[test]
fn decode_plain_hex_digits() {
    assert_eq!(percent_decode(&b"%41B".to_vec()), Some(b"AB".to_vec()));
}

#[test]
fn decode_rejects_malformed_escape() {
    assert_eq!(percent_decode(&b"%G1".to_vec()), None);
    assert_eq!(percent_decode(&b"abc%4".to_vec()), None);
    assert_eq!(percent_decode(&b"tail%".to_vec()), None);
}
