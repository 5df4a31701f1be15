use mls_sim::json_text::{encode_integer_key, encode_json_string, push_decimal_bytes, trim_float};
use mls_sim::lua_text::{hex_string, lua_bytes_to_text, md5_hex};

fn json(bytes: &[u8]) -> Vec<u8> {
    let mut buf = Vec::new();
    encode_json_string(bytes, &mut buf);
    buf
}

#[test]
fn json_strings_escape_what_json_requires() {
    assert_eq!(json(b"plain"), b"\"plain\"".to_vec());
    assert_eq!(json(b"a\"b\\c"), b"\"a\\\"b\\\\c\"".to_vec());
    assert_eq!(json(b"\n\r\t"), b"\"\\n\\r\\t\"".to_vec());
    assert_eq!(json(&[0x01, 0x1f]), b"\"\\u0001\\u001f\"".to_vec());
    assert_eq!(json(&[0xe4, 0xbd, 0xa0, 0xff]), vec![b'"', 0xe4, 0xbd, 0xa0, 0xff, b'"']);
    assert_eq!(json(b""), b"\"\"".to_vec());
}

#[test]
fn integers_and_integer_keys() {
    let mut buf = Vec::new();
    push_decimal_bytes(&mut buf, -1234);
    assert_eq!(buf, b"-1234".to_vec());
    let mut buf = Vec::new();
    push_decimal_bytes(&mut buf, i64::MIN);
    assert_eq!(buf, i64::MIN.to_string().into_bytes());
    let mut buf = b"{".to_vec();
    encode_integer_key(&mut buf, 7);
    assert_eq!(buf, b"{\"7\"".to_vec());
}

#[test]
fn trim_float_removes_zeros_and_zero_exponent() {
    assert_eq!(trim_float(&format!("{:.14e}", 150.0f64)), "1.5e2");
    assert_eq!(trim_float(&format!("{:.14e}", 1.0f64)), "1");
    assert_eq!(trim_float(&format!("{:.14e}", 0.25f64)), "2.5e-1");
    assert_eq!(trim_float(&format!("{:.14e}", 1.0e20f64)), "1e20");
    assert_eq!(trim_float("3.10000E0"), "3.1");
    assert_eq!(trim_float("12345"), "12345");
    assert_eq!(trim_float("1.5"), "1.5");
    assert_eq!(trim_float("e1.0"), "e1.0");
}

#[test]
fn lua_strings_become_text() {
    assert_eq!(lua_bytes_to_text("héllo 你好".as_bytes()), "héllo 你好");
    assert_eq!(lua_bytes_to_text(&[0x61, 0xff, 0x62]), "a\\u00ffb");
    assert_eq!(lua_bytes_to_text(&[0xe4, 0xbd]), "\\u00e4\\u00bd");
    assert_eq!(lua_bytes_to_text(&[0xff, 0xe4, 0xbd, 0xa0]), "\\u00ff你");
    assert_eq!(lua_bytes_to_text(&[0x80, 0x41]), "\\u0080A");
    assert_eq!(lua_bytes_to_text(&[]), "");
}

#[test]
fn md5_of_abc() {
    assert_eq!(md5_hex(b"abc"), "900150983cd24fb0d6963f7d28e17f72");
    assert_eq!(md5_hex(b""), "d41d8cd98f00b204e9800998ecf8427e");
    assert_eq!(hex_string(&[0x00, 0xab, 0x10]), "00ab10");
}
