use relay_codegen::hashing::{hex_string, md5};

#[test]
fn md5_of_empty_text() {
    assert_eq!(md5(""), "d41d8cd98f00b204e9800998ecf8427e");
}

#[test]
fn md5_of_abc() {
    assert_eq!(md5("abc"), "900150983cd24fb0d6963f7d28e17f72");
}

#[test]
fn md5_is_lowercase_hex_of_sixteen_bytes() {
    let h = md5("query AppQuery { viewer { id } }");
    assert_eq!(h.len(), 32);
    assert!(h.chars().all(|c| c.is_ascii_digit() || ('a'..='f').contains(&c)));
}

#[test]
fn hex_string_puts_high_nibble_first() {
    assert_eq!(hex_string(&vec![0x00, 0xff, 0x1a, 0xa1]), "00ff1aa1");
    assert_eq!(hex_string(&vec![]), "");
}
