use simplesync::urlcode::{decode_is_safe, encode_path, urldecoding_decode, urlencoding_encode};

#[test]
fn encodes_segments() {
    assert_eq!(urlencoding_encode("abc-_.~XYZ019"), "abc-_.~XYZ019");
    assert_eq!(urlencoding_encode("a b"), "a%20b");
    assert_eq!(urlencoding_encode("a/b"), "a%2Fb");
    assert_eq!(urlencoding_encode("é"), "%C3%A9");
    assert_eq!(urlencoding_encode(""), "");
}

#[test]
fn encodes_paths_keeping_separators() {
    assert_eq!(encode_path("My Files/a b.txt"), "My%20Files/a%20b.txt");
    assert_eq!(encode_path("Fotos/Über/x#1.jpg"), "Fotos/%C3%9Cber/x%231.jpg");
    assert_eq!(encode_path("a//b"), "a//b");
}

#[test]
fn decodes_escapes() {
    assert_eq!(urldecoding_decode("a%20b"), "a b");
    assert_eq!(urldecoding_decode("%C3%A9t%C3%A9"), "été");
    assert_eq!(urldecoding_decode("%41%42"), "AB");
    assert_eq!(urldecoding_decode("%4"), "%4");
    assert_eq!(urldecoding_decode("%zz"), "%zz");
    assert_eq!(urldecoding_decode("%+5x"), "\u{5}x");
    assert_eq!(urldecoding_decode("100%"), "100%");
}

#[test]
fn decodes_invalid_utf8_with_replacement() {
    assert_eq!(urldecoding_decode("%FF"), "\u{FFFD}");
}

#[test]
fn decoding_inverts_encoding() {
    for s in ["", "a b", "Ünïcödé/ 100% €", "x%41", "~~..__--"] {
        assert_eq!(urldecoding_decode(&urlencoding_encode(s)), s);
        assert_eq!(urldecoding_decode(&encode_path(s)), s);
    }
}

#[test]
fn detects_escapes_that_cut_characters() {
    assert!(!decode_is_safe("%aé"));
    assert!(!decode_is_safe("%€"));
    assert!(decode_is_safe("%é"));
    assert!(decode_is_safe("plain"));
    assert_eq!(urldecoding_decode("%é"), "%é");
}
