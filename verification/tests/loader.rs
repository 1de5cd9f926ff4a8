use deptry_core::pipeline::FileError;

fn v(s: &[u8]) -> Vec<u8> {
    s.to_vec()
}

#[test]
fn utf8_input_is_returned_verbatim() {
    let bytes = v(b"import os\nprint('ok')\n");
    let out = deptry_core::encoding::decode_file_content(&bytes).unwrap();
    assert_eq!(out, bytes);
}

#[test]
fn utf8_multibyte_input_is_returned_verbatim() {
    let bytes = v("# caf\u{e9}\nimport os\n".as_bytes());
    let out = deptry_core::encoding::decode_file_content(&bytes).unwrap();
    assert_eq!(out, bytes);
}

#[test]
fn line_two_coding_declaration_is_honored() {
    // Latin-1 bytes: 0xE9 alone is not valid UTF-8, and line 2 declares
    // the encoding, so the loader must decode exactly as Latin-1 would.
    let bytes = v(b"# a comment\n# -*- coding: latin-1 -*-\nx = '\xe9'\n");
    let out = deptry_core::encoding::decode_file_content(&bytes).unwrap();
    let expected = v(b"# a comment\n# -*- coding: latin-1 -*-\nx = '\xc3\xa9'\n");
    assert_eq!(out, expected);
}

#[test]
fn line_one_coding_declaration_is_honored() {
    let bytes = v(b"# coding=latin-1\ns = '\xe9'\n");
    let out = deptry_core::encoding::decode_file_content(&bytes).unwrap();
    assert_eq!(out, v(b"# coding=latin-1\ns = '\xc3\xa9'\n"));
}

#[test]
fn declaration_after_line_two_is_ignored() {
    // The declaration sits on line 3, so the detector guesses instead;
    // for this byte in ASCII context the guess decodes it as a letter,
    // not as the Latin-1 identity the declaration would force.
    let bytes = v(b"# one\n# two\n# -*- coding: latin-1 -*-\nx = '\xe9'\n");
    let out = deptry_core::encoding::decode_file_content(&bytes).unwrap();
    assert_ne!(out, bytes);
    assert!(std::str::from_utf8(&out).is_ok());
}

#[test]
fn undeclared_encoding_falls_back_to_detection() {
    let bytes = v(b"x = '\xe9'\n");
    let out = deptry_core::encoding::decode_file_content(&bytes).unwrap();
    // Whatever the detector guessed, the result is lossless valid UTF-8
    // and differs from the raw (invalid) input.
    assert!(std::str::from_utf8(&out).is_ok());
    assert_ne!(out, bytes);
}

#[test]
fn lossy_decode_is_refused() {
    // The declaration names UTF-8, but the bytes are not valid UTF-8: the
    // decode would need replacement characters, so the loader fails
    // rather than substitute them.
    let bytes = v(b"# coding: utf-8\nx = '\xff'\n");
    let r = deptry_core::encoding::decode_file_content(&bytes);
    assert!(matches!(r, Err(FileError::DecodeFailure)));
}

#[test]
fn utf16_without_declaration_decodes_or_fails_cleanly() {
    // UTF-16LE bytes with a BOM; the detector may or may not resolve
    // this, but the loader must never hand back raw undecoded bytes.
    let bytes = v(b"\xff\xfei\x00m\x00p\x00o\x00r\x00t\x00 \x00o\x00s\x00\n\x00");
    match deptry_core::encoding::decode_file_content(&bytes) {
        Ok(out) => {
            assert!(std::str::from_utf8(&out).is_ok());
            assert_ne!(out, bytes);
        },
        Err(e) => assert!(matches!(e, FileError::DecodeFailure)),
    }
}
