//! Paths, texts and orders.

use std::path::Path;

use smartzip::order::limit_places;
use smartzip::path::{
    join, path_extension, path_file_name, path_file_stem, path_starts_with, same_path, strip_prefix,
};
use smartzip::text::{
    chars_of, decimal_width, ends_with, hex_encode, is_text_before, lowered_chars, push_decimal,
    push_hexadecimal, push_padded, push_padded_signed, push_signed, same_bytes, same_opt_text,
    same_text, text_of, text_of_range,
};

const PATHS: [&str; 22] = [
    "", "/", ".", "./", "..", "a", "a/", "./a", "/a", "//a", "/a/.", "/a/./b", "/a//b/", "a/b.c",
    "a/.b", "a/b.", "/a/..", "/a.tar.gz", "a/../b", "/.", "./.", "a/b/c",
];

#[test]
fn path_parts_agree_with_the_standard_library() {
    for p in PATHS {
        let std = Path::new(p);
        let part = |s: Option<&str>| s.map(|s| s.to_string());
        assert_eq!(path_file_name(p), part(std.file_name().and_then(|s| s.to_str())), "{p:?}");
        assert_eq!(path_extension(p), part(std.extension().and_then(|s| s.to_str())), "{p:?}");
        assert_eq!(path_file_stem(p), part(std.file_stem().and_then(|s| s.to_str())), "{p:?}");
    }
}

#[test]
fn path_relations_agree_with_the_standard_library() {
    for a in PATHS {
        for b in PATHS {
            let (x, y) = (Path::new(a), Path::new(b));
            assert_eq!(same_path(a, b), x == y, "{a:?} {b:?}");
            assert_eq!(path_starts_with(a, b), x.starts_with(y), "{a:?} {b:?}");
            assert_eq!(join(a, b), x.join(y).to_str().unwrap(), "{a:?} {b:?}");
            match (strip_prefix(a, b), x.strip_prefix(y)) {
                (Some(rest), Ok(expected)) => {
                    assert!(same_path(&rest, expected.to_str().unwrap()), "{a:?} {b:?}")
                }
                (None, Err(_)) => {}
                _ => panic!("{a:?} {b:?}"),
            }
        }
        assert_eq!(strip_prefix(a, a).as_deref(), Some(""));
    }
}

#[test]
fn numbers_are_written_out() {
    let written = |f: &dyn Fn(&mut String)| {
        let mut out = "n=".to_string();
        f(&mut out);
        out
    };
    assert_eq!(written(&|s| push_decimal(s, 0)), "n=0");
    assert_eq!(written(&|s| push_decimal(s, u64::MAX)), "n=18446744073709551615");
    assert_eq!(written(&|s| push_signed(s, i64::MIN)), "n=-9223372036854775808");
    assert_eq!(written(&|s| push_signed(s, 17)), "n=17");
    assert_eq!(written(&|s| push_hexadecimal(s, 0xdeadbeef, false)), "n=deadbeef");
    assert_eq!(written(&|s| push_hexadecimal(s, 0xdeadbeef, true)), "n=DEADBEEF");
    assert_eq!(written(&|s| push_padded(s, 7, 3)), "n=007");
    assert_eq!(written(&|s| push_padded(s, 1234, 3)), "n=1234");
    assert_eq!(written(&|s| push_padded_signed(s, -7, 4)), "n=-007");
    assert_eq!(written(&|s| push_padded_signed(s, 7, 4)), "n=0007");
    assert_eq!((decimal_width(9), decimal_width(10), decimal_width(u64::MAX)), (1, 2, 20));
    assert_eq!(hex_encode(&[0, 0x0f, 0xa5]), "000fa5");
}

#[test]
fn texts_are_taken_apart_and_put_together() {
    let chars = chars_of("gr\u{fc}n.ZIP");
    assert_eq!(text_of(&chars), "gr\u{fc}n.ZIP");
    assert_eq!(text_of_range(&chars, 1, 3), "r\u{fc}");
    assert!(ends_with(&chars, ".ZIP") && ends_with(&chars, "") && !ends_with(&chars, ".zip"));
    assert_eq!(text_of(&lowered_chars(&chars_of("\u{dc}B.ZIP"))), "\u{dc}b.zip");
}

#[test]
fn texts_compare_by_their_bytes() {
    let words = ["", "A", "a", "aa", "b", "\u{e9}", "\u{10348}", "\u{fffd}"];
    for a in words {
        for b in words {
            assert_eq!(same_text(a, b), a == b);
            assert_eq!(is_text_before(a, b), a < b);
            assert_eq!(same_bytes(a.as_bytes(), b.as_bytes()), a == b);
        }
    }
    assert!(same_opt_text(&None, &None));
    assert!(!same_opt_text(&Some("a".to_string()), &None));
}

#[test]
fn places_are_limited() {
    assert_eq!(limit_places(vec![4, 2, 9], 2), [4, 2]);
    assert_eq!(limit_places(vec![4], 2), [4]);
    assert!(limit_places(vec![4], 0).is_empty());
}
