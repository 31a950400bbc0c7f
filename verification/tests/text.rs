use gitcore::bytes::{append, copy_range, find_byte, rfind_byte, same_bytes};
use gitcore::error::GitError;
use gitcore::git::git_object_trait::GitObjectType;
use gitcore::git::git_tree::FileMode;
use gitcore::hexcode::{decode_hex, encode_hex, push_hex};
use gitcore::paths::{get_object_file_path, get_object_folder_path, join_path};
use gitcore::sha::Sha;
use gitcore::text::{
    from_utf8_with_context, parse_bytes_with_context, parse_u64, parse_with_context, push_decimal,
};

#[test]
fn hexadecimal_text_is_written_lowercase() {
    assert_eq!(encode_hex(&[0x00, 0x0f, 0xa5, 0xff]), "000fa5ff");
    assert_eq!(encode_hex(&[]), "");
    let mut out = b"x".to_vec();
    push_hex(&mut out, &[0xde, 0xad]);
    assert_eq!(out, b"xdead".to_vec());
}

#[test]
fn hexadecimal_text_of_either_case_is_read() {
    assert_eq!(decode_hex(b"000fa5ff"), Some(vec![0x00, 0x0f, 0xa5, 0xff]));
    assert_eq!(decode_hex(b"000FA5Ff"), Some(vec![0x00, 0x0f, 0xa5, 0xff]));
    assert_eq!(decode_hex(b""), Some(vec![]));
    assert_eq!(decode_hex(b"abc"), None);
    assert_eq!(decode_hex(b"zz"), None);
    assert_eq!(decode_hex(b"0 "), None);
}

#[test]
fn identity_is_written_and_read_in_hexadecimal() {
    let hex = "ce013625030ba8dba906f756967f9e9ca394464a";
    let sha = Sha::from_hex(hex.as_bytes()).unwrap();
    assert_eq!(sha.0[0], 0xce);
    assert_eq!(sha.0[19], 0x4a);
    assert_eq!(sha.to_hex(), hex);
    assert_eq!(sha.as_ref().to_vec(), sha.0.to_vec());
    assert_eq!(Sha::from_hex(hex.to_uppercase().as_bytes()), Ok(sha));
    assert_eq!(Sha::from_hex(b"xyz"), Err(GitError::InvalidHex));
    assert_eq!(Sha::from_hex(b"abc"), Err(GitError::InvalidHex));
    assert_eq!(Sha::from_hex(b"abcd"), Err(GitError::WrongHashLength));
    assert_eq!(Sha::from_hex(format!("{hex}00").as_bytes()), Err(GitError::WrongHashLength));
    assert_eq!(Sha::from_bytes(&[1u8; 20]), Ok(Sha([1u8; 20])));
    assert_eq!(Sha::from_bytes(&[1u8; 19]), Err(GitError::WrongHashLength));
    assert_eq!(Sha::from_bytes(&[1u8; 21]), Err(GitError::WrongHashLength));
    assert!(Sha([1u8; 20]) == Sha([1u8; 20]));
    assert!(Sha([1u8; 20]) != Sha([2u8; 20]));
}

#[test]
fn digest_of_known_inputs() {
    assert_eq!(Sha::digest(b"").unwrap().to_hex(), "da39a3ee5e6b4b0d3255bfef95601890afd80709");
    assert_eq!(Sha::digest(b"abc").unwrap().to_hex(), "a9993e364706816aba3e25717850c26c9cd0d89d");
    let long = vec![b'a'; 1000];
    assert_eq!(
        Sha::digest(&long).unwrap().to_hex(),
        "291e9a6c66994949b57ba5e650361e98fc36b1ba"
    );
}

#[test]
fn decimal_numbers_are_read() {
    assert_eq!(parse_u64(b"0"), Ok(0));
    assert_eq!(parse_u64(b"007"), Ok(7));
    assert_eq!(parse_u64(b"18446744073709551615"), Ok(u64::MAX));
    assert_eq!(parse_u64(b"18446744073709551616"), Err(GitError::InvalidNumber));
    assert_eq!(parse_u64(b"99999999999999999999999"), Err(GitError::InvalidNumber));
    assert_eq!(parse_u64(b""), Err(GitError::InvalidNumber));
    assert_eq!(parse_u64(b"+1"), Err(GitError::InvalidNumber));
    assert_eq!(parse_u64(b"1 "), Err(GitError::InvalidNumber));
    assert_eq!(parse_u64(b"12a"), Err(GitError::InvalidNumber));
}

#[test]
fn decimal_numbers_are_written() {
    for (n, text) in [(0u64, "0"), (9, "9"), (10, "10"), (12345, "12345"), (u64::MAX, "18446744073709551615")] {
        let mut out = b">".to_vec();
        push_decimal(&mut out, n);
        assert_eq!(out, format!(">{text}").into_bytes());
        assert_eq!(parse_u64(text.as_bytes()), Ok(n));
    }
}

#[test]
fn text_is_read_from_utf8() {
    assert_eq!(from_utf8_with_context(b"h\xc3\xa9".to_vec()), Ok("hé".to_string()));
    assert_eq!(from_utf8_with_context(vec![]), Ok(String::new()));
    assert_eq!(from_utf8_with_context(vec![0xc3]), Err(GitError::InvalidUtf8));
    assert_eq!(from_utf8_with_context(vec![0xff]), Err(GitError::InvalidUtf8));
}

#[test]
fn values_are_read_from_text() {
    assert_eq!(parse_with_context::<u64>("42"), Ok(42));
    assert_eq!(parse_with_context::<usize>("42"), Ok(42));
    assert_eq!(parse_with_context::<u64>("forty"), Err(GitError::InvalidNumber));
    assert_eq!(parse_with_context::<FileMode>("40000"), Ok(FileMode::Directory));
    assert_eq!(parse_with_context::<FileMode>("04000"), Err(GitError::UnknownMode));
    assert_eq!(parse_with_context::<GitObjectType>("commit"), Ok(GitObjectType::Commit));
    assert_eq!(parse_with_context::<GitObjectType>("Commit"), Err(GitError::UnknownType));
    assert_eq!(parse_bytes_with_context::<u64>(b"17".to_vec()), Ok(17));
    assert_eq!(parse_bytes_with_context::<FileMode>(b"100755".to_vec()), Ok(FileMode::Executable));
    assert_eq!(parse_bytes_with_context::<u64>(vec![b'1', 0xff]), Err(GitError::InvalidUtf8));
    assert_eq!(parse_bytes_with_context::<FileMode>(b"1".to_vec()), Err(GitError::UnknownMode));
}

#[test]
fn object_paths() {
    let sha = "ce013625030ba8dba906f756967f9e9ca394464a";
    assert_eq!(get_object_folder_path(sha, "."), "./.git/objects/ce");
    assert_eq!(get_object_file_path(sha, "."), "./.git/objects/ce/013625030ba8dba906f756967f9e9ca394464a");
    assert_eq!(get_object_folder_path(sha, "/repo/"), "/repo/.git/objects/ce");
    assert_eq!(get_object_folder_path(sha, ""), ".git/objects/ce");
    assert_eq!(get_object_file_path(sha, "répo"), "répo/.git/objects/ce/013625030ba8dba906f756967f9e9ca394464a");
    assert_eq!(join_path("a", "b"), "a/b");
    assert_eq!(join_path("a/", "b"), "a/b");
    assert_eq!(join_path("", "b"), "b");
    assert_eq!(join_path("a", ""), "a/");
}

#[test]
fn byte_helpers() {
    let mut v = b"ab".to_vec();
    append(&mut v, b"cd");
    assert_eq!(v, b"abcd".to_vec());
    assert_eq!(copy_range(b"abcdef", 2, 4), b"cd".to_vec());
    assert_eq!(copy_range(b"abcdef", 6, 6), Vec::<u8>::new());
    assert_eq!(find_byte(b"a b c", 0, b' '), 1);
    assert_eq!(find_byte(b"a b c", 2, b' '), 3);
    assert_eq!(find_byte(b"a b c", 4, b' '), 5);
    assert_eq!(find_byte(b"", 0, b' '), 0);
    assert_eq!(rfind_byte(b"a b c", 5, b' '), 4);
    assert_eq!(rfind_byte(b"a b c", 3, b' '), 2);
    assert_eq!(rfind_byte(b"a b c", 1, b' '), 0);
    assert!(same_bytes(b"abc", b"abc"));
    assert!(!same_bytes(b"abc", b"abd"));
    assert!(!same_bytes(b"abc", b"ab"));
    assert!(same_bytes(b"", b""));
}
