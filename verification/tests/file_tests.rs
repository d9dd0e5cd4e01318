use std::io::{Read, Seek, SeekFrom, Write};
use std::path::Path;

use hashattr::digest::{HashError, MultiHasher};
use hashattr::file::{xattr_name, File};

const FAKEHASH: &'static str = "notarealhash";
const SHA512: &'static str = "sha512";
const BLAKE2B: &'static str = "blake2b512";
const DEFAULT_HASHES: [&'static str; 2] = [SHA512, BLAKE2B];

/// Reads `file` in blocks of 4096 bytes, as the tool does, feeding each
/// block to the hashers.
fn digests_of<R: Read + Seek>(file: &mut R, names: &[&str]) -> Result<Vec<(String, Vec<u8>)>, HashError> {
    let mut hasher = MultiHasher::new(names)?;
    file.seek(SeekFrom::Start(0)).unwrap();
    loop {
        let mut buf = [0u8; 4096];
        let amount = file.read(&mut buf).unwrap();
        if amount == 0 {
            break;
        }
        hasher = hasher.update(&buf[..amount])?;
    }
    hasher.finish()
}

fn lookup<'a>(result: &'a [(String, Vec<u8>)], name: &str) -> &'a Vec<u8> {
    &result.iter().find(|(n, _)| n == name).unwrap().1
}

#[test]
fn test_new() {
    let tempfile = tempfile::NamedTempFile::new().unwrap();
    let path: &Path = tempfile.path();

    let file = File::new(path.to_str().unwrap());
    assert_eq!(Path::new(file.path()), path);
}

#[test]
fn test_find_hashes_empty_happy_path() {
    let sha512_empty: Vec<u8> = vec![
        0xcf, 0x83, 0xe1, 0x35, 0x7e, 0xef, 0xb8, 0xbd, 0xf1, 0x54, 0x28, 0x50, 0xd6, 0x6d,
        0x80, 0x07, 0xd6, 0x20, 0xe4, 0x05, 0x0b, 0x57, 0x15, 0xdc, 0x83, 0xf4, 0xa9, 0x21,
        0xd3, 0x6c, 0xe9, 0xce, 0x47, 0xd0, 0xd1, 0x3c, 0x5d, 0x85, 0xf2, 0xb0, 0xff, 0x83,
        0x18, 0xd2, 0x87, 0x7e, 0xec, 0x2f, 0x63, 0xb9, 0x31, 0xbd, 0x47, 0x41, 0x7a, 0x81,
        0xa5, 0x38, 0x32, 0x7a, 0xf9, 0x27, 0xda, 0x3e];
    let blake2b_empty: Vec<u8> = vec![
        0x78, 0x6a, 0x02, 0xf7, 0x42, 0x01, 0x59, 0x03, 0xc6, 0xc6, 0xfd, 0x85, 0x25, 0x52,
        0xd2, 0x72, 0x91, 0x2f, 0x47, 0x40, 0xe1, 0x58, 0x47, 0x61, 0x8a, 0x86, 0xe2, 0x17,
        0xf7, 0x1f, 0x54, 0x19, 0xd2, 0x5e, 0x10, 0x31, 0xaf, 0xee, 0x58, 0x53, 0x13, 0x89,
        0x64, 0x44, 0x93, 0x4e, 0xb0, 0x4b, 0x90, 0x3a, 0x68, 0x5b, 0x14, 0x48, 0xb7, 0x55,
        0xd5, 0x6f, 0x70, 0x1a, 0xfe, 0x9b, 0xe2, 0xce];

    let tempfile = tempfile::NamedTempFile::new().unwrap();
    let mut handle = tempfile.reopen().unwrap();

    let maybe_result = digests_of(&mut handle, &DEFAULT_HASHES);
    assert!(maybe_result.is_ok());

    let result = maybe_result.unwrap();
    assert_eq!(result.len(), 2);
    assert_eq!(*lookup(&result, SHA512), sha512_empty);
    assert_eq!(*lookup(&result, BLAKE2B), blake2b_empty);
}

#[test]
fn test_find_hashes_happy_path() {
    let blake2b: Vec<u8> = vec![
        0x80, 0xfe, 0x13, 0x86, 0x08, 0x15, 0xf4, 0xa0, 0x18, 0xad, 0x50, 0x75, 0xbf, 0xb6,
        0x84, 0x4c, 0xa2, 0x4b, 0x59, 0x63, 0xb6, 0x06, 0x4a, 0x3b, 0x39, 0x12, 0x24, 0x0a,
        0x58, 0x24, 0xba, 0x34, 0xef, 0x71, 0xd2, 0xe3, 0x28, 0x70, 0xaf, 0x66, 0xb1, 0x05,
        0x4c, 0x94, 0xd6, 0x54, 0x36, 0x44, 0x6f, 0xff, 0x8c, 0xa8, 0x44, 0x66, 0x7d, 0xe5,
        0x0e, 0xf8, 0xf7, 0x00, 0xf9, 0x23, 0x43, 0x01];
    let sha512: Vec<u8> = vec![
        0x09, 0xe1, 0xe2, 0xa8, 0x4c, 0x92, 0xb5, 0x6c, 0x82, 0x80, 0xf4, 0xa1, 0x20, 0x3c,
        0x7c, 0xff, 0xd6, 0x1b, 0x16, 0x2c, 0xfe, 0x98, 0x72, 0x78, 0xd4, 0xd6, 0xbe, 0x9a,
        0xfb, 0xf3, 0x8c, 0x0e, 0x89, 0x34, 0xcd, 0xad, 0xf8, 0x37, 0x51, 0xf4, 0xe9, 0x9d,
        0x11, 0x13, 0x52, 0xbf, 0xfe, 0xfc, 0x95, 0x8e, 0x5a, 0x48, 0x52, 0xc8, 0xa7, 0xa2,
        0x9c, 0x95, 0x74, 0x2c, 0xe5, 0x92, 0x88, 0xa8];

    let mut tempfile = tempfile::NamedTempFile::new().unwrap();
    tempfile.write_all(b"Hello, world!\n").expect("write failed");
    let mut handle = tempfile.reopen().unwrap();

    let maybe_result = digests_of(&mut handle, &DEFAULT_HASHES);
    assert!(maybe_result.is_ok());

    let result = maybe_result.unwrap();
    assert_eq!(result.len(), 2);
    assert_eq!(*lookup(&result, SHA512), sha512);
    assert_eq!(*lookup(&result, BLAKE2B), blake2b);
}

#[test]
fn test_find_hashes_invalid_hash() {
    let tempfile = tempfile::NamedTempFile::new().unwrap();
    let mut handle = tempfile.reopen().unwrap();

    assert!(digests_of(&mut handle, &[FAKEHASH]).is_err());
    assert!(digests_of(&mut handle, &[SHA512, BLAKE2B, FAKEHASH]).is_err());
}

#[test]
fn unknown_hash_error_names_the_first_unknown_algorithm() {
    match MultiHasher::new(&[SHA512, FAKEHASH, "alsonotahash"]) {
        Err(HashError::UnknownHash(name)) => assert_eq!(name, FAKEHASH),
        _ => panic!("expected an unknown hash"),
    }
}

#[test]
fn from_digests_reports_first_missing_lookup() {
    let md = openssl::hash::MessageDigest::sha512();
    match MultiHasher::from_digests(&["a", "b", "c"], vec![Some(md), None, None]) {
        Err(HashError::UnknownHash(name)) => assert_eq!(name, "b"),
        _ => panic!("expected an unknown hash"),
    }
    let out = MultiHasher::from_digests(&["a"], vec![Some(md)]).ok().unwrap().finish().ok().unwrap();
    assert_eq!(out.len(), 1);
    assert_eq!(out[0].0, "a");
    assert_eq!(out[0].1, openssl::hash::hash(md, b"").unwrap().to_vec());
}

#[test]
fn digests_in_chunks_equal_digests_at_once() {
    let data: Vec<u8> = (0..10000u32).map(|i| (i % 251) as u8).collect();
    let whole = MultiHasher::new(&["sha256", "md5"]).ok().unwrap();
    let whole = whole.update(&data).ok().unwrap();
    let whole = whole.finish().ok().unwrap();

    let mut parts = MultiHasher::new(&["sha256", "md5"]).ok().unwrap();
    for chunk in data.chunks(777) {
        parts = parts.update(chunk).ok().unwrap();
    }
    let parts = parts.finish().ok().unwrap();

    assert_eq!(whole, parts);
    assert_eq!(whole[0].0, "sha256");
    assert_eq!(whole[1].0, "md5");
    let expected = openssl::hash::hash(openssl::hash::MessageDigest::sha256(), &data).unwrap().to_vec();
    assert_eq!(whole[0].1, expected);
}

#[test]
fn sha256_of_abc() {
    let m = MultiHasher::new(&["sha256"]).ok().unwrap();
    let m = m.update(b"abc").ok().unwrap();
    let out = m.finish().ok().unwrap();
    assert_eq!(
        hashattr::hex::hex_string(&out[0].1),
        "ba7816bf8f01cfea414140de5dae2223b00361a396177a9cb410ff61f20015ad"
    );
}

#[test]
fn xattr_names_are_prefixed() {
    assert_eq!(xattr_name("sha512"), "user.hash.sha512");
    assert_eq!(xattr_name(""), "user.hash.");
}

#[test]
fn get_attr_accepts_only_unchanged_sizes() {
    assert_eq!(File::get_attr(5, 5, b"dummy".to_vec()).ok().unwrap(), b"dummy".to_vec());
    assert!(File::get_attr(5, 4, b"dummy".to_vec()).is_err());
    assert!(File::get_attr(0, 3, Vec::new()).is_err());
    assert_eq!(File::get_attr(0, 0, Vec::new()).ok().unwrap(), Vec::<u8>::new());
}

#[test]
fn get_attr_hex_of_stored_value() {
    const HASH_VAL: &[u8; 5] = b"dummy";
    const HASH_HEX: &str = "64756d6d79";
    let hex: Result<String, i32> = File::get_attr_hex(Ok(HASH_VAL.to_vec()));
    assert_eq!(hex.unwrap(), HASH_HEX);
    let failed: Result<String, i32> = File::get_attr_hex(Err(61));
    assert_eq!(failed, Err(61));
}

#[test]
fn no_algorithms_never_fail() {
    let m = MultiHasher::new(&[]).ok().unwrap();
    let m = m.update(b"some bytes").ok().unwrap();
    let out = m.finish().ok().unwrap();
    assert!(out.is_empty());
}

#[test]
fn no_names_give_no_digests() {
    let m = MultiHasher::new(&[]).ok().unwrap();
    assert!(m.finish().ok().unwrap().is_empty());
    assert!(MultiHasher::from_digests(&[], Vec::new()).is_ok());
    assert!(matches!(MultiHasher::new(&["sha\0512"]), Err(HashError::UnknownHash(_))));
}

#[test]
fn digests_do_not_depend_on_order_or_company() {
    let data = b"the same bytes";
    let run = |names: &[&str]| {
        let m = MultiHasher::new(names).ok().unwrap();
        m.update(data).ok().unwrap().finish().ok().unwrap()
    };
    let ab = run(&["sha256", "md5"]);
    let ba = run(&["md5", "sha256"]);
    let a = run(&["sha256"]);
    assert_eq!(ab[0], ba[1]);
    assert_eq!(ab[1], ba[0]);
    assert_eq!(ab[0], a[0]);
}

#[test]
fn unknown_hash_message_names_the_algorithm() {
    match MultiHasher::new(&[SHA512, FAKEHASH]) {
        Err(e) => assert_eq!(e.not_found_message().ok().unwrap(), "unknown hash notarealhash"),
        Ok(_) => panic!("expected an unknown hash"),
    }
}
