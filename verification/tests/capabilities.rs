use neutron_vfs::fs::{exact_transfer, Readable, Writable, SHORT_TRANSFER};
use neutron_vfs::memory::{MemoryFile, FILE_TOO_LARGE, OFFSET_OUT_OF_RANGE};

fn file(text: &str, burst: usize) -> MemoryFile {
    MemoryFile::new(text.as_bytes().to_vec(), burst)
}

#[test]
fn plain_read_moves_what_fits() {
    let f = file("hello world", 64);
    let mut buf = [0u8; 5];
    assert_eq!(f.read_at(&mut buf, 0), Ok(5));
    assert_eq!(&buf, b"hello");
    assert_eq!(f.read_at(&mut buf, 8), Ok(3));
    assert_eq!(&buf, b"rldlo");
    assert_eq!(f.read_at(&mut buf, 11), Ok(0));
    assert_eq!(f.read_at(&mut buf, 12), Err(OFFSET_OUT_OF_RANGE));
    assert_eq!(f.read_at(&mut buf, u64::MAX), Err(OFFSET_OUT_OF_RANGE));
    assert_eq!(&buf, b"rldlo");
}

#[test]
fn plain_read_is_cut_by_the_burst() {
    let f = file("hello world", 3);
    let mut buf = [0u8; 5];
    assert_eq!(f.read_at(&mut buf, 6), Ok(3));
    assert_eq!(&buf, b"wor\0\0");
}

#[test]
fn exact_read_of_a_full_transfer_succeeds() {
    let f = file("hello world", 64);
    let mut buf = [0u8; 5];
    assert_eq!(f.read_exact_at(&mut buf, 6), Ok(()));
    assert_eq!(&buf, b"world");
    let mut none = [0u8; 0];
    assert_eq!(f.read_exact_at(&mut none, 11), Ok(()));
}

#[test]
fn exact_read_of_a_short_transfer_fails() {
    let f = file("hello world", 3);
    let mut buf = [0u8; 5];
    assert_eq!(f.read_exact_at(&mut buf, 0), Err(SHORT_TRANSFER));
    let mut small = [0u8; 3];
    assert_eq!(f.read_exact_at(&mut small, 0), Ok(()));
    assert_eq!(&small, b"hel");
}

#[test]
fn exact_read_past_the_end_fails() {
    let f = file("hello", 64);
    let mut buf = [0u8; 8];
    assert_eq!(f.read_exact_at(&mut buf, 0), Err(SHORT_TRANSFER));
    assert_eq!(f.read_exact_at(&mut buf, 6), Err(OFFSET_OUT_OF_RANGE));
}

#[test]
fn read_all_gives_the_text() {
    assert_eq!(file("hello world", 1).read_all(), "hello world");
    assert_eq!(file("données", 64).read_all(), "données");
    assert_eq!(file("", 64).read_all(), "");
}

#[test]
fn plain_write_overwrites_and_extends() {
    let mut f = file("hello world", 64);
    assert_eq!(f.write_at(b"J", 0), Ok(1));
    assert_eq!(f.as_bytes(), b"Jello world");
    assert_eq!(f.write_at(b"lds!", 9), Ok(4));
    assert_eq!(f.as_bytes(), b"Jello worlds!");
    assert_eq!(f.write_at(b"?", 13), Ok(1));
    assert_eq!(f.as_bytes(), b"Jello worlds!?");
    assert_eq!(f.write_at(b"x", 15), Err(OFFSET_OUT_OF_RANGE));
    assert_eq!(f.as_bytes(), b"Jello worlds!?");
    assert_eq!(f.write_at(b"", 3), Ok(0));
    assert_eq!(f.as_bytes(), b"Jello worlds!?");
}

#[test]
fn plain_write_is_cut_by_the_burst() {
    let mut f = file("hello world", 2);
    assert_eq!(f.write_at(b"WORLD", 6), Ok(2));
    assert_eq!(f.as_bytes(), b"hello WOrld");
}

#[test]
fn exact_write_of_a_full_transfer_succeeds() {
    let mut f = file("hello world", 64);
    assert_eq!(f.write_all_at(b"WORLD", 6), Ok(()));
    assert_eq!(f.as_bytes(), b"hello WORLD");
    assert_eq!(f.write_all_at(b"!!", 11), Ok(()));
    assert_eq!(f.as_bytes(), b"hello WORLD!!");
}

#[test]
fn exact_write_of_a_short_transfer_fails() {
    let mut f = file("hello world", 2);
    assert_eq!(f.write_all_at(b"WORLD", 6), Err(SHORT_TRANSFER));
    assert_eq!(f.write_all_at(b"x", 40), Err(OFFSET_OUT_OF_RANGE));
    assert_eq!(f.write_all_at(b"WO", 6), Ok(()));
    assert_eq!(f.as_bytes(), b"hello WOrld");
}

#[test]
fn rewrite_replaces_everything() {
    let mut f = file("hello world", 64);
    f.rewrite(b"new");
    assert_eq!(f.as_bytes(), b"new");
    assert_eq!(f.read_all(), "new");
    f.rewrite(b"");
    assert_eq!(f.as_bytes(), b"");
}

#[test]
fn exact_transfer_by_outcome() {
    assert_eq!(exact_transfer(4, Ok(4)), Ok(()));
    assert_eq!(exact_transfer(0, Ok(0)), Ok(()));
    assert_eq!(exact_transfer(4, Ok(3)), Err(SHORT_TRANSFER));
    assert_eq!(exact_transfer(4, Ok(0)), Err(SHORT_TRANSFER));
    assert_eq!(exact_transfer(4, Ok(5)), Err(SHORT_TRANSFER));
    assert_eq!(exact_transfer(4, Err("device fault")), Err("device fault"));
    assert_eq!(SHORT_TRANSFER, "short transfer");
    assert_ne!(FILE_TOO_LARGE, OFFSET_OUT_OF_RANGE);
}
