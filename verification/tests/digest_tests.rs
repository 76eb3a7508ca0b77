use csv_ingest::digest::text_hash;
use csv_ingest::meta::{read_meta, Fingerprinter};

fn content_hash(data: &[u8]) -> String {
    read_meta(0, 0, data).hash
}

const EMPTY: &str = "af1349b9f5f9a1a6a0404dea36dcc9499bcb25c9adc112b7cc9a93cae41f3262";

#[test]
fn hash_of_nothing() {
    assert_eq!(content_hash(b""), EMPTY);
    assert_eq!(text_hash(""), EMPTY);
}

#[test]
fn hash_is_blake3_in_lower_case_hex() {
    let hex = content_hash(b"abc");
    assert_eq!(hex, blake3::hash(b"abc").to_hex().to_string());
    assert_eq!(hex.len(), 64);
    assert!(hex.chars().all(|c| c.is_ascii_digit() || ('a'..='f').contains(&c)));
    assert_ne!(hex, "abc");
    assert_ne!(hex, EMPTY);
}

#[test]
fn text_hash_is_the_hash_of_the_utf8_bytes() {
    assert_eq!(text_hash("1,合格"), content_hash("1,合格".as_bytes()));
    assert_ne!(text_hash("1,2"), text_hash("1,3"));
}

#[test]
fn fingerprinter_starts_empty() {
    let meta = Fingerprinter::new().finish(7, 0);
    assert_eq!(meta.mtime, 7);
    assert_eq!(meta.size, 0);
    assert_eq!(meta.hash, EMPTY);
}

#[test]
fn chunks_hash_as_the_whole() {
    let data: Vec<u8> = (0..200_000u32).map(|i| (i % 251) as u8).collect();
    let whole = read_meta(1, data.len() as i64, &data);
    let mut f = Fingerprinter::new();
    for chunk in data.chunks(64 * 1024) {
        f.absorb(chunk);
    }
    let streamed = f.finish(1, data.len() as i64);
    assert_eq!(streamed.hash, whole.hash);
    assert_eq!(whole.hash, content_hash(&data));
    assert_eq!(whole.size, 200_000);

    let mut g = Fingerprinter::new();
    g.absorb(&data[..1]);
    g.absorb(&[]);
    g.absorb(&data[1..]);
    assert_eq!(g.finish(1, 0).hash, whole.hash);
}

#[test]
fn finish_can_be_asked_again() {
    let mut f = Fingerprinter::new();
    f.absorb(b"ab");
    let first = f.finish(1, 2);
    assert_eq!(first.hash, content_hash(b"ab"));
    assert_eq!(f.finish(1, 2).hash, first.hash);
    f.absorb(b"c");
    assert_eq!(f.finish(1, 3).hash, content_hash(b"abc"));
}

#[test]
fn read_meta_keeps_time_and_size() {
    let meta = read_meta(-5, 3, b"abc");
    assert_eq!(meta.mtime, -5);
    assert_eq!(meta.size, 3);
    assert_eq!(meta.hash, content_hash(b"abc"));
    let copy = meta.clone();
    assert_eq!(copy.hash, meta.hash);
    assert_eq!(copy.mtime, -5);
}
