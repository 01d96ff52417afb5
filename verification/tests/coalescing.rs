use tts_air::coalesce::{coalesce_window, Record, COALESCE_WINDOW_MICROS, MESSAGE_CAP};
use tts_air::framer::Framer;
use tts_air::text::{truncate_utf8, utf16_to_utf8};

fn units(s: &str) -> Vec<u16> {
    s.encode_utf16().collect()
}

fn rec(s: &str, t: u64) -> Record {
    Record { units: units(s), arrival_micros: t }
}

#[test]
fn transcode_matches_std() {
    for s in ["hello", "héllo wörld", "\u{1F600}\u{10FFFF}", "", "mixed é\u{1F600}z"] {
        let out = utf16_to_utf8(&units(s));
        assert_eq!(out, s.as_bytes().to_vec());
    }
}

#[test]
fn transcode_replaces_unpaired_surrogates() {
    // a lone high surrogate, then 'a', then a lone low surrogate
    let out = utf16_to_utf8(&vec![0xD800, 0x61, 0xDC00]);
    assert_eq!(out, "\u{FFFD}a\u{FFFD}".as_bytes().to_vec());
}

#[test]
fn window_merges_early_records_and_holds_the_first_late_one() {
    let seed = rec("a", 1000);
    let pending = vec![rec("b", 1500), rec("c", 2500), rec("d", 3500), rec("e", 4000)];
    let (msg, taken) = coalesce_window(&seed, &pending);
    // deadline is 1000 + 2000: "b" and "c" merge, "d" seeds the next window
    assert_eq!(taken, 2);
    assert_eq!(msg, b"a\nb\nc\0".to_vec());
    assert_eq!(COALESCE_WINDOW_MICROS, 2000);
}

#[test]
fn window_boundary_is_strict() {
    let seed = rec("a", 1000);
    let pending = vec![rec("b", 2999), rec("c", 3000)];
    let (msg, taken) = coalesce_window(&seed, &pending);
    assert_eq!(taken, 1);
    assert_eq!(msg, b"a\nb\0".to_vec());
}

#[test]
fn lone_record_is_framed_as_is() {
    let seed = rec("only", 5);
    let (msg, taken) = coalesce_window(&seed, &Vec::new());
    assert_eq!(taken, 0);
    assert_eq!(msg, b"only\0".to_vec());
}

#[test]
fn oversized_buffer_is_truncated_with_single_delimiter() {
    let long = "a".repeat(70000);
    let seed = rec(&long, 0);
    let (msg, taken) = coalesce_window(&seed, &Vec::new());
    assert_eq!(taken, 0);
    assert_eq!(msg.len(), MESSAGE_CAP + 1);
    assert_eq!(*msg.last().unwrap(), 0);
    assert!(msg[..MESSAGE_CAP].iter().all(|b| *b == b'a'));
}

#[test]
fn truncation_never_splits_a_character() {
    // two-byte characters: an odd cap forces the cut one byte early
    let long = "é".repeat(40000);
    let seed = rec(&long, 0);
    let (msg, _) = coalesce_window(&seed, &Vec::new());
    assert_eq!(msg.len(), MESSAGE_CAP);
    assert_eq!(*msg.last().unwrap(), 0);
    let body = &msg[..msg.len() - 1];
    let text = std::str::from_utf8(body).unwrap();
    assert!(text.chars().all(|c| c == 'é'));
    assert_eq!(text.chars().count(), (MESSAGE_CAP - 1) / 2);
}

#[test]
fn truncate_utf8_backs_off_to_boundary() {
    let mut buf = "aé".as_bytes().to_vec();
    truncate_utf8(&mut buf, 2);
    assert_eq!(buf, b"a".to_vec());
    let mut buf2 = "aé".as_bytes().to_vec();
    truncate_utf8(&mut buf2, 3);
    assert_eq!(buf2, "aé".as_bytes().to_vec());
    let mut buf3 = "\u{1F600}".as_bytes().to_vec();
    truncate_utf8(&mut buf3, 3);
    assert_eq!(buf3, Vec::<u8>::new());
}

#[test]
fn framer_splits_records_on_zero() {
    let mut f = Framer::new();
    let out = f.push_chunk(&b"ab\0cd".to_vec());
    assert_eq!(out, vec![b"ab".to_vec()]);
    let out = f.push_chunk(&b"\0".to_vec());
    assert_eq!(out, vec![b"cd".to_vec()]);
}

#[test]
fn framer_carries_partial_records_across_reads() {
    let mut f = Framer::new();
    assert_eq!(f.push_chunk(&b"he".to_vec()), Vec::<Vec<u8>>::new());
    assert_eq!(f.push_chunk(&b"llo".to_vec()), Vec::<Vec<u8>>::new());
    assert_eq!(f.push_chunk(&b"\0wo\0rld".to_vec()), vec![b"hello".to_vec(), b"wo".to_vec()]);
    assert_eq!(f.push_chunk(&b"\0".to_vec()), vec![b"rld".to_vec()]);
}

#[test]
fn framer_yields_empty_records_for_adjacent_delimiters() {
    let mut f = Framer::new();
    let out = f.push_chunk(&b"a\0\0b\0".to_vec());
    assert_eq!(out, vec![b"a".to_vec(), b"".to_vec(), b"b".to_vec()]);
}
