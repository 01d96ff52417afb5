use tts_air::nonblocking::ChunkBuffer;
use tts_air::pipe::{
    accept_decision, accept_finalize, bind_address_valid, connect_address_valid,
    overlapped_send_step, AcceptOutcome, AcceptStep, SendStep,
};
use tts_air::text::str_to_utf16;
use tts_air::tts::TtsAir;

#[test]
fn empty_buffer_would_block() {
    let mut b = ChunkBuffer::new();
    let (out, would_block) = b.read_step(None, 16);
    assert!(out.is_empty());
    assert!(would_block);
}

#[test]
fn chunk_is_served_across_reads() {
    let mut b = ChunkBuffer::new();
    let (out, wb) = b.read_step(Some(vec![1, 2, 3, 4, 5]), 3);
    assert_eq!(out, vec![1, 2, 3]);
    assert!(!wb);
    assert!(b.has_buffered());
    let (out, wb) = b.read_step(None, 16);
    assert_eq!(out, vec![4, 5]);
    assert!(!wb);
    let (out, wb) = b.read_step(None, 1);
    assert!(out.is_empty());
    assert!(wb);
}

#[test]
fn remainder_comes_before_the_new_chunk() {
    let mut b = ChunkBuffer::new();
    let (out, _) = b.read_step(Some(vec![1, 2, 3]), 2);
    assert_eq!(out, vec![1, 2]);
    let (out, wb) = b.read_step(Some(vec![4, 5]), 16);
    assert_eq!(out, vec![3, 4, 5]);
    assert!(!wb);
}

#[test]
fn empty_chunk_is_not_would_block() {
    let mut b = ChunkBuffer::new();
    let (out, wb) = b.read_step(Some(Vec::new()), 16);
    assert!(out.is_empty());
    assert!(!wb);
}

#[test]
fn full_caller_buffer_returns_nothing_but_keeps_bytes() {
    let mut b = ChunkBuffer::new();
    let (out, wb) = b.read_step(Some(vec![7, 8]), 0);
    assert!(out.is_empty());
    assert!(!wb);
    let (out, _) = b.read_step(None, 16);
    assert_eq!(out, vec![7, 8]);
}

#[test]
fn bind_address_length_check() {
    assert!(bind_address_valid("\\\\.\\pipe\\net.wartide.d4.tts-air-0\0"));
    assert!(bind_address_valid(&"a".repeat(999)));
    assert!(!bind_address_valid(&"a".repeat(1000)));
}

#[test]
fn connect_address_must_be_nul_terminated() {
    assert!(connect_address_valid("\\\\.\\pipe\\net.wartide.d4.tts-air-0\0"));
    assert!(!connect_address_valid("\\\\.\\pipe\\net.wartide.d4.tts-air-0"));
    assert!(!connect_address_valid(""));
}

#[test]
fn accept_protocol_decisions() {
    assert!(matches!(accept_decision(true, 0), AcceptStep::Connected));
    assert!(matches!(accept_decision(false, 535), AcceptStep::Connected));
    assert!(matches!(accept_decision(false, 997), AcceptStep::WaitForSignal));
    assert!(matches!(accept_decision(false, 5), AcceptStep::Fail(5)));
    assert!(matches!(accept_finalize(true, 0), AcceptOutcome::Connected));
    assert!(matches!(accept_finalize(false, 535), AcceptOutcome::Connected));
    assert!(matches!(accept_finalize(false, 997), AcceptOutcome::Pending));
    assert!(matches!(accept_finalize(false, 6), AcceptOutcome::Fatal(6)));
}

#[test]
fn overlapped_send_decisions() {
    assert!(matches!(overlapped_send_step(true, 0), SendStep::Done));
    assert!(matches!(overlapped_send_step(false, 997), SendStep::AwaitCompletion));
    assert!(matches!(overlapped_send_step(false, 232), SendStep::Fail(232)));
}

#[test]
fn say_payload_is_nul_terminated_utf16() {
    let mut t = TtsAir::new();
    assert_eq!(t.spoken, 0);
    let p = t.say_payload("hi");
    assert_eq!(p, vec![0x68, 0x69, 0]);
    assert_eq!(t.spoken, 1);
    let p = t.say_payload("\u{1F600}");
    assert_eq!(p, vec![0xD83D, 0xDE00, 0]);
    assert_eq!(t.spoken, 2);
    let p = t.say_payload("");
    assert_eq!(p, vec![0]);
}

#[test]
fn utf16_encoding_matches_std() {
    for s in ["hello", "héllo", "\u{1F600}a\u{10FFFF}", ""] {
        let expected: Vec<u16> = s.encode_utf16().collect();
        assert_eq!(str_to_utf16(s), expected);
    }
}

#[test]
fn zero_length_read_is_not_would_block() {
    let mut b = ChunkBuffer::new();
    let (out, wb) = b.read_step(None, 0);
    assert!(out.is_empty());
    assert!(!wb);
    let (_, _) = b.read_step(Some(vec![1, 2]), 1);
    let (out, wb) = b.read_step(None, 0);
    assert!(out.is_empty());
    assert!(!wb);
    let (out, _) = b.read_step(None, 16);
    assert_eq!(out, vec![2]);
}
