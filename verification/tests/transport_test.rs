use midianimator::transport::{after_poll, chunk_bounds, frame_complete, Poll, Rendezvous};

#[test]
fn a_frame_needs_its_end_and_its_uuid() {
    let full = b"{\"sender\":\"a\",\"message\":\"m\",\"uuid\":\"1\"}\n".to_vec();
    assert!(frame_complete(&full));
    assert!(!frame_complete(&full[..full.len() - 1].to_vec()));
    assert!(!frame_complete(&b"{\"sender\":\"a\"}\n".to_vec()));
    assert!(!frame_complete(&b"".to_vec()));
    assert!(!frame_complete(&b"\n".to_vec()));
}

#[test]
fn frames_are_written_in_chunks_of_four_kibibytes() {
    assert_eq!(chunk_bounds(0), vec![]);
    assert_eq!(chunk_bounds(1), vec![(0, 1)]);
    assert_eq!(chunk_bounds(4096), vec![(0, 4096)]);
    assert_eq!(chunk_bounds(4097), vec![(0, 4096), (4096, 4097)]);
    assert_eq!(chunk_bounds(10000), vec![(0, 4096), (4096, 8192), (8192, 10000)]);
}

#[test]
fn a_request_times_out_after_fifty_polls() {
    assert!(matches!(after_poll(0, None), Poll::Wait(1)));
    assert!(matches!(after_poll(49, None), Poll::Wait(50)));
    assert!(matches!(after_poll(50, None), Poll::TimedOut));
    match after_poll(50, Some("OK".to_string())) {
        Poll::Reply(text) => assert_eq!(text, "OK"),
        _ => panic!("a reply is handed out"),
    }
}

#[test]
fn a_reply_finds_the_request_that_waits_for_it() {
    let mut table: Rendezvous<u32> = Rendezvous::new();
    assert_eq!(table.register("a".to_string(), 1), None);
    assert_eq!(table.register("b".to_string(), 2), None);
    assert_eq!(table.register("a".to_string(), 3), Some(1));
    assert_eq!(table.waiting.len(), 2);
    assert_eq!(table.claim("c"), None);
    assert_eq!(table.claim("a"), Some(3));
    assert_eq!(table.claim("a"), None);
    assert_eq!(table.claim("b"), Some(2));
    assert!(table.waiting.is_empty());
}
