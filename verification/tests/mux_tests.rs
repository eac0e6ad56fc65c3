use tunnel_mux::{
    drain_some_writeable, read_until_blocks, DrainOutcome, MuxError, ReadOutcome, Registry,
    ScriptedSink, ScriptedSource,
};

fn no_reads() -> ScriptedSource {
    ScriptedSource::new(Vec::new())
}

fn closed_sink() -> ScriptedSink {
    ScriptedSink::new(Vec::new())
}

fn open_sink() -> ScriptedSink {
    ScriptedSink::new(vec![usize::MAX; 16])
}

#[test]
fn register_hands_out_distinct_identifiers() {
    let mut reg = Registry::new();
    let a = reg.register().unwrap();
    let b = reg.register().unwrap();
    assert_ne!(a, b);
    assert!(reg.contains(a));
    assert!(reg.contains(b));
    assert_eq!(reg.len(), 2);
}

#[test]
fn remove_conn_forgets_the_connection() {
    let mut reg = Registry::new();
    let a = reg.register().unwrap();
    assert!(reg.remove_conn(a));
    assert!(!reg.contains(a));
    assert!(!reg.remove_conn(a));
    assert_eq!(reg.len(), 0);
}

#[test]
fn identifiers_are_not_reused_after_removal() {
    let mut reg = Registry::new();
    let a = reg.register().unwrap();
    assert!(reg.remove_conn(a));
    let b = reg.register().unwrap();
    assert_ne!(a, b);
}

#[test]
fn pop_inbound_on_empty_queue_is_none() {
    let mut reg = Registry::new();
    let a = reg.register().unwrap();
    assert_eq!(reg.pop_inbound(a), None);
    assert_eq!(reg.pop_inbound(a + 1), None);
}

#[test]
fn push_outbound_needs_a_live_connection() {
    let mut reg = Registry::new();
    assert!(!reg.push_outbound(1, b"hi".to_vec()));
    let a = reg.register().unwrap();
    assert!(reg.push_outbound(a, b"hi".to_vec()));
}

#[test]
fn dispatch_unknown_token_is_refused() {
    let mut reg = Registry::new();
    let mut src = no_reads();
    let mut sink = open_sink();
    let r = reg.dispatch(42, true, true, &mut src, &mut sink);
    assert_eq!(r, Err(MuxError::UnknownToken));
}

#[test]
fn two_writes_arrive_in_order() {
    let mut reg = Registry::new();
    let id = reg.register().unwrap();

    let mut src = ScriptedSource::new(vec![ReadOutcome::Data(b"hel".to_vec())]);
    let mut sink = closed_sink();
    reg.dispatch(id, true, false, &mut src, &mut sink).unwrap();

    let mut src = ScriptedSource::new(vec![ReadOutcome::Data(b"lo".to_vec())]);
    reg.dispatch(id, true, false, &mut src, &mut sink).unwrap();

    let mut all = Vec::new();
    while let Some(chunk) = reg.pop_inbound(id) {
        all.extend(chunk);
    }
    assert_eq!(all, b"hello".to_vec());
}

#[test]
fn chunking_does_not_change_the_inbound_stream() {
    let mut reg = Registry::new();
    let id = reg.register().unwrap();

    let mut src = ScriptedSource::new(vec![
        ReadOutcome::Data(b"h".to_vec()),
        ReadOutcome::Data(b"ell".to_vec()),
    ]);
    let mut sink = closed_sink();
    reg.dispatch(id, true, false, &mut src, &mut sink).unwrap();

    let mut src = ScriptedSource::new(vec![ReadOutcome::Data(b"o".to_vec())]);
    reg.dispatch(id, true, false, &mut src, &mut sink).unwrap();

    let mut all = Vec::new();
    while let Some(chunk) = reg.pop_inbound(id) {
        all.extend(chunk);
    }
    assert_eq!(all, b"hello".to_vec());
}

#[test]
fn end_of_stream_removes_the_connection() {
    let mut reg = Registry::new();
    let id = reg.register().unwrap();

    let mut src = ScriptedSource::new(vec![ReadOutcome::Eof]);
    let mut sink = closed_sink();
    reg.dispatch(id, true, false, &mut src, &mut sink).unwrap();
    assert!(!reg.contains(id));

    let mut src = no_reads();
    let r = reg.dispatch(id, true, false, &mut src, &mut sink);
    assert_eq!(r, Err(MuxError::UnknownToken));
}

#[test]
fn end_of_stream_only_affects_its_own_connection() {
    let mut reg = Registry::new();
    let a = reg.register().unwrap();
    let b = reg.register().unwrap();

    let mut src = ScriptedSource::new(vec![ReadOutcome::Data(b"keep".to_vec())]);
    let mut sink = closed_sink();
    reg.dispatch(b, true, false, &mut src, &mut sink).unwrap();

    let mut src = ScriptedSource::new(vec![ReadOutcome::Eof]);
    reg.dispatch(a, true, false, &mut src, &mut sink).unwrap();
    assert!(!reg.contains(a));
    assert!(reg.contains(b));
    assert_eq!(reg.pop_inbound(b), Some(b"keep".to_vec()));
}

#[test]
fn outbound_bytes_reach_the_sink_in_enqueue_order() {
    let mut reg = Registry::new();
    let id = reg.register().unwrap();
    assert!(reg.push_outbound(id, b"hel".to_vec()));
    assert!(reg.push_outbound(id, b"lo ".to_vec()));
    assert!(reg.push_outbound(id, b"world".to_vec()));

    let mut src = no_reads();
    let mut sink = open_sink();
    reg.dispatch(id, false, true, &mut src, &mut sink).unwrap();
    assert_eq!(sink.taken_bytes(), &b"hello world".to_vec());
}

#[test]
fn suspended_writes_resume_without_loss_or_reorder() {
    let mut reg = Registry::new();
    let id = reg.register().unwrap();
    assert!(reg.push_outbound(id, b"hel".to_vec()));
    assert!(reg.push_outbound(id, b"lo".to_vec()));

    // The sink takes two bytes and then suspends mid-chunk.
    let mut src = no_reads();
    let mut sink = ScriptedSink::new(vec![2, 0]);
    reg.dispatch(id, false, true, &mut src, &mut sink).unwrap();
    assert_eq!(sink.taken_bytes(), &b"he".to_vec());

    // On the next writable event the remainder flows, still in order.
    let mut sink = open_sink();
    reg.dispatch(id, false, true, &mut src, &mut sink).unwrap();
    assert_eq!(sink.taken_bytes(), &b"llo".to_vec());

    // Nothing is left queued afterwards.
    let mut sink = ScriptedSink::new(vec![1]);
    reg.dispatch(id, false, true, &mut src, &mut sink).unwrap();
    assert_eq!(sink.taken_bytes(), &Vec::new());
}

#[test]
fn read_until_blocks_accumulates_one_chunk() {
    let mut src = ScriptedSource::new(vec![
        ReadOutcome::Data(b"ab".to_vec()),
        ReadOutcome::Data(b"cd".to_vec()),
    ]);
    assert_eq!(read_until_blocks(&mut src), Some(b"abcd".to_vec()));

    let mut src = ScriptedSource::new(vec![
        ReadOutcome::Data(b"ab".to_vec()),
        ReadOutcome::WouldBlock,
        ReadOutcome::Data(b"later".to_vec()),
    ]);
    assert_eq!(read_until_blocks(&mut src), Some(b"ab".to_vec()));

    let mut src = ScriptedSource::new(vec![ReadOutcome::Eof]);
    assert_eq!(read_until_blocks(&mut src), None);

    let mut src = no_reads();
    assert_eq!(read_until_blocks(&mut src), Some(Vec::new()));
}

#[test]
fn drain_some_writeable_keeps_the_unwritten_tail() {
    let mut chunk = b"abcde".to_vec();
    let mut sink = ScriptedSink::new(vec![2, 2, 0]);
    let outcome = drain_some_writeable(&mut chunk, &mut sink);
    assert!(matches!(outcome, DrainOutcome::Suspended));
    assert_eq!(sink.taken_bytes(), &b"abcd".to_vec());
    assert_eq!(chunk, b"e".to_vec());

    let mut sink = open_sink();
    let outcome = drain_some_writeable(&mut chunk, &mut sink);
    assert!(matches!(outcome, DrainOutcome::Flushed));
    assert_eq!(sink.taken_bytes(), &b"e".to_vec());
    assert!(chunk.is_empty());
}
