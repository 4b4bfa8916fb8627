use vspipe::{
    validate_config, ByteSink, Config, Coordinator, ErrorKind, MemorySink, NullSink, OutputError,
    Step, Stream,
};

fn config(start: usize, end: usize, window: usize, paired: bool) -> Config {
    Config { start, end, window, paired, framed: false }
}

fn primary(n: usize) -> Vec<u8> {
    vec![n as u8]
}

fn auxiliary(n: usize) -> Vec<u8> {
    vec![200u8.wrapping_add(n as u8)]
}

/// A sink that refuses its `fail_at`-th write (counting from zero).
struct FailingSink {
    writes: usize,
    fail_at: usize,
    bytes: Vec<u8>,
}

impl ByteSink for FailingSink {
    fn write_all(&mut self, data: &[u8]) -> Result<(), String> {
        let k = self.writes;
        self.writes += 1;
        if k == self.fail_at {
            Err("disk full".to_string())
        } else {
            self.bytes.extend_from_slice(data);
            Ok(())
        }
    }

    fn flush(&mut self) -> Result<(), String> {
        Ok(())
    }
}

/// A small deterministic generator for shuffling completions.
struct Lcg(u64);

impl Lcg {
    fn below(&mut self, n: usize) -> usize {
        self.0 = self.0.wrapping_mul(6364136223846793005).wrapping_add(1442695040888963407);
        ((self.0 >> 33) as usize) % n
    }
}

/// Runs a whole range with responses delivered in a shuffled order, checking
/// the window bound and pairing along the way. Returns the bytes written.
fn shuffled_run(n: usize, window: usize, paired: bool, seed: u64) -> Vec<u8> {
    let cfg = config(0, n - 1, window, paired);
    let mut c = Coordinator::new(cfg);
    let mut sink = MemorySink::default();
    let mut rng = Lcg(seed);
    let mut outstanding: Vec<(usize, Stream)> = Vec::new();
    for i in 0..=c.last_requested() {
        outstanding.push((i, Stream::Primary));
        if paired {
            outstanding.push((i, Stream::Auxiliary));
        }
    }
    let mut arrived_primary = vec![false; n];
    let mut arrived_aux = vec![false; n];
    let mut finished = 0;
    while !outstanding.is_empty() {
        let (i, stream) = outstanding.swap_remove(rng.below(outstanding.len()));
        let payload = match stream {
            Stream::Primary => {
                arrived_primary[i] = true;
                primary(i)
            }
            Stream::Auxiliary => {
                arrived_aux[i] = true;
                auxiliary(i)
            }
        };
        let step = c.on_completion(i, stream, Ok(payload), &mut sink);
        if let Some(r) = step.request {
            outstanding.push((r, Stream::Primary));
            if paired {
                outstanding.push((r, Stream::Auxiliary));
            }
        }
        if step.finished {
            finished += 1;
        }
        // Requested indices still waiting for a response stay within the window.
        let waiting: std::collections::BTreeSet<usize> =
            outstanding.iter().map(|(i, _)| *i).collect();
        assert!(waiting.len() <= window);
        // Everything emitted so far had all of its parts.
        let per_frame = if paired { 2 } else { 1 };
        let emitted = sink.bytes.len() / per_frame;
        assert_eq!(emitted, c.next_to_output());
        for k in 0..emitted {
            assert!(arrived_primary[k]);
            assert!(!paired || arrived_aux[k]);
        }
    }
    assert_eq!(finished, 1);
    assert!(c.is_done());
    assert!(c.error().is_none());
    assert!(c.finish(&mut NullSink::new()).is_ok());
    sink.bytes
}

#[test]
fn emits_in_order_for_any_completion_order() {
    for n in 1..12usize {
        for window in 1..=n {
            for seed in 0..5u64 {
                let bytes = shuffled_run(n, window, false, seed * 7919 + n as u64);
                let expected: Vec<u8> = (0..n).map(|i| i as u8).collect();
                assert_eq!(bytes, expected);
            }
        }
    }
}

#[test]
fn paired_frames_emit_after_both_parts() {
    for n in 1..10usize {
        for window in 1..=n {
            for seed in 0..4u64 {
                let bytes = shuffled_run(n, window, true, seed * 104729 + window as u64);
                let mut expected = Vec::new();
                for i in 0..n {
                    expected.extend(primary(i));
                    expected.extend(auxiliary(i));
                }
                assert_eq!(bytes, expected);
            }
        }
    }
}

#[test]
fn window_of_three_over_ten_indices() {
    let mut c = Coordinator::new(config(0, 9, 3, false));
    let mut sink = MemorySink::default();
    assert_eq!(c.last_requested(), 2);

    let s = c.on_completion(1, Stream::Primary, Ok(primary(1)), &mut sink);
    assert!(sink.bytes.is_empty());
    assert_eq!(s, Step { request: Some(3), finished: false });

    let s = c.on_completion(0, Stream::Primary, Ok(primary(0)), &mut sink);
    assert_eq!(sink.bytes, vec![0, 1]);
    assert_eq!(s.request, Some(4));

    let s = c.on_completion(2, Stream::Primary, Ok(primary(2)), &mut sink);
    assert_eq!(sink.bytes, vec![0, 1, 2]);
    assert_eq!(s.request, Some(5));

    let mut last = Step { request: None, finished: false };
    for i in 3..10 {
        last = c.on_completion(i, Stream::Primary, Ok(primary(i)), &mut sink);
    }
    assert_eq!(last, Step { request: None, finished: true });
    assert_eq!(sink.bytes, (0..10u8).collect::<Vec<u8>>());
    assert!(c.is_done());
    assert!(c.finish(&mut sink).is_ok());
}

#[test]
fn null_sink_run_succeeds() {
    let cfg = validate_config(0, 99, 100, 8, 0, false, false).unwrap();
    let mut c = Coordinator::new(cfg);
    let mut sink = NullSink::new();
    let mut next = 0usize;
    let mut finished = false;
    while next <= c.last_requested() {
        let s = c.on_completion(next, Stream::Primary, Ok(primary(next)), &mut sink);
        finished |= s.finished;
        next += 1;
    }
    assert!(finished);
    assert!(c.is_done());
    assert_eq!(c.next_to_output(), 100);
    assert!(c.finish(&mut sink).is_ok());
}

#[test]
fn request_failure_stops_requests_and_emission() {
    let mut c = Coordinator::new(config(0, 9, 3, false));
    let mut sink = MemorySink::default();
    let s = c.on_completion(0, Stream::Primary, Ok(primary(0)), &mut sink);
    assert_eq!(s.request, Some(3));
    assert_eq!(sink.bytes, vec![0]);

    let s = c.on_completion(2, Stream::Primary, Err("boom".to_string()), &mut sink);
    assert_eq!(s, Step { request: None, finished: false });
    let e = c.error().clone().unwrap();
    assert_eq!((e.index, e.kind), (2, ErrorKind::RequestFailure));

    // Outstanding requests still complete, but nothing new is asked for.
    let s = c.on_completion(3, Stream::Primary, Ok(primary(3)), &mut sink);
    assert_eq!(s, Step { request: None, finished: false });
    let s = c.on_completion(1, Stream::Primary, Ok(primary(1)), &mut sink);
    assert_eq!(s, Step { request: None, finished: true });

    assert_eq!(sink.bytes, vec![0]);
    assert!(c.is_done());
    assert_eq!(c.next_to_output(), 4);
    // A later failure does not replace the first.
    match c.finish(&mut sink) {
        Err(OutputError::Frame(e)) => {
            assert_eq!(e.index, 2);
            assert_eq!(e.kind, ErrorKind::RequestFailure);
            assert_eq!(e.message, "boom");
        }
        other => panic!("unexpected {:?}", other),
    }
}

#[test]
fn first_error_wins() {
    let mut c = Coordinator::new(config(0, 4, 3, false));
    let mut sink = MemorySink::default();
    c.on_completion(1, Stream::Primary, Err("first".to_string()), &mut sink);
    c.on_completion(0, Stream::Primary, Err("second".to_string()), &mut sink);
    let s = c.on_completion(2, Stream::Primary, Ok(primary(2)), &mut sink);
    assert!(s.finished);
    assert!(sink.bytes.is_empty());
    let e = c.error().clone().unwrap();
    assert_eq!(e.index, 1);
    assert_eq!(e.message, "first");
}

#[test]
fn sink_failure_is_latched_and_drain_continues() {
    let mut c = Coordinator::new(config(0, 3, 4, false));
    let mut sink = FailingSink { writes: 0, fail_at: 1, bytes: Vec::new() };
    c.on_completion(3, Stream::Primary, Ok(primary(3)), &mut sink);
    c.on_completion(2, Stream::Primary, Ok(primary(2)), &mut sink);
    c.on_completion(1, Stream::Primary, Ok(primary(1)), &mut sink);
    let s = c.on_completion(0, Stream::Primary, Ok(primary(0)), &mut sink);
    assert!(s.finished);
    assert_eq!(sink.bytes, vec![0]);
    assert_eq!(sink.writes, 2);
    assert_eq!(c.next_to_output(), 4);
    match c.finish(&mut sink) {
        Err(OutputError::Frame(e)) => {
            assert_eq!((e.index, e.kind), (1, ErrorKind::SinkWriteFailure));
            assert_eq!(e.message, "disk full");
        }
        other => panic!("unexpected {:?}", other),
    }
}

struct UnflushableSink;

impl ByteSink for UnflushableSink {
    fn write_all(&mut self, _data: &[u8]) -> Result<(), String> {
        Ok(())
    }

    fn flush(&mut self) -> Result<(), String> {
        Err("closed".to_string())
    }
}

#[test]
fn flush_failure_is_reported_without_earlier_error() {
    let mut c = Coordinator::new(config(0, 0, 1, false));
    let s = c.on_completion(0, Stream::Primary, Ok(primary(0)), &mut UnflushableSink);
    assert!(s.finished);
    match c.finish(&mut UnflushableSink) {
        Err(OutputError::Flush(m)) => assert_eq!(m, "closed"),
        other => panic!("unexpected {:?}", other),
    }
}

#[test]
fn unexpected_responses_are_ignored() {
    let mut c = Coordinator::new(config(5, 9, 2, false));
    let mut sink = MemorySink::default();
    let none = Step { request: None, finished: false };
    // Not requested yet.
    assert_eq!(c.on_completion(7, Stream::Primary, Ok(primary(7)), &mut sink), none);
    // Before the range.
    assert_eq!(c.on_completion(0, Stream::Primary, Ok(primary(0)), &mut sink), none);
    // Auxiliary stream while pairing is off.
    assert_eq!(c.on_completion(6, Stream::Auxiliary, Ok(auxiliary(6)), &mut sink), none);
    let s = c.on_completion(6, Stream::Primary, Ok(primary(6)), &mut sink);
    assert_eq!(s.request, Some(7));
    // A second response for the same stream.
    assert_eq!(c.on_completion(6, Stream::Primary, Ok(primary(6)), &mut sink), none);
    assert!(sink.bytes.is_empty());
    c.on_completion(5, Stream::Primary, Ok(primary(5)), &mut sink);
    assert_eq!(sink.bytes, vec![5, 6]);
    assert_eq!(c.next_to_output(), 7);
}

#[test]
fn paired_index_waits_for_auxiliary() {
    let mut c = Coordinator::new(config(0, 1, 1, true));
    let mut sink = MemorySink::default();
    let s = c.on_completion(0, Stream::Primary, Ok(primary(0)), &mut sink);
    assert_eq!(s.request, None);
    assert!(sink.bytes.is_empty());
    let s = c.on_completion(0, Stream::Auxiliary, Ok(auxiliary(0)), &mut sink);
    assert_eq!(s.request, Some(1));
    assert_eq!(sink.bytes, vec![0, 200]);
}

#[test]
fn paired_failure_waits_for_the_other_response() {
    let mut c = Coordinator::new(config(0, 3, 2, true));
    let mut sink = MemorySink::default();
    c.on_completion(0, Stream::Auxiliary, Err("alpha".to_string()), &mut sink);
    assert!(!c.is_done());
    assert_eq!(c.next_to_output(), 0);
    c.on_completion(0, Stream::Primary, Ok(primary(0)), &mut sink);
    assert_eq!(c.next_to_output(), 1);
    c.on_completion(1, Stream::Primary, Ok(primary(1)), &mut sink);
    let s = c.on_completion(1, Stream::Auxiliary, Ok(auxiliary(1)), &mut sink);
    assert_eq!(s, Step { request: None, finished: true });
    assert!(sink.bytes.is_empty());
    assert_eq!(c.last_requested(), 1);
}

#[test]
fn framed_output_carries_markers() {
    let cfg = Config { start: 0, end: 1, window: 2, paired: false, framed: true };
    let mut c = Coordinator::new(cfg);
    let mut sink = MemorySink::default();
    c.on_completion(1, Stream::Primary, Ok(vec![7, 8]), &mut sink);
    c.on_completion(0, Stream::Primary, Ok(vec![9]), &mut sink);
    assert_eq!(sink.bytes, b"FRAME\n\x09FRAME\n\x07\x08".to_vec());
}
