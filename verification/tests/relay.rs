use spawn_relay::environment::EnvMap;
use spawn_relay::exit::{decode, ExitOutcome, ExitWatcher, RawStatus, WaitResult};
use spawn_relay::launch::{plan, EnvPolicy, LaunchError, SpawnRequest, StdioMode};
use spawn_relay::pump::{Pump, ReadResult, StreamEvent, CHUNK_SIZE};
use spawn_relay::session::coordinate;

/// Feeds `data` to the pump as a stream would: reads of at most a buffer's
/// worth, then the end of the stream. Returns everything delivered.
fn relay_bytes(pump: &mut Pump, data: &[u8]) -> Vec<StreamEvent> {
    let mut buffer = [0u8; CHUNK_SIZE];
    let mut delivered = Vec::new();
    let mut offset = 0;
    while pump.is_reading() {
        let left = data.len() - offset;
        let n = if left < CHUNK_SIZE { left } else { CHUNK_SIZE };
        buffer[..n].copy_from_slice(&data[offset..offset + n]);
        offset += n;
        if let Some(event) = pump.on_read(&buffer, ReadResult::Bytes(n)) {
            delivered.push(event);
        }
    }
    delivered
}

fn concatenated(events: &[StreamEvent]) -> Vec<u8> {
    let mut bytes = Vec::new();
    for event in events {
        if let StreamEvent::Chunk(chunk) = event {
            bytes.extend_from_slice(chunk);
        }
    }
    bytes
}

fn request(command: &str, arguments: &[&str], environment: Option<EnvMap>) -> SpawnRequest {
    SpawnRequest {
        command: command.to_string(),
        arguments: arguments.iter().map(|a| a.to_string()).collect(),
        working_directory: None,
        argv0_override: None,
        environment,
    }
}

#[test]
fn decode_keeps_present_values() {
    let outcome = decode(RawStatus { code: Some(3), signal: Some(15) });
    assert_eq!(outcome, ExitOutcome { exit_code: 3, terminating_signal: 15 });
}

#[test]
fn decode_substitutes_zero_for_absent_code() {
    let outcome = decode(RawStatus { code: None, signal: Some(9) });
    assert_eq!(outcome.exit_code, 0);
    assert_eq!(outcome.terminating_signal, 9);
}

#[test]
fn decode_substitutes_zero_for_absent_signal() {
    let outcome = decode(RawStatus { code: Some(127), signal: None });
    assert_eq!(outcome.as_pair(), (127, 0));
}

#[test]
fn decode_of_nothing_is_zero_zero() {
    let outcome = decode(RawStatus { code: None, signal: None });
    assert_eq!(outcome.as_pair(), (0, 0));
}

#[test]
fn decode_keeps_negative_code() {
    let outcome = decode(RawStatus { code: Some(-1), signal: None });
    assert_eq!(outcome.as_pair(), (-1, 0));
}

#[test]
fn outcome_as_list_is_code_then_signal() {
    let outcome = ExitOutcome { exit_code: 2, terminating_signal: 11 };
    assert_eq!(outcome.as_list(), vec![2, 11]);
    assert_eq!(outcome.as_pair(), (2, 11));
}

#[test]
fn watcher_delivers_exactly_one_outcome() {
    let mut watcher = ExitWatcher::new();
    assert!(watcher.is_waiting());
    let status = RawStatus { code: Some(1), signal: None };
    let first = watcher.on_wait(WaitResult::Exited(status));
    assert_eq!(first, Some(ExitOutcome { exit_code: 1, terminating_signal: 0 }));
    assert!(!watcher.is_waiting());
    let second = watcher.on_wait(WaitResult::Exited(status));
    assert_eq!(second, None);
    assert!(!watcher.is_waiting());
}

#[test]
fn failed_wait_delivers_nothing() {
    let mut watcher = ExitWatcher::new();
    assert_eq!(watcher.on_wait(WaitResult::Failed), None);
    assert!(!watcher.is_waiting());
    let later = watcher.on_wait(WaitResult::Exited(RawStatus { code: Some(0), signal: None }));
    assert_eq!(later, None);
}

#[test]
fn echo_hello_scenario() {
    let started = coordinate(Ok(4321)).unwrap();
    assert_eq!(started.id, 4321);
    let mut stdout = started.stdout;
    let mut stderr = started.stderr;
    let mut exit = started.exit;

    let out = relay_bytes(&mut stdout, b"hello\n");
    assert_eq!(concatenated(&out), b"hello\n".to_vec());
    assert_eq!(out, vec![StreamEvent::Chunk(b"hello\n".to_vec()), StreamEvent::End]);

    let err = relay_bytes(&mut stderr, b"");
    assert_eq!(err, vec![StreamEvent::End]);

    let outcome = exit.on_wait(WaitResult::Exited(RawStatus { code: Some(0), signal: None }));
    assert_eq!(outcome.map(|o| o.as_pair()), Some((0, 0)));
}

#[test]
fn large_burst_comes_in_several_chunks() {
    let data: Vec<u8> = (0..20_000u32).map(|i| u8::try_from(i % 251).unwrap()).collect();
    let mut pump = Pump::new();
    let events = relay_bytes(&mut pump, &data);
    let chunks = events.iter().filter(|e| matches!(e, StreamEvent::Chunk(_))).count();
    assert!(chunks >= 2);
    assert_eq!(chunks, 3);
    let bytes = concatenated(&events);
    assert_eq!(bytes.len(), 20_000);
    assert_eq!(bytes, data);
    assert_eq!(events.last(), Some(&StreamEvent::End));
}

#[test]
fn chunk_lengths_are_within_bounds() {
    let data = vec![7u8; CHUNK_SIZE + 1];
    let mut pump = Pump::new();
    let events = relay_bytes(&mut pump, &data);
    assert_eq!(events.len(), 3);
    match (&events[0], &events[1]) {
        (StreamEvent::Chunk(a), StreamEvent::Chunk(b)) => {
            assert_eq!(a.len(), CHUNK_SIZE);
            assert_eq!(b.len(), 1);
        }
        _ => panic!("two chunks expected"),
    }
}

#[test]
fn chunk_size_is_8192() {
    assert_eq!(CHUNK_SIZE, 8192);
}

#[test]
fn signal_termination_scenario() {
    let mut watcher = ExitWatcher::new();
    let outcome = watcher
        .on_wait(WaitResult::Exited(RawStatus { code: None, signal: Some(9) }))
        .unwrap();
    assert_eq!(outcome.exit_code, 0);
    assert_eq!(outcome.terminating_signal, 9);
}

#[test]
fn chunk_holds_only_the_bytes_read() {
    let mut buffer = [0u8; CHUNK_SIZE];
    buffer[0] = 1;
    buffer[1] = 2;
    buffer[2] = 3;
    buffer[3] = 4;
    let mut pump = Pump::new();
    let event = pump.on_read(&buffer, ReadResult::Bytes(3));
    assert_eq!(event, Some(StreamEvent::Chunk(vec![1, 2, 3])));
    assert!(pump.is_reading());
}

#[test]
fn chunk_is_a_copy_of_the_buffer() {
    let mut buffer = [0u8; CHUNK_SIZE];
    buffer[0] = b'a';
    let mut pump = Pump::new();
    let first = pump.on_read(&buffer, ReadResult::Bytes(1));
    buffer[0] = b'b';
    let second = pump.on_read(&buffer, ReadResult::Bytes(1));
    assert_eq!(first, Some(StreamEvent::Chunk(vec![b'a'])));
    assert_eq!(second, Some(StreamEvent::Chunk(vec![b'b'])));
}

#[test]
fn full_buffer_is_one_chunk() {
    let buffer = [9u8; CHUNK_SIZE];
    let mut pump = Pump::new();
    let event = pump.on_read(&buffer, ReadResult::Bytes(CHUNK_SIZE));
    assert_eq!(event, Some(StreamEvent::Chunk(vec![9u8; CHUNK_SIZE])));
}

#[test]
fn end_is_delivered_once_and_nothing_after() {
    let buffer = [5u8; CHUNK_SIZE];
    let mut pump = Pump::new();
    assert_eq!(pump.on_read(&buffer, ReadResult::Bytes(2)), Some(StreamEvent::Chunk(vec![5, 5])));
    assert_eq!(pump.on_read(&buffer, ReadResult::Bytes(0)), Some(StreamEvent::End));
    assert!(!pump.is_reading());
    assert_eq!(pump.on_read(&buffer, ReadResult::Bytes(4)), None);
    assert_eq!(pump.on_read(&buffer, ReadResult::Bytes(0)), None);
    assert_eq!(pump.on_read(&buffer, ReadResult::Failed), None);
    assert!(!pump.is_reading());
}

#[test]
fn failed_read_ends_the_stream() {
    let buffer = [5u8; CHUNK_SIZE];
    let mut pump = Pump::new();
    assert_eq!(pump.on_read(&buffer, ReadResult::Bytes(1)), Some(StreamEvent::Chunk(vec![5])));
    assert_eq!(pump.on_read(&buffer, ReadResult::Failed), Some(StreamEvent::End));
    assert!(!pump.is_reading());
    assert_eq!(pump.on_read(&buffer, ReadResult::Bytes(1)), None);
}

#[test]
fn empty_stream_gives_only_the_end() {
    let mut pump = Pump::new();
    assert_eq!(relay_bytes(&mut pump, b""), vec![StreamEvent::End]);
}

#[test]
fn event_payload_and_batch() {
    assert_eq!(StreamEvent::Chunk(vec![1, 2]).into_payload(), Some(vec![1, 2]));
    assert_eq!(StreamEvent::End.into_payload(), None);
    assert_eq!(StreamEvent::Chunk(vec![1, 2]).into_batch(), vec![vec![1u8, 2]]);
    assert_eq!(StreamEvent::End.into_batch(), Vec::<Vec<u8>>::new());
}

#[test]
fn two_processes_do_not_mix() {
    let first = coordinate(Ok(10)).unwrap();
    let second = coordinate(Ok(11)).unwrap();
    let (mut a_out, mut a_err) = (first.stdout, first.stderr);
    let (mut b_out, mut b_err) = (second.stdout, second.stderr);
    let mut a_buf = [0u8; CHUNK_SIZE];
    let mut b_buf = [0u8; CHUNK_SIZE];
    a_buf[..3].copy_from_slice(b"one");
    b_buf[..3].copy_from_slice(b"two");

    let mut a_seen = Vec::new();
    let mut b_seen = Vec::new();
    a_seen.extend(a_out.on_read(&a_buf, ReadResult::Bytes(3)));
    b_seen.extend(b_out.on_read(&b_buf, ReadResult::Bytes(3)));
    assert_eq!(b_err.on_read(&b_buf, ReadResult::Bytes(0)), Some(StreamEvent::End));
    b_seen.extend(b_out.on_read(&b_buf, ReadResult::Bytes(0)));
    assert!(a_out.is_reading());
    assert!(a_err.is_reading());
    a_seen.extend(a_out.on_read(&a_buf, ReadResult::Bytes(2)));
    a_seen.extend(a_out.on_read(&a_buf, ReadResult::Failed));

    assert_eq!(concatenated(&a_seen), b"oneon".to_vec());
    assert_eq!(concatenated(&b_seen), b"two".to_vec());
    assert_eq!(a_seen.last(), Some(&StreamEvent::End));
    assert_eq!(b_seen.last(), Some(&StreamEvent::End));
    assert!(a_err.is_reading());
}

#[test]
fn exit_does_not_end_the_streams() {
    let started = coordinate(Ok(77)).unwrap();
    let mut exit = started.exit;
    let mut stdout = started.stdout;
    let outcome = exit.on_wait(WaitResult::Exited(RawStatus { code: Some(0), signal: None }));
    assert!(outcome.is_some());
    assert!(stdout.is_reading());
    assert!(started.stderr.is_reading());
    let events = relay_bytes(&mut stdout, b"late");
    assert_eq!(concatenated(&events), b"late".to_vec());
}

#[test]
fn failed_launch_starts_nothing() {
    let error = LaunchError { os_code: Some(2), message: "No such file or directory".to_string() };
    let started = coordinate(Err(error));
    let expected = LaunchError { os_code: Some(2), message: "No such file or directory".to_string() };
    match started {
        Err(e) => assert_eq!(e, expected),
        Ok(_) => panic!("a failed launch has no process"),
    }
}

#[test]
fn started_process_is_fresh() {
    let started = coordinate(Ok(1)).unwrap();
    assert_eq!(started.id, 1);
    assert!(started.stdout.is_reading());
    assert!(started.stderr.is_reading());
    assert!(started.exit.is_waiting());
}

#[test]
fn env_starts_empty() {
    let env = EnvMap::new();
    assert_eq!(env.len(), 0);
    assert_eq!(env.get(&"PATH".to_string()), None);
    assert!(env.entries().is_empty());
}

#[test]
fn env_insert_and_get() {
    let mut env = EnvMap::new();
    env.insert("A".to_string(), "1".to_string());
    env.insert("B".to_string(), "2".to_string());
    assert_eq!(env.len(), 2);
    assert_eq!(env.get(&"A".to_string()), Some(&"1".to_string()));
    assert_eq!(env.get(&"B".to_string()), Some(&"2".to_string()));
    assert_eq!(env.get(&"C".to_string()), None);
}

#[test]
fn env_insert_replaces_the_value() {
    let mut env = EnvMap::new();
    env.insert("A".to_string(), "1".to_string());
    env.insert("B".to_string(), "2".to_string());
    env.insert("A".to_string(), "3".to_string());
    assert_eq!(env.len(), 2);
    assert_eq!(env.get(&"A".to_string()), Some(&"3".to_string()));
    let keys: Vec<&str> = env.entries().iter().map(|p| p.0.as_str()).collect();
    assert_eq!(keys.iter().filter(|k| **k == "A").count(), 1);
}

#[test]
fn explicit_env_replaces_the_inherited_one() {
    let mut env = EnvMap::new();
    env.insert("ONLY".to_string(), "this".to_string());
    let planned = plan(request("printenv", &[], Some(env)));
    assert_eq!(
        planned.env,
        EnvPolicy::Replace(vec![("ONLY".to_string(), "this".to_string())])
    );
}

#[test]
fn empty_env_is_still_a_replacement() {
    let planned = plan(request("printenv", &[], Some(EnvMap::new())));
    assert_eq!(planned.env, EnvPolicy::Replace(Vec::new()));
}

#[test]
fn absent_env_is_inherited() {
    let planned = plan(request("printenv", &[], None));
    assert_eq!(planned.env, EnvPolicy::Inherit);
}

#[test]
fn plan_keeps_the_request() {
    let mut req = request("echo", &["hello", "world"], None);
    req.working_directory = Some("/tmp".to_string());
    req.argv0_override = Some("say".to_string());
    let planned = plan(req);
    assert_eq!(planned.program, "echo");
    assert_eq!(planned.args, vec!["hello".to_string(), "world".to_string()]);
    assert_eq!(planned.cwd, Some("/tmp".to_string()));
    assert_eq!(planned.arg0, Some("say".to_string()));
    assert_eq!(planned.stdout, StdioMode::Piped);
    assert_eq!(planned.stderr, StdioMode::Piped);
}

#[test]
fn plan_without_options() {
    let planned = plan(request("true", &[], None));
    assert_eq!(planned.program, "true");
    assert!(planned.args.is_empty());
    assert_eq!(planned.cwd, None);
    assert_eq!(planned.arg0, None);
}

#[test]
fn lookups_without_a_value_are_left_out() {
    let lookups = vec![
        ("A".to_string(), Some("1".to_string())),
        ("B".to_string(), None),
        ("C".to_string(), Some("3".to_string())),
    ];
    let env = EnvMap::from_lookups(&lookups);
    assert_eq!(env.len(), 2);
    assert_eq!(env.get(&"A".to_string()), Some(&"1".to_string()));
    assert_eq!(env.get(&"B".to_string()), None);
    assert_eq!(env.get(&"C".to_string()), Some(&"3".to_string()));
}

#[test]
fn later_lookup_of_a_name_wins() {
    let lookups = vec![
        ("A".to_string(), Some("1".to_string())),
        ("A".to_string(), Some("2".to_string())),
        ("A".to_string(), None),
    ];
    let env = EnvMap::from_lookups(&lookups);
    assert_eq!(env.len(), 1);
    assert_eq!(env.get(&"A".to_string()), Some(&"2".to_string()));
}

#[test]
fn no_lookups_give_the_empty_environment() {
    let env = EnvMap::from_lookups(&Vec::new());
    assert_eq!(env.len(), 0);
    assert_eq!(env.into_entries(), Vec::<(String, String)>::new());
}
