use portscan::engine::{EngineState, ProbeOutcome, Worker};
use portscan::error::ScanError;
use portscan::result::{PortStatus, ScanResult};
use portscan::work::{build_work_list, effective_threads, merge_batches, partition, sort_by_port};

fn pending(address: &str, port: u16) -> ScanResult {
    ScanResult::initialize(address, port)
}

/// Runs a work list through `threads` workers, each probe answered by `answer`.
fn run(
    engine: &mut EngineState,
    work: Vec<ScanResult>,
    threads: usize,
    sort: bool,
    answer: impl Fn(&ScanResult) -> ProbeOutcome,
) -> Vec<ScanResult> {
    let n = effective_threads(threads, work.len());
    let chunks = partition(work.len(), n);
    let mut batches = vec![];
    for (start, end) in chunks {
        let mut worker = Worker::new(work[start..end].to_vec());
        while let Some((address, port)) = worker.next_target(engine.cancel_requested) {
            let outcome = answer(&ScanResult::initialize(&address, port));
            worker.record(engine, outcome);
        }
        batches.push(worker.finish());
    }
    merge_batches(batches, sort)
}

#[test]
fn initialized_record_is_pending() {
    let r = ScanResult::initialize("localhost", 80);
    assert_eq!(r.address, "localhost");
    assert_eq!(r.port, 80);
    assert_eq!(r.host_name, None);
    assert_eq!(r.port_status, PortStatus::Unknown);
    assert_eq!(r.scan_date, None);
}

#[test]
fn finalized_record_carries_rfc3339_date() {
    let r = ScanResult::new("localhost", 22, "127.0.0.1", PortStatus::Open);
    assert_eq!(r.host_name.as_deref(), Some("127.0.0.1"));
    assert_eq!(r.port_status, PortStatus::Open);
    let date = r.scan_date.unwrap();
    assert!(date.len() >= 25);
    assert_eq!(&date[4..5], "-");
    assert_eq!(&date[10..11], "T");
    assert!(date.ends_with("+00:00"));

    let mut p = pending("localhost", 23);
    p.set_scan_result("127.0.0.1", PortStatus::Closed);
    assert_eq!(p.address, "localhost");
    assert_eq!(p.port, 23);
    assert_eq!(p.host_name.as_deref(), Some("127.0.0.1"));
    assert_eq!(p.port_status, PortStatus::Closed);
    assert!(p.scan_date.unwrap().contains('T'));
}

#[test]
fn work_list_is_address_major() {
    let addrs = vec!["a".to_string(), "b".to_string()];
    let w = build_work_list(&addrs, 10, 12);
    let pairs: Vec<(String, u16)> = w.iter().map(|r| (r.address.clone(), r.port)).collect();
    assert_eq!(
        pairs,
        vec![
            ("a".to_string(), 10),
            ("a".to_string(), 11),
            ("a".to_string(), 12),
            ("b".to_string(), 10),
            ("b".to_string(), 11),
            ("b".to_string(), 12)
        ]
    );
    assert!(w.iter().all(|r| r.host_name.is_none() && r.scan_date.is_none()));
    assert!(w.iter().all(|r| r.port_status == PortStatus::Unknown));
}

#[test]
fn single_port_gives_one_item_per_address() {
    let addrs = vec!["x".to_string(), "y".to_string(), "z".to_string()];
    let w = build_work_list(&addrs, 443, 443);
    assert_eq!(w.len(), 3);
    assert!(w.iter().all(|r| r.port == 443));
}

#[test]
fn reversed_range_gives_no_work() {
    let addrs = vec!["x".to_string()];
    assert!(build_work_list(&addrs, 5, 4).is_empty());
}

#[test]
fn extreme_ports_are_valid() {
    let addrs = vec!["h".to_string()];
    let w = build_work_list(&addrs, 0, 65535);
    assert_eq!(w.len(), 65536);
    assert_eq!(w[0].port, 0);
    assert_eq!(w[65535].port, 65535);
}

#[test]
fn thread_count_is_clamped() {
    assert_eq!(effective_threads(0, 10), 1);
    assert_eq!(effective_threads(1, 10), 1);
    assert_eq!(effective_threads(4, 10), 4);
    assert_eq!(effective_threads(20, 10), 10);
    assert_eq!(effective_threads(8, 1), 1);
    assert_eq!(effective_threads(8, 0), 1);
}

#[test]
fn last_chunk_takes_the_remainder() {
    assert_eq!(partition(10, 3), vec![(0, 3), (3, 6), (6, 10)]);
    assert_eq!(partition(4, 4), vec![(0, 1), (1, 2), (2, 3), (3, 4)]);
    assert_eq!(partition(7, 1), vec![(0, 7)]);
    assert_eq!(partition(0, 1), vec![(0, 0)]);
}

#[test]
fn sort_is_stable_by_port() {
    let v = vec![pending("b", 3), pending("a", 1), pending("c", 3), pending("d", 2), pending("e", 1)];
    let s = sort_by_port(v);
    let order: Vec<&str> = s.iter().map(|r| r.address.as_str()).collect();
    assert_eq!(order, vec!["a", "e", "d", "b", "c"]);
}

#[test]
fn merge_keeps_join_order_without_sort() {
    let batches = vec![vec![pending("a", 9), pending("a", 1)], vec![], vec![pending("b", 5)]];
    let m = merge_batches(batches, false);
    let ports: Vec<u16> = m.iter().map(|r| r.port).collect();
    assert_eq!(ports, vec![9, 1, 5]);
}

#[test]
fn loopback_scan_of_three_ports() {
    let mut engine = EngineState::new();
    engine.start_scan().unwrap();
    let work = build_work_list(&vec!["127.0.0.1".to_string()], 1, 3);
    let res = run(&mut engine, work, 1, true, |r| {
        if r.port == 2 {
            ProbeOutcome::Open("127.0.0.1".to_string())
        } else {
            ProbeOutcome::Closed("127.0.0.1".to_string())
        }
    });
    let res = engine.conclude(res).unwrap();
    assert_eq!(res.iter().map(|r| r.port).collect::<Vec<_>>(), vec![1, 2, 3]);
    assert_eq!(
        res.iter().map(|r| r.port_status).collect::<Vec<_>>(),
        vec![PortStatus::Closed, PortStatus::Open, PortStatus::Closed]
    );
    for r in &res {
        assert_eq!(r.host_name.as_deref(), Some("127.0.0.1"));
        assert!(r.scan_date.as_ref().unwrap().contains('T'));
    }
    assert!(!engine.is_scanning);
}

#[test]
fn subnet_scan_on_one_port() {
    let addrs: Vec<String> = (0..4).map(|i| format!("192.168.1.{}", i)).collect();
    let mut engine = EngineState::new();
    engine.start_scan().unwrap();
    let work = build_work_list(&addrs, 22, 22);
    let res = run(&mut engine, work, 4, true, |r| ProbeOutcome::Closed(r.address.clone()));
    let res = engine.conclude(res).unwrap();
    assert_eq!(res.len(), 4);
    assert_eq!(res.iter().map(|r| r.address.clone()).collect::<Vec<_>>(), addrs);
    assert!(res.iter().all(|r| r.port == 22));
}

#[test]
fn hundred_ports_on_four_workers() {
    let addrs = vec!["127.0.0.1".to_string()];
    let answer = |r: &ScanResult| {
        if r.port % 7 == 0 {
            ProbeOutcome::Open("127.0.0.1".to_string())
        } else {
            ProbeOutcome::Closed("127.0.0.1".to_string())
        }
    };
    let mut engine = EngineState::new();
    let unsorted = run(&mut engine, build_work_list(&addrs, 1, 100), 4, false, answer);
    assert_eq!(unsorted.len(), 100);
    let sorted = run(&mut engine, build_work_list(&addrs, 1, 100), 4, true, answer);
    assert_eq!(sorted.iter().map(|r| r.port).collect::<Vec<_>>(), (1..=100).collect::<Vec<u16>>());
    let single = run(&mut engine, build_work_list(&addrs, 1, 100), 1, true, answer);
    let key = |r: &ScanResult| (r.address.clone(), r.port, r.host_name.clone(), r.port_status);
    assert_eq!(sorted.iter().map(key).collect::<Vec<_>>(), single.iter().map(key).collect::<Vec<_>>());
    let mut a = unsorted.iter().map(key).collect::<Vec<_>>();
    a.sort_by_key(|k| k.1);
    assert_eq!(a, single.iter().map(key).collect::<Vec<_>>());
}

#[test]
fn more_threads_than_items() {
    let addrs = vec!["h".to_string()];
    let mut engine = EngineState::new();
    let res = run(&mut engine, build_work_list(&addrs, 1, 3), 16, true, |_| ProbeOutcome::Closed("10.0.0.1".to_string()));
    assert_eq!(res.len(), 3);
}

#[test]
fn second_start_is_refused() {
    let mut engine = EngineState::new();
    assert!(engine.start_scan().is_ok());
    let e = engine.start_scan().unwrap_err();
    assert_eq!(e, ScanError::ScanAlreadyRunning);
    assert_eq!(e.message(), "A scan is already running");
    assert!(engine.is_scanning);
}

#[test]
fn cancel_returns_partial_results() {
    let mut engine = EngineState::new();
    engine.start_scan().unwrap();
    let work = build_work_list(&vec!["127.0.0.1".to_string()], 1, 10000);
    let mut done = vec![];
    for (i, item) in work.into_iter().enumerate() {
        if i == 50 {
            engine.cancel_scan().unwrap();
        }
        if engine.cancel_requested {
            break;
        }
        done.push(engine.record_probe(item, ProbeOutcome::Closed("127.0.0.1".to_string())));
    }
    let res = engine.conclude(done).unwrap();
    assert_eq!(res.len(), 50);
    assert!(!engine.is_scanning);
    assert!(!engine.cancel_requested);
    assert!(engine.start_scan().is_ok());
}

#[test]
fn cancel_while_idle_is_refused_twice() {
    let mut engine = EngineState::new();
    engine.start_scan().unwrap();
    assert!(engine.cancel_scan().is_ok());
    assert!(engine.cancel_requested);
    assert!(!engine.is_scanning);
    let e = engine.cancel_scan().unwrap_err();
    assert_eq!(e, ScanError::NoScanRunning);
    assert_eq!(e.message(), "No scan is currently running");
    assert!(engine.cancel_requested);
    assert!(!engine.is_scanning);
    assert_eq!(engine.cancel_scan().unwrap_err(), ScanError::NoScanRunning);
}

#[test]
fn failed_probe_sets_last_error() {
    let mut engine = EngineState::new();
    engine.start_scan().unwrap();
    let r = engine.record_probe(pending("nowhere", 80), ProbeOutcome::Failed("lookup failed".to_string()));
    assert_eq!(r.address, "nowhere");
    assert_eq!(r.port, 80);
    assert_eq!(r.port_status, PortStatus::Unknown);
    assert_eq!(r.host_name.as_deref(), Some(""));
    assert!(r.scan_date.is_some());
    assert_eq!(engine.last_error, "lookup failed");
    let ok = engine.conclude(vec![r]).unwrap();
    assert_eq!(ok.len(), 1);
}

#[test]
fn empty_scan_with_error_fails() {
    let mut engine = EngineState::new();
    engine.start_scan().unwrap();
    engine.record_probe(pending("nowhere", 80), ProbeOutcome::Failed("lookup failed".to_string()));
    let e = engine.conclude(vec![]).unwrap_err();
    assert_eq!(e, ScanError::ProbeFailure("lookup failed".to_string()));
    assert_eq!(e.message(), "lookup failed");
    engine.start_scan().unwrap();
    assert_eq!(engine.last_error, "");
    assert!(engine.conclude(vec![]).unwrap().is_empty());
}

#[test]
fn abort_returns_to_idle() {
    let mut engine = EngineState::new();
    engine.start_scan().unwrap();
    let e = engine.abort(ScanError::InvalidSocketAddress("bad".to_string(), 8080, "no such host".to_string()));
    let e = e.unwrap_err();
    assert_eq!(e.message(), "bad:8080 is an invalid socket address!\nno such host");
    assert!(!engine.is_scanning);
    assert!(!engine.cancel_requested);
}

#[test]
fn invalid_address_message_with_detail() {
    let e = ScanError::InvalidAddress("nohost".to_string(), "failed to lookup".to_string());
    assert_eq!(e.message(), "nohost:80 is an invalid socket address!\nfailed to lookup");
}

#[test]
fn worker_probes_its_slice_in_order() {
    let mut engine = EngineState::new();
    let slice = vec![pending("a", 5), pending("b", 1), pending("c", 3)];
    let mut worker = Worker::new(slice);
    let mut seen = vec![];
    while let Some((address, port)) = worker.next_target(false) {
        seen.push((address.clone(), port));
        worker.record(&mut engine, ProbeOutcome::Closed(address));
    }
    assert_eq!(seen, vec![("a".to_string(), 5), ("b".to_string(), 1), ("c".to_string(), 3)]);
    let done = worker.finish();
    assert_eq!(done.len(), 3);
    assert!(done.iter().all(|r| r.port_status == PortStatus::Closed && r.scan_date.is_some()));
}

#[test]
fn cancelled_worker_stops_early() {
    let mut engine = EngineState::new();
    engine.start_scan().unwrap();
    let work = build_work_list(&vec!["127.0.0.1".to_string()], 1, 10000);
    let mut worker = Worker::new(work);
    let mut probes = 0;
    while let Some((address, _)) = worker.next_target(engine.cancel_requested) {
        probes += 1;
        if probes == 100 {
            engine.cancel_scan().unwrap();
        }
        worker.record(&mut engine, ProbeOutcome::Closed(address));
    }
    let res = engine.conclude(worker.finish()).unwrap();
    assert_eq!(res.len(), 100);
    assert!(res.len() < 10000);
    assert!(engine.start_scan().is_ok());
}
