use faf_dns_bench::codec::encode;
use faf_dns_bench::scheduler::{
    Action, Config, ConfigError, Event, Phase, Scheduler, Verdict, MAX_DOMAINS, WAIT_INTERVAL_NS,
};
use faf_dns_bench::timing::Slot;

fn config(total: usize, limit: usize, timeout_ms: u64) -> Config {
    Config::new(total, total, limit, timeout_ms).unwrap()
}

fn answer(id: u16) -> Vec<u8> {
    encode("example.com", id).unwrap()
}

/// Sends until the scheduler asks to wait, and returns the ids sent.
fn fill(scheduler: &mut Scheduler, now: u64) -> Vec<u16> {
    let mut sent = Vec::new();
    loop {
        match scheduler.decide(now) {
            Action::Send { id } => sent.push(id),
            Action::Wait => return sent,
            other => panic!("unexpected action {:?}", other),
        }
    }
}

#[test]
fn wishes_are_checked_in_order() {
    assert_eq!(Config::new(65536, 70000, 8, 2000), Err(ConfigError::TooManyDomains));
    assert_eq!(Config::new(65536, 10, 0, 2000), Err(ConfigError::TooManyDomains));
    assert_eq!(Config::new(250, 249, 8, 2000), Err(ConfigError::NotEnoughDomains));
    assert_eq!(Config::new(250, 249, 0, 2000), Err(ConfigError::NotEnoughDomains));
    assert_eq!(Config::new(250, 250, 0, 2000), Err(ConfigError::ZeroConcurrency));
    assert_eq!(
        Config::new(65535, 65535, 1, 0),
        Ok(Config { total_domains: 65535, concurrency_limit: 1, timeout_ns: 0 })
    );
    assert_eq!(MAX_DOMAINS, 65535);
}

#[test]
fn timeout_is_taken_in_milliseconds() {
    assert_eq!(Config::new(1, 1, 1, 2000).unwrap().timeout_ns, 2_000_000_000);
    assert_eq!(Config::new(1, 1, 1, 18_446_744_073_709).unwrap().timeout_ns, 18_446_744_073_709_000_000);
    assert_eq!(Config::new(1, 1, 1, 18_446_744_073_710).unwrap().timeout_ns, u64::MAX);
    assert_eq!(Config::new(1, 1, 1, u64::MAX).unwrap().timeout_ns, u64::MAX);
}

#[test]
fn a_run_without_domains_is_over_at_once() {
    let mut scheduler = Scheduler::new(config(0, 4, 2000), 5);
    assert_eq!(scheduler.phase(), Phase::Done);
    assert!(scheduler.is_done());
    assert_eq!(scheduler.decide(5), Action::Stop);
    assert_eq!(scheduler.summary(), None);
}

#[test]
fn the_window_is_filled_and_no_further() {
    let mut scheduler = Scheduler::new(config(10, 3, 2000), 1000);
    assert_eq!(scheduler.phase(), Phase::Filling);
    assert_eq!(scheduler.decide(1001), Action::Send { id: 0 });
    assert_eq!(scheduler.outstanding(), 1);
    assert_eq!(scheduler.decide(1002), Action::Send { id: 1 });
    assert_eq!(scheduler.decide(1003), Action::Send { id: 2 });
    assert_eq!(scheduler.outstanding(), 3);
    assert_eq!(scheduler.phase(), Phase::Filling);
    assert_eq!(scheduler.decide(1004), Action::Wait);
    assert_eq!(scheduler.phase(), Phase::Waiting);
    assert_eq!(scheduler.decide(1005), Action::Wait);
    assert_eq!(scheduler.outstanding(), 3);
    assert_eq!(scheduler.sent(), 3);
    assert!(!scheduler.finished_sending());
    assert_eq!(scheduler.store().slot(0), Some(Slot { start: Some(1001), end: None }));
    assert_eq!(scheduler.store().slot(2), Some(Slot { start: Some(1003), end: None }));
    assert_eq!(scheduler.store().slot(3), Some(Slot { start: None, end: None }));
    assert_eq!(scheduler.latest(), 1003);
    assert_eq!(scheduler.last_progress(), 1000);
}

#[test]
fn a_whole_run_keeps_the_window_and_ends_when_all_is_answered() {
    let total = 25usize;
    let limit = 4usize;
    let mut scheduler = Scheduler::new(config(total, limit, 2000), 0);
    let mut now = 0u64;
    let mut in_flight: Vec<u16> = Vec::new();
    let mut action = scheduler.decide(now);
    let mut steps = 0;
    let mut ready = 0;
    loop {
        assert!(scheduler.outstanding() <= limit);
        let handed_out = if matches!(action, Action::Send { .. }) { 1 } else { 0 };
        assert_eq!(scheduler.outstanding(), in_flight.len() + handed_out);
        assert_eq!(scheduler.outstanding() + scheduler.completed(), scheduler.sent());
        steps += 1;
        assert!(steps < 1000);
        match action {
            Action::Send { id } => {
                in_flight.push(id);
                action = scheduler.decide(now);
            },
            Action::Wait => {
                now += 1_000_000;
                ready = 3;
                action = scheduler.step(Event::Waited { readable: true }, now);
            },
            Action::Receive => {
                if in_flight.is_empty() || ready == 0 {
                    action = scheduler.step(Event::WouldBlock, now);
                } else {
                    ready -= 1;
                    let id = in_flight.remove(0);
                    action = scheduler.step(Event::Datagram(&answer(id)), now);
                }
            },
            Action::Stop => break,
        }
    }
    assert!(scheduler.is_done());
    assert_eq!(scheduler.completed(), total);
    assert_eq!(scheduler.outstanding(), 0);
    assert!(scheduler.finished_sending());
    let summary = scheduler.summary().unwrap();
    assert_eq!(summary.n_samples, total);
    assert_eq!(summary.n_unanswered, 0);
}

#[test]
fn an_answer_is_counted_once() {
    let mut scheduler = Scheduler::new(config(5, 3, 2000), 0);
    assert_eq!(fill(&mut scheduler, 10), vec![0, 1, 2]);
    scheduler.wait_over(true, 20);
    assert_eq!(scheduler.phase(), Phase::Draining);
    assert_eq!(scheduler.on_datagram(&answer(1), 30), Verdict::Accepted(1));
    assert_eq!(scheduler.outstanding(), 2);
    assert_eq!(scheduler.completed(), 1);
    assert_eq!(scheduler.last_progress(), 30);
    assert_eq!(scheduler.store().slot(1), Some(Slot { start: Some(10), end: Some(30) }));
    // the same answer again changes nothing
    assert_eq!(scheduler.on_datagram(&answer(1), 40), Verdict::Duplicate);
    assert_eq!(scheduler.outstanding(), 2);
    assert_eq!(scheduler.completed(), 1);
    assert_eq!(scheduler.last_progress(), 30);
    assert_eq!(scheduler.latest(), 30);
    assert_eq!(scheduler.store().slot(1), Some(Slot { start: Some(10), end: Some(30) }));
    // and so does another datagram with the same id
    assert_eq!(scheduler.on_datagram(&[0, 1], 50), Verdict::Duplicate);
    assert_eq!(scheduler.completed(), 1);
}

#[test]
fn datagrams_are_judged() {
    let mut scheduler = Scheduler::new(config(5, 2, 2000), 0);
    assert_eq!(scheduler.on_datagram(&answer(0), 1), Verdict::OutOfTurn);
    assert_eq!(fill(&mut scheduler, 10), vec![0, 1]);
    assert_eq!(scheduler.on_datagram(&answer(0), 11), Verdict::OutOfTurn);
    scheduler.wait_over(true, 20);
    assert_eq!(scheduler.on_datagram(&[], 21), Verdict::Empty);
    assert_eq!(scheduler.on_datagram(&[0u8; 513], 21), Verdict::Oversized);
    assert_eq!(scheduler.on_datagram(&[0], 21), Verdict::Truncated);
    assert_eq!(scheduler.on_datagram(&[0, 5], 21), Verdict::UnknownId);
    assert_eq!(scheduler.on_datagram(&[255, 255], 21), Verdict::UnknownId);
    assert_eq!(scheduler.on_datagram(&[0, 2], 21), Verdict::Unsent);
    assert_eq!(scheduler.on_datagram(&[0, 4], 21), Verdict::Unsent);
    assert_eq!(scheduler.completed(), 0);
    assert_eq!(scheduler.outstanding(), 2);
    assert_eq!(scheduler.last_progress(), 0);
    // a datagram of the largest size is taken
    let mut largest = vec![0u8; 512];
    largest[1] = 1;
    assert_eq!(scheduler.on_datagram(&largest, 22), Verdict::Accepted(1));
    // two bytes are enough
    assert_eq!(scheduler.on_datagram(&[0, 0], 23), Verdict::Accepted(0));
    assert_eq!(scheduler.on_datagram(&[0, 0], 24), Verdict::Duplicate);
    assert_eq!(scheduler.completed(), 2);
    assert_eq!(scheduler.outstanding(), 0);
}

#[test]
fn a_silent_server_ends_the_run_after_the_timeout() {
    let timeout_ms = 2000u64;
    let timeout_ns = timeout_ms * 1_000_000;
    let mut scheduler = Scheduler::new(config(20, 8, timeout_ms), 0);
    let mut now = 0u64;
    assert_eq!(fill(&mut scheduler, now).len(), 8);
    let mut waits = 0;
    loop {
        now += WAIT_INTERVAL_NS;
        waits += 1;
        match scheduler.step(Event::Waited { readable: false }, now) {
            Action::Wait => assert!(now <= timeout_ns),
            Action::Stop => break,
            other => panic!("unexpected action {:?}", other),
        }
    }
    assert!(scheduler.is_done());
    assert!(now > timeout_ns);
    assert!(now <= timeout_ns + WAIT_INTERVAL_NS);
    assert_eq!(waits, 21);
    assert_eq!(scheduler.completed(), 0);
    assert_eq!(scheduler.outstanding(), 8);
    assert_eq!(scheduler.summary(), None);
}

#[test]
fn the_timeout_counts_from_the_last_answer() {
    let mut scheduler = Scheduler::new(config(3, 3, 1), 0);
    assert_eq!(fill(&mut scheduler, 0), vec![0, 1, 2]);
    // exactly the timeout has passed: the run goes on
    assert_eq!(scheduler.step(Event::Waited { readable: false }, 1_000_000), Action::Wait);
    assert_eq!(scheduler.step(Event::Waited { readable: true }, 1_000_000), Action::Receive);
    assert_eq!(scheduler.step(Event::Datagram(&answer(2)), 1_000_000), Action::Receive);
    assert_eq!(scheduler.last_progress(), 1_000_000);
    assert_eq!(scheduler.step(Event::WouldBlock, 1_000_001), Action::Wait);
    // one timeout after the answer the run still goes on, a moment later it is over
    assert_eq!(scheduler.step(Event::Waited { readable: false }, 2_000_000), Action::Wait);
    assert_eq!(scheduler.step(Event::Waited { readable: false }, 2_000_001), Action::Stop);
    assert_eq!(scheduler.phase(), Phase::Done);
    // nothing happens any more
    assert_eq!(scheduler.step(Event::Waited { readable: true }, 2_000_002), Action::Stop);
    assert_eq!(scheduler.step(Event::Datagram(&answer(0)), 2_000_003), Action::Stop);
    assert_eq!(scheduler.on_datagram(&answer(0), 2_000_004), Verdict::OutOfTurn);
    assert_eq!(scheduler.completed(), 1);
}

#[test]
fn what_was_not_answered_is_reported() {
    let total = 10usize;
    let mut scheduler = Scheduler::new(config(total, 10, 2000), 0);
    assert_eq!(fill(&mut scheduler, 100).len(), 10);
    scheduler.wait_over(true, 200);
    for (i, id) in [7u16, 2, 5].iter().enumerate() {
        let now = 1000 + 100 * i as u64;
        assert_eq!(scheduler.on_datagram(&answer(*id), now), Verdict::Accepted(*id));
    }
    scheduler.drained(1300);
    assert_eq!(scheduler.decide(1300), Action::Wait);
    scheduler.wait_over(false, 5_000_000_000);
    assert!(scheduler.is_done());
    let summary = scheduler.summary().unwrap();
    assert_eq!(summary.n_samples, 3);
    assert_eq!(summary.n_unanswered, 7);
    assert_eq!(summary.n_samples, scheduler.completed());
    // elapsed times are 1000, 900 and 1100: ids 2, 5 and 7
    assert_eq!(scheduler.store().elapsed(), vec![1000, 1100, 900]);
    assert_eq!(summary.min_ns, 900);
    assert_eq!(summary.median_ns, 1000);
    assert_eq!(summary.max_ns, 1100);
    assert_eq!(summary.mean_ns, 1000);
    assert_eq!(summary.stddev_ns, 100);
}

#[test]
fn events_out_of_turn_change_nothing() {
    let mut scheduler = Scheduler::new(config(2, 1, 2000), 0);
    scheduler.wait_over(true, 1);
    assert_eq!(scheduler.phase(), Phase::Filling);
    scheduler.drained(5_000_000_000);
    assert_eq!(scheduler.phase(), Phase::Filling);
    assert_eq!(scheduler.decide(5_000_000_000), Action::Send { id: 0 });
    assert_eq!(scheduler.decide(5_000_000_000), Action::Wait);
    scheduler.drained(5_000_000_001);
    assert_eq!(scheduler.phase(), Phase::Waiting);
    assert_eq!(scheduler.config().concurrency_limit, 1);
}
