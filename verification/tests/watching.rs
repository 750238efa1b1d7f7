use en_2fa_monitor::address::Address;
use en_2fa_monitor::clock::Moment;
use en_2fa_monitor::conditions::Reading;
use en_2fa_monitor::monitor::{Action, Event, Monitor};
use en_2fa_monitor::settings::Settings;
use en_2fa_monitor::signers::parse_signers;
use en_2fa_monitor::word::U256;

const A: &str = "0xaaaaaaaaaaaaaaaaaaaaaaaaaaaaaaaaaaaaaaaa";
const B: &str = "0xbbbbbbbbbbbbbbbbbbbbbbbbbbbbbbbbbbbbbbbb";
const FINNEY: u64 = 1_000_000_000_000_000;

struct Signer {
    wei: u64,
    is_member: bool,
    nonce: u64,
}

struct World {
    threshold: u64,
    a: Signer,
    b: Signer,
    committed: u64,
    executed: u64,
    failing: Option<Reading>,
}

fn world() -> World {
    World {
        threshold: 2,
        a: Signer { wei: 100 * FINNEY, is_member: true, nonce: 1 },
        b: Signer { wei: 50 * FINNEY, is_member: true, nonce: 7 },
        committed: 10,
        executed: 10,
        failing: None,
    }
}

fn at(secs: u64) -> Moment {
    Moment { nanos: secs as u128 * 1_000_000_000 }
}

fn address(text: &str) -> Address {
    en_2fa_monitor::address::parse_address(text).unwrap()
}

fn settings(heartbeat_secs: u64) -> Settings {
    let entries = vec![format!("alice={A}"), B.to_string()];
    let roster = match parse_signers(&entries) {
        Ok(r) => r,
        Err(e) => panic!("{}", e.message()),
    };
    Settings {
        network_name: "net".to_string(),
        signers: roster.signers,
        labels: roster.labels,
        min_balance_wei: U256::from_u64(50 * FINNEY),
        min_balance_eth: "0.05".to_string(),
        exec_lag_alert: 1,
        stall_secs: 3600,
        poll_interval_secs: 60,
        alert_cooldown_secs: 3600,
        heartbeat_secs,
    }
}

fn answer(w: &World, reading: Reading) -> Event {
    if w.failing == Some(reading) {
        return Event::Failed;
    }
    let of = |a: Address| if a == address(A) { &w.a } else { &w.b };
    match reading {
        Reading::Threshold => Event::Number(U256::from_u64(w.threshold)),
        Reading::Balance(a) => Event::Number(U256::from_u64(of(a).wei)),
        Reading::Membership(a) => Event::Flag(of(a).is_member),
        Reading::Nonce(a) => Event::Number(U256::from_u64(of(a).nonce)),
        Reading::Committed => Event::Number(U256::from_u64(w.committed)),
        Reading::Executed => Event::Number(U256::from_u64(w.executed)),
    }
}

/// Runs one cycle at one instant; gives the texts sent and the readings made.
fn cycle_log(m: &mut Monitor, w: &World, secs: u64) -> (Vec<String>, Vec<Reading>) {
    let mut texts = Vec::new();
    let mut readings = Vec::new();
    let mut event = Event::Done;
    loop {
        match m.step(event, at(secs)) {
            Some(Action::Read(reading)) => {
                readings.push(reading);
                event = answer(w, reading);
            }
            Some(Action::Send(text)) => {
                texts.push(text);
                event = Event::Done;
            }
            Some(Action::Proceed) => event = Event::Done,
            Some(Action::Sleep(n)) => {
                assert_eq!(n, 60);
                return (texts, readings);
            }
            None => panic!("no answer"),
        }
    }
}

fn cycle(m: &mut Monitor, w: &World, secs: u64) -> Vec<String> {
    cycle_log(m, w, secs).0
}

#[test]
fn a_healthy_network_is_not_spoken_of() {
    let mut m = Monitor::new(settings(0), at(0));
    let w = world();
    let (texts, readings) = cycle_log(&mut m, &w, 1);
    assert_eq!(texts.len(), 0);
    assert_eq!(
        readings,
        vec![
            Reading::Threshold,
            Reading::Balance(address(A)),
            Reading::Membership(address(A)),
            Reading::Nonce(address(A)),
            Reading::Balance(address(B)),
            Reading::Membership(address(B)),
            Reading::Nonce(address(B)),
            Reading::Committed,
            Reading::Executed,
        ]
    );
    assert_eq!(m.usable(), 2);
}

#[test]
fn low_funds_are_reported_and_resolved() {
    let mut m = Monitor::new(settings(0), at(0));
    let mut w = world();
    w.b.wei = 50 * FINNEY - 1;
    assert_eq!(
        cycle(&mut m, &w, 1),
        vec![
            format!("🔴 [net] signer {B} low balance: 0.049999999999999999 ETH (< 0.05 ETH)"),
            "🔴 [net] only 1 signers are funded AND registered, but threshold is 2 — the network may be unable to execute batches".to_string(),
        ]
    );
    assert_eq!(m.usable(), 1);
    assert_eq!(cycle(&mut m, &w, 61).len(), 0);
    w.b.wei = 2000 * FINNEY;
    assert_eq!(
        cycle(&mut m, &w, 121),
        vec![
            format!("✅ [net] RESOLVED: signer {B} balance restored: 2.000000000000000000 ETH"),
            "✅ [net] RESOLVED: enough usable signers again (2 >= threshold 2)".to_string(),
        ]
    );
}

#[test]
fn a_missing_member_is_reported_by_its_label() {
    let mut m = Monitor::new(settings(0), at(0));
    let mut w = world();
    w.threshold = 1;
    w.a.is_member = false;
    assert_eq!(
        cycle(&mut m, &w, 1),
        vec![format!("🔴 [net] signer alice ({A}) is NOT a registered multisig member")]
    );
    w.a.is_member = true;
    assert_eq!(
        cycle(&mut m, &w, 2),
        vec![format!("✅ [net] RESOLVED: signer alice ({A}) is a registered multisig member again")]
    );
}

#[test]
fn a_standstill_is_reported_once_it_lasts() {
    let mut m = Monitor::new(settings(0), at(0));
    let mut w = world();
    w.committed = 13;
    assert_eq!(cycle(&mut m, &w, 100).len(), 0);
    assert_eq!(cycle(&mut m, &w, 3699).len(), 0);
    // The chain has committed nothing for over an hour, but three batches await execution, and
    // neither signer has sent anything.
    assert_eq!(
        cycle(&mut m, &w, 3701),
        vec![
            "🔴 [net] execution stalled: 3 batches committed-but-not-executed and no progress for over 3600s (committed=13, executed=10). Threshold likely not being met.".to_string(),
            format!("🔴 [net] signer alice ({A}) has sent no L1 tx for over 3600s while batches await execution — node may be down (every healthy signer should approve every batch)"),
            format!("🔴 [net] signer {B} has sent no L1 tx for over 3600s while batches await execution — node may be down (every healthy signer should approve every batch)"),
        ]
    );
    w.executed = 11;
    assert_eq!(
        cycle(&mut m, &w, 3800),
        vec!["✅ [net] RESOLVED: execution is progressing again".to_string()]
    );
}

#[test]
fn a_standstill_is_counted_across_failed_cycles() {
    let mut m = Monitor::new(settings(0), at(0));
    let mut w = world();
    w.committed = 13;
    assert_eq!(cycle(&mut m, &w, 100).len(), 0);
    w.failing = Some(Reading::Executed);
    assert_eq!(
        cycle(&mut m, &w, 2000),
        vec!["🔴 [net] monitor cannot read L1: getTotalBatchesExecuted".to_string()]
    );
    // An hour after the counters and nonces were first seen.
    w.failing = None;
    let texts = cycle(&mut m, &w, 3700);
    assert_eq!(texts.len(), 4);
    assert!(texts[0].starts_with("🔴 [net] execution stalled: 3 batches"));
    assert!(texts[1].starts_with(&format!("🔴 [net] signer alice ({A}) has sent no L1 tx for over 3600s while the chain keeps")));
    assert!(texts[2].starts_with(&format!("🔴 [net] signer {B} has sent no L1 tx for over 3600s while the chain keeps")));
    assert_eq!(texts[3], "✅ [net] RESOLVED: monitor can read L1 again");
    // A cycle that fails once everybody has moved resolves nothing of this.
    w.executed = 13;
    w.a.nonce = 2;
    w.b.nonce = 8;
    w.failing = Some(Reading::Executed);
    assert_eq!(cycle(&mut m, &w, 3800).len(), 1);
    w.failing = None;
    assert_eq!(
        cycle(&mut m, &w, 3900),
        vec![
            "✅ [net] RESOLVED: execution is progressing again".to_string(),
            format!("✅ [net] RESOLVED: signer alice ({A}) is active again"),
            format!("✅ [net] RESOLVED: signer {B} is active again"),
            "✅ [net] RESOLVED: monitor can read L1 again".to_string(),
        ]
    );
}

#[test]
fn no_backlog_is_no_standstill() {
    let mut m = Monitor::new(settings(0), at(0));
    let mut w = world();
    w.executed = 12;
    assert_eq!(cycle(&mut m, &w, 0).len(), 0);
    assert_eq!(cycle(&mut m, &w, 9000).len(), 0);
}

#[test]
fn a_silent_signer_is_reported_while_the_chain_commits() {
    let mut m = Monitor::new(settings(0), at(0));
    let mut w = world();
    assert_eq!(cycle(&mut m, &w, 0).len(), 0);
    w.committed = 11;
    w.executed = 11;
    w.a.nonce = 2;
    assert_eq!(
        cycle(&mut m, &w, 3600),
        vec![format!("🔴 [net] signer {B} has sent no L1 tx for over 3600s while the chain keeps committing batches — node may be down (every healthy signer should approve every batch)")]
    );
    // The chain falls silent: there is nothing to sign.
    assert_eq!(
        cycle(&mut m, &w, 7201),
        vec![format!("✅ [net] RESOLVED: signer {B} is active again")]
    );
}

#[test]
fn a_silent_signer_stays_reported_while_batches_await_execution() {
    let mut m = Monitor::new(settings(0), at(0));
    let mut w = world();
    w.executed = 9;
    assert_eq!(cycle(&mut m, &w, 0).len(), 0);
    w.committed = 11;
    w.executed = 10;
    w.a.nonce = 2;
    assert_eq!(
        cycle(&mut m, &w, 3600),
        vec![format!("🔴 [net] signer {B} has sent no L1 tx for over 3600s while the chain keeps committing batches — node may be down (every healthy signer should approve every batch)")]
    );
    // The chain falls silent with one batch left to execute. Others keep the network going.
    w.a.nonce = 3;
    assert_eq!(
        cycle(&mut m, &w, 7201),
        vec![
            "🔴 [net] execution stalled: 1 batches committed-but-not-executed and no progress for over 3600s (committed=11, executed=10). Threshold likely not being met.".to_string(),
            format!("🔴 [net] (still firing) signer {B} has sent no L1 tx for over 3600s while batches await execution — node may be down (every healthy signer should approve every batch)"),
        ]
    );
    // Nothing is left to sign.
    w.executed = 11;
    assert_eq!(
        cycle(&mut m, &w, 7300),
        vec![
            "✅ [net] RESOLVED: execution is progressing again".to_string(),
            format!("✅ [net] RESOLVED: signer {B} is active again"),
        ]
    );
}

#[test]
fn a_signer_that_moves_is_active_again() {
    let mut m = Monitor::new(settings(0), at(0));
    let mut w = world();
    assert_eq!(cycle(&mut m, &w, 0).len(), 0);
    w.committed = 11;
    w.executed = 11;
    assert_eq!(cycle(&mut m, &w, 3600).len(), 2);
    w.a.nonce = 2;
    assert_eq!(
        cycle(&mut m, &w, 3660),
        vec![format!("✅ [net] RESOLVED: signer alice ({A}) is active again")]
    );
}

#[test]
fn a_failed_reading_ends_the_cycle() {
    let mut m = Monitor::new(settings(0), at(0));
    let mut w = world();
    w.a.is_member = false;
    w.failing = Some(Reading::Nonce(address(B)));
    let (texts, readings) = cycle_log(&mut m, &w, 1);
    assert_eq!(
        texts,
        vec![
            format!("🔴 [net] signer alice ({A}) is NOT a registered multisig member"),
            format!("🔴 [net] monitor cannot read L1: get_transaction_count {B}"),
        ]
    );
    assert_eq!(readings.len(), 7);
    w.failing = None;
    w.a.is_member = true;
    assert_eq!(
        cycle(&mut m, &w, 2),
        vec![
            format!("✅ [net] RESOLVED: signer alice ({A}) is a registered multisig member again"),
            "✅ [net] RESOLVED: monitor can read L1 again".to_string(),
        ]
    );
}

#[test]
fn a_failed_cycle_leaves_alone_what_it_did_not_get_to() {
    let mut m = Monitor::new(settings(0), at(0));
    let mut w = world();
    assert_eq!(cycle(&mut m, &w, 0).len(), 0);
    w.committed = 11;
    w.executed = 11;
    assert_eq!(cycle(&mut m, &w, 3600).len(), 2);
    // Both signers move and lose their funds, but only the first one is done with.
    w.a.nonce = 2;
    w.b.nonce = 8;
    w.a.wei = 0;
    w.b.wei = 0;
    w.failing = Some(Reading::Balance(address(B)));
    assert_eq!(
        cycle(&mut m, &w, 3700),
        vec![
            format!("🔴 [net] signer alice ({A}) low balance: 0.000000000000000000 ETH (< 0.05 ETH)"),
            format!("🔴 [net] monitor cannot read L1: get_balance {B}"),
        ]
    );
    // The rest follows once the chain can be read; the first signer's nonce was seen at 3700.
    w.failing = None;
    w.committed = 12;
    w.executed = 12;
    let texts = cycle(&mut m, &w, 7299);
    assert_eq!(
        texts,
        vec![
            format!("🔴 [net] signer {B} low balance: 0.000000000000000000 ETH (< 0.05 ETH)"),
            format!("✅ [net] RESOLVED: signer alice ({A}) is active again"),
            format!("✅ [net] RESOLVED: signer {B} is active again"),
            "🔴 [net] only 0 signers are funded AND registered, but threshold is 2 — the network may be unable to execute batches".to_string(),
            "✅ [net] RESOLVED: monitor can read L1 again".to_string(),
        ]
    );
    let texts = cycle(&mut m, &w, 7300);
    assert_eq!(texts.len(), 2);
    assert_eq!(
        texts[0],
        format!("🔴 [net] (still firing) signer alice ({A}) low balance: 0.000000000000000000 ETH (< 0.05 ETH)")
    );
    assert!(texts[1].starts_with(&format!("🔴 [net] signer alice ({A}) has sent no L1 tx")));
}

#[test]
fn labels_change_only_words() {
    let mut plain = settings(100);
    plain.labels = en_2fa_monitor::table::Table::new();
    let mut m = Monitor::new(settings(100), at(0));
    let mut n = Monitor::new(plain, at(0));
    let mut w = world();
    for secs in [0, 99, 100, 3600, 3701, 7300, 7301] {
        w.committed = w.committed + 1;
        w.a.is_member = !w.a.is_member;
        let (x, p) = cycle_log(&mut m, &w, secs);
        let (y, q) = cycle_log(&mut n, &w, secs);
        assert_eq!(p, q);
        assert_eq!(x.len(), y.len());
        for k in 0..x.len() {
            assert_eq!(x[k].replace(&format!("alice ({A})"), A), y[k]);
        }
        assert_eq!(m.usable(), n.usable());
    }
}

#[test]
fn a_cycle_is_complete_before_its_end() {
    let mut m = Monitor::new(settings(0), at(0));
    let w = world();
    let mut event = Event::Done;
    let mut completed: usize = 0;
    loop {
        match m.step(event, at(1)) {
            Some(Action::Read(reading)) => event = answer(&w, reading),
            Some(Action::Sleep(_)) => break,
            Some(_) => event = Event::Done,
            None => panic!("no answer"),
        }
        if m.is_complete() {
            completed = completed + 1;
        }
    }
    assert_eq!(completed, 1);
}

#[test]
fn each_failed_reading_is_named() {
    let cases = [
        (Reading::Threshold, "read threshold".to_string()),
        (Reading::Balance(address(A)), format!("get_balance {A}")),
        (Reading::Membership(address(A)), format!("executionMultisigMember {A}")),
        (Reading::Nonce(address(A)), format!("get_transaction_count {A}")),
        (Reading::Committed, "getTotalBatchesCommitted".to_string()),
        (Reading::Executed, "getTotalBatchesExecuted".to_string()),
    ];
    for (reading, name) in cases {
        assert_eq!(reading.describe(), name);
        let mut m = Monitor::new(settings(0), at(0));
        let mut w = world();
        w.failing = Some(reading);
        assert_eq!(
            cycle(&mut m, &w, 1),
            vec![format!("🔴 [net] monitor cannot read L1: {name}")]
        );
    }
}

#[test]
fn heartbeats_come_at_their_interval() {
    let mut m = Monitor::new(settings(100), at(0));
    let mut w = world();
    assert_eq!(cycle(&mut m, &w, 99).len(), 0);
    assert_eq!(
        cycle(&mut m, &w, 100),
        vec!["💚 [net] heartbeat: all 2 signers healthy".to_string()]
    );
    assert_eq!(cycle(&mut m, &w, 199).len(), 0);
    w.a.is_member = false;
    let texts = cycle(&mut m, &w, 200);
    assert_eq!(texts.len(), 3);
    assert_eq!(texts[2], "⚠️ [net] heartbeat: 2 active alert(s)");
}

#[test]
fn no_heartbeat_if_turned_off() {
    let mut m = Monitor::new(settings(0), at(0));
    let w = world();
    assert_eq!(cycle(&mut m, &w, 0).len(), 0);
    assert_eq!(cycle(&mut m, &w, 1_000_000).len(), 0);
}

#[test]
fn an_event_out_of_turn_changes_nothing() {
    let mut m = Monitor::new(settings(0), at(0));
    assert!(m.step(Event::Failed, at(0)).is_none());
    assert!(m.step(Event::Flag(true), at(0)).is_none());
    assert!(matches!(m.step(Event::Done, at(0)), Some(Action::Read(Reading::Threshold))));
    assert!(m.step(Event::Done, at(0)).is_none());
    assert!(m.step(Event::Flag(true), at(0)).is_none());
    assert!(matches!(
        m.step(Event::Number(U256::from_u64(1)), at(0)),
        Some(Action::Read(Reading::Balance(_)))
    ));
}

#[test]
fn large_numbers_are_written_in_full() {
    let mut s = settings(0);
    s.min_balance_wei = U256(0, 0, 0, 0);
    let mut m = Monitor::new(s, at(0));
    let w = world();
    let mut event = Event::Done;
    let mut texts = Vec::new();
    loop {
        match m.step(event, at(1)) {
            Some(Action::Read(Reading::Threshold)) => {
                event = Event::Number(U256(u64::MAX, u64::MAX, u64::MAX, u64::MAX));
            }
            Some(Action::Read(reading)) => event = answer(&w, reading),
            Some(Action::Send(text)) => {
                texts.push(text);
                event = Event::Done;
            }
            Some(Action::Proceed) => event = Event::Done,
            Some(Action::Sleep(_)) => break,
            None => panic!("no answer"),
        }
    }
    assert_eq!(
        texts,
        vec!["🔴 [net] only 2 signers are funded AND registered, but threshold is 115792089237316195423570985008687907853269984665640564039457584007913129639935 — the network may be unable to execute batches".to_string()]
    );
}
