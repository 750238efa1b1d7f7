use en_2fa_monitor::alerts::AlertManager;
use en_2fa_monitor::clock::Moment;

fn at(secs: u64) -> Moment {
    Moment { nanos: secs as u128 * 1_000_000_000 }
}

fn manager() -> AlertManager {
    AlertManager::new("era-mainnet".to_string(), 100)
}

#[test]
fn an_alert_fires_repeats_and_resolves() {
    let mut m = manager();
    let mut look = |firing: bool, secs: u64| m.evaluate("k", firing, "bad", "good", at(secs));
    assert_eq!(look(false, 0), None);
    assert_eq!(look(true, 10), Some("🔴 [era-mainnet] bad".to_string()));
    assert_eq!(look(true, 20), None);
    assert_eq!(look(true, 109), None);
    assert_eq!(look(true, 110), Some("🔴 [era-mainnet] (still firing) bad".to_string()));
    assert_eq!(look(true, 209), None);
    assert_eq!(look(true, 215), Some("🔴 [era-mainnet] (still firing) bad".to_string()));
    assert_eq!(look(false, 216), Some("✅ [era-mainnet] RESOLVED: good".to_string()));
    assert_eq!(look(false, 217), None);
    assert_eq!(look(true, 218), Some("🔴 [era-mainnet] bad".to_string()));
}

#[test]
fn the_first_look_can_fire() {
    let mut m = manager();
    assert_eq!(m.evaluate("k", true, "bad", "good", at(0)), Some("🔴 [era-mainnet] bad".to_string()));
}

#[test]
fn conditions_do_not_disturb_each_other() {
    let mut m = manager();
    assert!(m.evaluate("a", true, "bad", "good", at(0)).is_some());
    assert!(m.evaluate("b", true, "bad", "good", at(1)).is_some());
    assert_eq!(m.active_count(), 2);
    assert!(m.evaluate("a", false, "bad", "good", at(2)).is_some());
    assert_eq!(m.active_count(), 1);
    assert!(m.evaluate("b", true, "bad", "good", at(3)).is_none());
    assert!(m.evaluate("c", false, "bad", "good", at(4)).is_none());
    assert_eq!(m.active_count(), 1);
}

#[test]
fn a_cooldown_of_zero_repeats_every_time() {
    let mut m = AlertManager::new("n".to_string(), 0);
    assert_eq!(m.evaluate("k", true, "x", "y", at(5)), Some("🔴 [n] x".to_string()));
    assert_eq!(m.evaluate("k", true, "x", "y", at(5)), Some("🔴 [n] (still firing) x".to_string()));
    assert_eq!(m.evaluate("k", true, "x", "y", at(4)), Some("🔴 [n] (still firing) x".to_string()));
}
