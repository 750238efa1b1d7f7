//! The single steps of the monitor, each in terms of what it was told and what it remembers, asks
//! for and says.

use crate::address::Address;
use crate::alerts::active_keys;
use crate::clock::Moment;
use crate::conditions::Reading;
use crate::cycle::{lemma_run_append, lemma_run_one, run, Tick};
use crate::monitor::{
    heartbeat_text, initial, transition, Action, ActionView, Event, SignerActivity, Stage, State,
};
use crate::settings::Config;
use crate::text::{decimal, law_decimal_is_unique};
use crate::word::{ether_text, U256};
use vstd::prelude::*;
use vstd::string::*;

verus! {

/// What an action shows is what it asks for.
pub proof fn law_an_action_shows_what_it_asks_for(action: Action)
    ensures
        match action {
            Action::Read(reading) => action@ == ActionView::Read(reading),
            Action::Send(text) => action@ == ActionView::Send(text@),
            Action::Proceed => action@ == ActionView::Proceed,
            Action::Sleep(secs) => action@ == ActionView::Sleep(secs),
        },
{
}

/// A monitor starts between two cycles, with no alert, no activity and no counter seen, and with
/// its times at the start.
pub proof fn law_start(now: Moment)
    ensures
        initial(now).stage == Stage::Rest,
        initial(now).alerts.dom() =~= Set::<Seq<char>>::empty(),
        initial(now).activity.dom() =~= Set::<Address>::empty(),
        initial(now).last_executed is None,
        initial(now).executed_changed_at == now,
        initial(now).last_committed is None,
        initial(now).committed_changed_at == now,
        initial(now).last_heartbeat == now,
        initial(now).threshold == 0,
        initial(now).usable == 0,
        initial(now).index == 0,
{
}

/// A run is one step after the other, each from where the one before led; it sends the texts that
/// its steps send, in their order; and it stops making sense with the first event that is no answer.
pub proof fn law_runs_go_step_by_step(cfg: Config, s: State, ticks: Seq<Tick>, tick: Tick)
    ensures
        run(cfg, s, seq![]) == Some((s, Seq::<Seq<char>>::empty())),
        run(cfg, s, ticks.push(tick)) == match run(cfg, s, ticks) {
            None => None,
            Some((middle, texts)) => match transition(cfg, middle, tick.event, tick.now) {
                None => None,
                Some((next, ActionView::Send(text))) => Some((next, texts.push(text))),
                Some((next, _)) => Some((next, texts)),
            },
        },
{
    assert(ticks.push(tick) =~= ticks + seq![tick]);
    lemma_run_append(cfg, s, ticks, seq![tick]);
    match run(cfg, s, ticks) {
        None => {},
        Some((middle, texts)) => {
            lemma_run_one(cfg, middle, tick);
            match transition(cfg, middle, tick.event, tick.now) {
                None => {},
                Some((next, action)) => {
                    match action {
                        ActionView::Send(text) => {
                            assert(texts + seq![text] =~= texts.push(text));
                        },
                        _ => {
                            assert(texts + Seq::<Seq<char>>::empty() =~= texts);
                        },
                    }
                },
            }
        },
    }
}

/// A cycle starts with the question for the threshold.
pub proof fn law_step_from_rest(cfg: Config, s: State, now: Moment)
    requires
        s.stage == Stage::Rest,
    ensures
        transition(cfg, s, Event::Done, now) == Some(
            (
                State { stage: Stage::Threshold, ..s },
                ActionView::Read(Reading::Threshold),
            ),
        ),
{
}

/// Once the threshold is known, no signer has been counted yet, and the balance of the first signer
/// is asked for; without signers, the number of committed batches.
pub proof fn law_step_from_threshold(cfg: Config, s: State, threshold: U256, now: Moment)
    requires
        s.stage == Stage::Threshold,
    ensures
        ({
            let (next, action) = transition(cfg, s, Event::Number(threshold), now)->0;
            &&& transition(cfg, s, Event::Number(threshold), now) is Some
            &&& next == (State {
                stage: next.stage,
                threshold: threshold@,
                usable: 0,
                index: 0,
                ..s
            })
            &&& cfg.signers.len() > 0 ==> next.stage == Stage::Balance && action
                == ActionView::Read(Reading::Balance(cfg.signers[0]))
            &&& cfg.signers.len() == 0 ==> next.stage == Stage::Committed && action
                == ActionView::Read(Reading::Committed)
        }),
{
}

/// Once the balance of a signer is known, its membership is asked for, and then its nonce.
pub proof fn law_steps_of_the_readings(
    cfg: Config,
    s: State,
    balance: U256,
    is_member: bool,
    t1: Moment,
    t2: Moment,
)
    requires
        s.stage == Stage::Balance,
    ensures
        ({
            let signer = cfg.signers[s.index as int];
            let asked = State { stage: Stage::Membership { balance }, ..s };
            &&& transition(cfg, s, Event::Number(balance), t1) == Some(
                (asked, ActionView::Read(Reading::Membership(signer))),
            )
            &&& transition(cfg, asked, Event::Flag(is_member), t2) == Some(
                (
                    State { stage: Stage::Nonce { balance, is_member }, ..s },
                    ActionView::Read(Reading::Nonce(signer)),
                ),
            )
        }),
{
}

/// Once all of a signer has been read, it is counted as usable exactly if its balance is at least
/// the least balance and it is a member, and its funds are judged: they are low exactly if the
/// balance is less than the least balance.
pub proof fn law_step_that_judges_funds(
    cfg: Config,
    s: State,
    balance: U256,
    is_member: bool,
    nonce: U256,
    now: Moment,
)
    requires
        s.stage == (Stage::Nonce { balance, is_member }),
    ensures
        ({
            let (next, action) = transition(cfg, s, Event::Number(nonce), now)->0;
            let signer = cfg.signers[s.index as int];
            let shown = signer.shown();
            let name = if cfg.labels.dom().contains(signer) {
                cfg.labels[signer] + " ("@ + shown + ")"@
            } else {
                shown
            };
            let key = "low_balance:"@ + shown;
            let firing = balance@ < cfg.min_balance_wei;
            let fire_msg = "signer "@ + name + " low balance: "@ + ether_text(balance@)
                + " ETH (< "@ + cfg.min_balance_eth + " ETH)"@;
            let resolve_msg = "signer "@ + name + " balance restored: "@ + ether_text(balance@)
                + " ETH"@;
            let was = s.alerts.dom().contains(key) && s.alerts[key].active;
            let due = now.nanos - s.alerts[key].last_notified.nanos >= cfg.alert_cooldown_secs
                * 1_000_000_000 || cfg.alert_cooldown_secs == 0;
            &&& next.alerts.dom() == s.alerts.dom().insert(key)
            &&& forall|other: Seq<char>|
                other != key && s.alerts.dom().contains(other) ==> #[trigger] next.alerts[other]
                    == s.alerts[other]
            &&& next.alerts[key].active == firing
            &&& next.alerts[key].last_notified == (if !s.alerts.dom().contains(key) || (firing && (
            !was || due)) {
                now
            } else {
                s.alerts[key].last_notified
            })
            &&& action == (if firing && !was {
                ActionView::Send("🔴 ["@ + cfg.network + "] "@ + fire_msg)
            } else if firing && due {
                ActionView::Send("🔴 ["@ + cfg.network + "] (still firing) "@ + fire_msg)
            } else if !firing && was {
                ActionView::Send("✅ ["@ + cfg.network + "] RESOLVED: "@ + resolve_msg)
            } else {
                ActionView::Proceed
            })
            &&& transition(cfg, s, Event::Number(nonce), now) is Some
            &&& next == (State {
                stage: Stage::Registered { is_member, nonce },
                usable: next.usable,
                alerts: next.alerts,
                ..s
            })
            &&& balance@ >= cfg.min_balance_wei && is_member ==> next.usable == s.usable + 1
            &&& !(balance@ >= cfg.min_balance_wei && is_member) ==> next.usable == s.usable
        }),
{
}

/// Next, the membership of the signer is judged.
pub proof fn law_step_that_judges_membership(
    cfg: Config,
    s: State,
    is_member: bool,
    nonce: U256,
    now: Moment,
)
    requires
        s.stage == (Stage::Registered { is_member, nonce }),
    ensures
        ({
            let (next, action) = transition(cfg, s, Event::Done, now)->0;
            let signer = cfg.signers[s.index as int];
            let shown = signer.shown();
            let name = if cfg.labels.dom().contains(signer) {
                cfg.labels[signer] + " ("@ + shown + ")"@
            } else {
                shown
            };
            let key = "not_member:"@ + shown;
            let firing = !is_member;
            let fire_msg = "signer "@ + name + " is NOT a registered multisig member"@;
            let resolve_msg = "signer "@ + name + " is a registered multisig member again"@;
            let was = s.alerts.dom().contains(key) && s.alerts[key].active;
            let due = now.nanos - s.alerts[key].last_notified.nanos >= cfg.alert_cooldown_secs
                * 1_000_000_000 || cfg.alert_cooldown_secs == 0;
            &&& next.alerts.dom() == s.alerts.dom().insert(key)
            &&& forall|other: Seq<char>|
                other != key && s.alerts.dom().contains(other) ==> #[trigger] next.alerts[other]
                    == s.alerts[other]
            &&& next.alerts[key].active == firing
            &&& next.alerts[key].last_notified == (if !s.alerts.dom().contains(key) || (firing && (
            !was || due)) {
                now
            } else {
                s.alerts[key].last_notified
            })
            &&& action == (if firing && !was {
                ActionView::Send("🔴 ["@ + cfg.network + "] "@ + fire_msg)
            } else if firing && due {
                ActionView::Send("🔴 ["@ + cfg.network + "] (still firing) "@ + fire_msg)
            } else if !firing && was {
                ActionView::Send("✅ ["@ + cfg.network + "] RESOLVED: "@ + resolve_msg)
            } else {
                ActionView::Proceed
            })
            &&& transition(cfg, s, Event::Done, now) is Some
            &&& next == (State { stage: Stage::Noted { nonce }, alerts: next.alerts, ..s })
        }),
{
}

/// Last of a signer, its nonce is noted: with the present time if it is new or has changed, with the
/// time that was noted before if it has not. Nothing is noted of others. The next signer is turned
/// to, or, after the last one, the number of committed batches.
pub proof fn law_step_that_notes_the_nonce(cfg: Config, s: State, nonce: U256, now: Moment)
    requires
        s.stage == (Stage::Noted { nonce }),
    ensures
        ({
            let (next, action) = transition(cfg, s, Event::Done, now)->0;
            let signer = cfg.signers[s.index as int];
            let known = s.activity.dom().contains(signer);
            &&& transition(cfg, s, Event::Done, now) is Some
            &&& next == (State {
                stage: next.stage,
                index: s.index + 1,
                activity: next.activity,
                ..s
            })
            &&& next.activity.dom() == s.activity.dom().insert(signer)
            &&& forall|other: Address|
                other != signer && s.activity.dom().contains(other)
                    ==> #[trigger] next.activity[other] == s.activity[other]
            &&& next.activity[signer].last_nonce == nonce
            &&& known && s.activity[signer].last_nonce@ == nonce@
                ==> next.activity[signer].nonce_changed_at == s.activity[signer].nonce_changed_at
            &&& !(known && s.activity[signer].last_nonce@ == nonce@)
                ==> next.activity[signer].nonce_changed_at == now
            &&& s.index + 1 < cfg.signers.len() ==> next.stage == Stage::Balance && action
                == ActionView::Read(Reading::Balance(cfg.signers[s.index as int + 1]))
            &&& s.index + 1 >= cfg.signers.len() ==> next.stage == Stage::Committed && action
                == ActionView::Read(Reading::Committed)
        }),
{
    let signer = cfg.signers[s.index as int];
    let (next, action) = transition(cfg, s, Event::Done, now)->0;
    crate::word::law_equal_numbers_are_the_same(s.activity[signer].last_nonce, nonce);
    assert(next.activity.dom() =~= s.activity.dom().insert(signer));
}

/// Once the number of committed batches is known, that of executed ones is asked for.
pub proof fn law_step_from_committed(cfg: Config, s: State, committed: U256, now: Moment)
    requires
        s.stage == Stage::Committed,
    ensures
        transition(cfg, s, Event::Number(committed), now) == Some(
            (
                State { stage: Stage::Executed { committed }, ..s },
                ActionView::Read(Reading::Executed),
            ),
        ),
{
}

/// Once both counters are known they are noted, each with the present time if it is new or has
/// changed and with the time noted before if not, and a standstill is judged: it is one if at least
/// the configured number of batches awaits execution, and the number of executed ones has stood for
/// the stall time. What the liveness of the signers is judged by is fixed now: whether the number
/// of committed batches has stood no longer than the stall time, and whether batches await
/// execution.
pub proof fn law_step_that_judges_progress(
    cfg: Config,
    s: State,
    committed: U256,
    executed: U256,
    now: Moment,
)
    requires
        s.stage == (Stage::Executed { committed }),
    ensures
        ({
            let (next, action) = transition(cfg, s, Event::Number(executed), now)->0;
            let lag: int = if committed@ >= executed@ {
                committed@ - executed@
            } else {
                0
            };
            let key = "exec_stalled"@;
            let firing = (committed@ >= executed@ + cfg.exec_lag_alert || cfg.exec_lag_alert == 0)
                && (now.nanos - next.executed_changed_at.nanos >= cfg.stall_secs * 1_000_000_000
                || cfg.stall_secs == 0);
            let fire_msg = "execution stalled: "@ + decimal(lag as nat)
                + " batches committed-but-not-executed and no progress for over "@ + decimal(
                cfg.stall_secs as nat,
            ) + "s (committed="@ + decimal(committed@) + ", executed="@ + decimal(executed@)
                + "). Threshold likely not being met."@;
            let resolve_msg = "execution is progressing again"@;
            let was = s.alerts.dom().contains(key) && s.alerts[key].active;
            let due = now.nanos - s.alerts[key].last_notified.nanos >= cfg.alert_cooldown_secs
                * 1_000_000_000 || cfg.alert_cooldown_secs == 0;
            &&& next.alerts.dom() == s.alerts.dom().insert(key)
            &&& forall|other: Seq<char>|
                other != key && s.alerts.dom().contains(other) ==> #[trigger] next.alerts[other]
                    == s.alerts[other]
            &&& next.alerts[key].active == firing
            &&& next.alerts[key].last_notified == (if !s.alerts.dom().contains(key) || (firing && (
            !was || due)) {
                now
            } else {
                s.alerts[key].last_notified
            })
            &&& action == (if firing && !was {
                ActionView::Send("🔴 ["@ + cfg.network + "] "@ + fire_msg)
            } else if firing && due {
                ActionView::Send("🔴 ["@ + cfg.network + "] (still firing) "@ + fire_msg)
            } else if !firing && was {
                ActionView::Send("✅ ["@ + cfg.network + "] RESOLVED: "@ + resolve_msg)
            } else {
                ActionView::Proceed
            })
            &&& transition(cfg, s, Event::Number(executed), now) is Some
            &&& next == (State {
                stage: next.stage,
                alerts: next.alerts,
                last_executed: Some(executed),
                executed_changed_at: next.executed_changed_at,
                last_committed: Some(committed),
                committed_changed_at: next.committed_changed_at,
                ..s
            })
            &&& s.last_executed == Some(executed) ==> next.executed_changed_at
                == s.executed_changed_at
            &&& s.last_executed != Some(executed) ==> next.executed_changed_at == now
            &&& s.last_committed == Some(committed) ==> next.committed_changed_at
                == s.committed_changed_at
            &&& s.last_committed != Some(committed) ==> next.committed_changed_at == now
            &&& next.stage == (Stage::Liveness {
                next: 0,
                producing: now.nanos - next.committed_changed_at.nanos <= cfg.stall_secs
                    * 1_000_000_000,
                waiting: committed@ > executed@,
                at: now,
            })
        }),
{
}

/// The liveness of a signer is judged by its activity: it is silent if its nonce has stood for the
/// stall time, as of when the counters were read, while the chain commits batches or batches await
/// execution.
pub proof fn law_step_that_judges_liveness(
    cfg: Config,
    s: State,
    place: usize,
    producing: bool,
    waiting: bool,
    at: Moment,
    now: Moment,
)
    requires
        s.stage == (Stage::Liveness { next: place, producing, waiting, at }),
        place < cfg.signers.len() <= usize::MAX,
        (producing || waiting) ==> s.activity.dom().contains(cfg.signers[place as int]),
    ensures
        ({
            let (next, action) = transition(cfg, s, Event::Done, now)->0;
            let signer = cfg.signers[place as int];
            let shown = signer.shown();
            let name = if cfg.labels.dom().contains(signer) {
                cfg.labels[signer] + " ("@ + shown + ")"@
            } else {
                shown
            };
            let key = "inactive:"@ + shown;
            let firing = (producing || waiting) && (at.nanos
                - s.activity[signer].nonce_changed_at.nanos >= cfg.stall_secs * 1_000_000_000
                || cfg.stall_secs == 0);
            let fire_msg = "signer "@ + name + " has sent no L1 tx for over "@ + decimal(
                cfg.stall_secs as nat,
            ) + (if producing {
                "s while the chain keeps committing batches — node may be down (every healthy signer should approve every batch)"@
            } else {
                "s while batches await execution — node may be down (every healthy signer should approve every batch)"@
            });
            let resolve_msg = "signer "@ + name + " is active again"@;
            let was = s.alerts.dom().contains(key) && s.alerts[key].active;
            let due = now.nanos - s.alerts[key].last_notified.nanos >= cfg.alert_cooldown_secs
                * 1_000_000_000 || cfg.alert_cooldown_secs == 0;
            &&& next.alerts.dom() == s.alerts.dom().insert(key)
            &&& forall|other: Seq<char>|
                other != key && s.alerts.dom().contains(other) ==> #[trigger] next.alerts[other]
                    == s.alerts[other]
            &&& next.alerts[key].active == firing
            &&& next.alerts[key].last_notified == (if !s.alerts.dom().contains(key) || (firing && (
            !was || due)) {
                now
            } else {
                s.alerts[key].last_notified
            })
            &&& action == (if firing && !was {
                ActionView::Send("🔴 ["@ + cfg.network + "] "@ + fire_msg)
            } else if firing && due {
                ActionView::Send("🔴 ["@ + cfg.network + "] (still firing) "@ + fire_msg)
            } else if !firing && was {
                ActionView::Send("✅ ["@ + cfg.network + "] RESOLVED: "@ + resolve_msg)
            } else {
                ActionView::Proceed
            })
            &&& transition(cfg, s, Event::Done, now) is Some
            &&& next == (State {
                stage: Stage::Liveness { next: (place + 1) as usize, producing, waiting, at },
                alerts: next.alerts,
                ..s
            })
        }),
{
}

/// A signer of which no nonce is known is passed over while there is work.
pub proof fn law_step_over_an_unknown_signer(
    cfg: Config,
    s: State,
    place: usize,
    producing: bool,
    waiting: bool,
    at: Moment,
    now: Moment,
)
    requires
        s.stage == (Stage::Liveness { next: place, producing, waiting, at }),
        place < cfg.signers.len() <= usize::MAX,
        producing || waiting,
        !s.activity.dom().contains(cfg.signers[place as int]),
    ensures
        transition(cfg, s, Event::Done, now) == Some(
            (
                State {
                    stage: Stage::Liveness { next: (place + 1) as usize, producing, waiting, at },
                    ..s
                },
                ActionView::Proceed,
            ),
        ),
{
}

/// After the last signer, the number of usable signers is held against the threshold.
pub proof fn law_step_that_judges_the_threshold(
    cfg: Config,
    s: State,
    place: usize,
    producing: bool,
    waiting: bool,
    at: Moment,
    now: Moment,
)
    requires
        s.stage == (Stage::Liveness { next: place, producing, waiting, at }),
        place >= cfg.signers.len(),
    ensures
        ({
            let (next, action) = transition(cfg, s, Event::Done, now)->0;
            let key = "usable_below_threshold"@;
            let firing = s.usable < s.threshold;
            let fire_msg = "only "@ + decimal(s.usable)
                + " signers are funded AND registered, but threshold is "@ + decimal(s.threshold)
                + " — the network may be unable to execute batches"@;
            let resolve_msg = "enough usable signers again ("@ + decimal(s.usable)
                + " >= threshold "@ + decimal(s.threshold) + ")"@;
            let was = s.alerts.dom().contains(key) && s.alerts[key].active;
            let due = now.nanos - s.alerts[key].last_notified.nanos >= cfg.alert_cooldown_secs
                * 1_000_000_000 || cfg.alert_cooldown_secs == 0;
            &&& next.alerts.dom() == s.alerts.dom().insert(key)
            &&& forall|other: Seq<char>|
                other != key && s.alerts.dom().contains(other) ==> #[trigger] next.alerts[other]
                    == s.alerts[other]
            &&& next.alerts[key].active == firing
            &&& next.alerts[key].last_notified == (if !s.alerts.dom().contains(key) || (firing && (
            !was || due)) {
                now
            } else {
                s.alerts[key].last_notified
            })
            &&& action == (if firing && !was {
                ActionView::Send("🔴 ["@ + cfg.network + "] "@ + fire_msg)
            } else if firing && due {
                ActionView::Send("🔴 ["@ + cfg.network + "] (still firing) "@ + fire_msg)
            } else if !firing && was {
                ActionView::Send("✅ ["@ + cfg.network + "] RESOLVED: "@ + resolve_msg)
            } else {
                ActionView::Proceed
            })
            &&& transition(cfg, s, Event::Done, now) is Some
            &&& next == (State { stage: Stage::Complete, alerts: next.alerts, ..s })
        }),
{
}

/// A cycle that came to its end could read the chain.
pub proof fn law_step_from_complete(cfg: Config, s: State, now: Moment)
    requires
        s.stage == Stage::Complete,
    ensures
        ({
            let (next, action) = transition(cfg, s, Event::Done, now)->0;
            let key = "monitor_rpc"@;
            let was = s.alerts.dom().contains(key) && s.alerts[key].active;
            &&& transition(cfg, s, Event::Done, now) is Some
            &&& next == (State { stage: Stage::Heartbeat, alerts: next.alerts, ..s })
            &&& next.alerts.dom() == s.alerts.dom().insert(key)
            &&& forall|other: Seq<char>|
                other != key && s.alerts.dom().contains(other) ==> #[trigger] next.alerts[other]
                    == s.alerts[other]
            &&& !next.alerts[key].active
            &&& next.alerts[key].last_notified == (if s.alerts.dom().contains(key) {
                s.alerts[key].last_notified
            } else {
                now
            })
            &&& action == (if was {
                ActionView::Send(
                    "✅ ["@ + cfg.network + "] RESOLVED: "@ + "monitor can read L1 again"@,
                )
            } else {
                ActionView::Proceed
            })
        }),
{
}

/// A reading that fails ends the cycle with the alert that the chain cannot be read, which names
/// that reading, and changes nothing else. Where no reading was asked for, none can fail.
pub proof fn law_step_after_a_failure(cfg: Config, s: State, now: Moment)
    ensures
        ({
            let (next, action) = transition(cfg, s, Event::Failed, now)->0;
            let signer = cfg.signers[s.index as int];
            let failed: Option<Seq<char>> = match s.stage {
                Stage::Threshold => Some("read threshold"@),
                Stage::Balance => Some("get_balance "@ + signer.shown()),
                Stage::Membership { .. } => Some("executionMultisigMember "@ + signer.shown()),
                Stage::Nonce { .. } => Some("get_transaction_count "@ + signer.shown()),
                Stage::Committed => Some("getTotalBatchesCommitted"@),
                Stage::Executed { .. } => Some("getTotalBatchesExecuted"@),
                _ => None,
            };
            let key = "monitor_rpc"@;
            let firing = true;
            let fire_msg = "monitor cannot read L1: "@ + failed->0;
            let resolve_msg = "monitor can read L1 again"@;
            &&& transition(cfg, s, Event::Failed, now) is Some <==> failed is Some
            &&& failed is Some ==> {
                let was = s.alerts.dom().contains(key) && s.alerts[key].active;
                let due = now.nanos - s.alerts[key].last_notified.nanos >= cfg.alert_cooldown_secs
                    * 1_000_000_000 || cfg.alert_cooldown_secs == 0;
                &&& next.alerts.dom() == s.alerts.dom().insert(key)
                &&& forall|other: Seq<char>|
                    other != key && s.alerts.dom().contains(other) ==> #[trigger] next.alerts[other]
                        == s.alerts[other]
                &&& next.alerts[key].active == firing
                &&& next.alerts[key].last_notified == (if !s.alerts.dom().contains(key) || (firing && (
                !was || due)) {
                    now
                } else {
                    s.alerts[key].last_notified
                })
                &&& action == (if firing && !was {
                    ActionView::Send("🔴 ["@ + cfg.network + "] "@ + fire_msg)
                } else if firing && due {
                    ActionView::Send("🔴 ["@ + cfg.network + "] (still firing) "@ + fire_msg)
                } else if !firing && was {
                    ActionView::Send("✅ ["@ + cfg.network + "] RESOLVED: "@ + resolve_msg)
                } else {
                    ActionView::Proceed
                })
                &&& next == (State { stage: Stage::Heartbeat, alerts: next.alerts, ..s })
            }
        }),
{
}

/// After a cycle, a heartbeat is sent exactly if they are turned on and the configured time has gone
/// by since the last one, or since the start. It says that all signers are healthy if no alert is
/// active, and else how many alerts are.
pub proof fn law_step_that_beats(cfg: Config, s: State, now: Moment)
    requires
        s.stage == Stage::Heartbeat,
    ensures
        ({
            let (next, action) = transition(cfg, s, Event::Done, now)->0;
            let due = cfg.heartbeat_secs > 0 && now.nanos - s.last_heartbeat.nanos
                >= cfg.heartbeat_secs * 1_000_000_000;
            let active = s.alerts.dom().filter(|key: Seq<char>| s.alerts[key].active);
            &&& transition(cfg, s, Event::Done, now) is Some
            &&& next == (State {
                stage: Stage::Pause,
                last_heartbeat: if due {
                    now
                } else {
                    s.last_heartbeat
                },
                ..s
            })
            &&& action == (if !due {
                ActionView::Proceed
            } else if active.len() == 0 {
                ActionView::Send(
                    "💚 ["@ + cfg.network + "] heartbeat: all "@ + decimal(cfg.signers.len())
                        + " signers healthy"@,
                )
            } else {
                ActionView::Send(
                    "⚠️ ["@ + cfg.network + "] heartbeat: "@ + decimal(active.len())
                        + " active alert(s)"@,
                )
            })
        }),
{
    assert(active_keys(s.alerts) =~= s.alerts.dom().filter(|key: Seq<char>| s.alerts[key].active));
}

/// Two states with different numbers of active alerts have different heartbeats.
pub proof fn law_heartbeats_tell_numbers_apart(cfg: Config, s: State, t: State)
    requires
        s.alerts.dom().finite(),
        t.alerts.dom().finite(),
    ensures
        ({
            let a = s.alerts.dom().filter(|key: Seq<char>| s.alerts[key].active);
            let b = t.alerts.dom().filter(|key: Seq<char>| t.alerts[key].active);
            heartbeat_text(cfg, s) == heartbeat_text(cfg, t) <==> a.len() == b.len()
        }),
{
    reveal_strlit("💚 [");
    reveal_strlit("⚠️ [");
    let a = s.alerts.dom().filter(|key: Seq<char>| s.alerts[key].active);
    let b = t.alerts.dom().filter(|key: Seq<char>| t.alerts[key].active);
    assert(active_keys(s.alerts) =~= a);
    assert(active_keys(t.alerts) =~= b);
    let x = heartbeat_text(cfg, s);
    let y = heartbeat_text(cfg, t);
    assert((a.len() == 0) == (x[0] == '💚'));
    assert((b.len() == 0) == (y[0] == '💚'));
    if x == y && a.len() > 0 {
        let head = "⚠️ ["@ + cfg.network + "] heartbeat: "@;
        let tail = " active alert(s)"@;
        let n = head.len() as int;
        assert(x.subrange(n, x.len() - tail.len()) =~= decimal(a.len()));
        assert(y.subrange(n, y.len() - tail.len()) =~= decimal(b.len()));
        law_decimal_is_unique(a.len(), b.len());
    }
}

/// Last, the monitor pauses for the configured time.
pub proof fn law_step_from_pause(cfg: Config, s: State, now: Moment)
    requires
        s.stage == Stage::Pause,
    ensures
        transition(cfg, s, Event::Done, now) == Some(
            (State { stage: Stage::Rest, ..s }, ActionView::Sleep(cfg.poll_interval_secs)),
        ),
{
}

/// An event is an answer exactly to what was asked for: a number to a number, a truth value to a
/// truth value, and that it is done where no reading was asked for.
pub proof fn law_answers_fit_questions(cfg: Config, s: State, event: Event, now: Moment)
    ensures
        transition(cfg, s, event, now) is Some <==> match s.stage {
            Stage::Threshold
            | Stage::Balance
            | Stage::Nonce { .. }
            | Stage::Committed
            | Stage::Executed { .. } => event is Number || event is Failed,
            Stage::Membership { .. } => event is Flag || event is Failed,
            _ => event is Done,
        },
{
}

} // verus!
