//! How the monitor moves between its stages, and what its memory of nonces, counters and
//! heartbeats amounts to over time.

use crate::address::Address;
use crate::alerts::{active_keys, lookup};
use crate::clock::Moment;
use crate::conditions::{
    inactive, low_balance, monitor_rpc, not_member, ConditionView, Reading,
};
use crate::cycle::{run, Tick};
use crate::monitor::{
    awaited, current, heartbeat_due, heartbeat_text, initial, is_idle, is_usable, judging,
    progressed, sound, spoken, transition, with_nonce, ActionView, Event, SignerActivity, Stage,
    State,
};
use crate::settings::Config;
use crate::text::decimal;
use crate::word::U256;
use vstd::prelude::*;

verus! {

/// A monitor starts in a sound state, and every step leads from a sound state to a sound one.
pub proof fn law_states_stay_sound(cfg: Config, s: State, event: Event, now: Moment)
    requires
        cfg.signers.len() <= usize::MAX,
        sound(cfg, s),
    ensures
        sound(cfg, initial(now)),
        match transition(cfg, s, event, now) {
            Some((next, _)) => sound(cfg, next),
            None => true,
        },
{
}

/// A step asks for a reading exactly if the monitor then waits for that reading.
pub proof fn law_asks_for_what_it_awaits(cfg: Config, s: State, event: Event, now: Moment)
    requires
        transition(cfg, s, event, now) is Some,
    ensures
        ({
            let (next, action) = transition(cfg, s, event, now)->0;
            match action {
                ActionView::Read(reading) => awaited(cfg, next) == Some(reading),
                _ => awaited(cfg, next) is None,
            }
        }),
{
}

/// A monitor is never stuck: what it asked for can be answered, or can fail, and where it asked for
/// no reading it goes on once that is done.
pub proof fn law_never_stuck(cfg: Config, s: State, n: U256, flag: bool, now: Moment)
    ensures
        match awaited(cfg, s) {
            Some(Reading::Membership(_)) => transition(cfg, s, Event::Flag(flag), now) is Some,
            Some(_) => transition(cfg, s, Event::Number(n), now) is Some,
            None => transition(cfg, s, Event::Done, now) is Some,
        },
        transition(cfg, s, Event::Failed, now) is Some <==> awaited(cfg, s) is Some,
{
}

/// A reading that fails ends the cycle: the alert that the chain cannot be read becomes active,
/// naming that reading, and all else that is remembered stays as it was.
pub proof fn law_failed_reading_ends_the_cycle(cfg: Config, s: State, now: Moment, key: Seq<char>)
    requires
        awaited(cfg, s) is Some,
        key != monitor_rpc(None).key,
    ensures
        ({
            let c = monitor_rpc(awaited(cfg, s));
            let (next, action) = transition(cfg, s, Event::Failed, now)->0;
            &&& next == (State { stage: Stage::Heartbeat, alerts: next.alerts, ..s })
            &&& active_keys(next.alerts).contains(c.key)
            &&& lookup(next.alerts, key) == lookup(s.alerts, key)
            &&& action == spoken(cfg, s, c, now)
        }),
{
}

/// Once a cycle is over, the monitor sends a heartbeat if one is due, pauses for the configured
/// time, and then begins the next cycle by reading the threshold. Alerts, activity, batch counters
/// and their times are kept meanwhile.
pub proof fn law_next_cycle_follows(cfg: Config, s: State, t1: Moment, t2: Moment, t3: Moment)
    requires
        s.stage == Stage::Heartbeat,
    ensures
        ({
            let (s1, a1) = transition(cfg, s, Event::Done, t1)->0;
            let (s2, a2) = transition(cfg, s1, Event::Done, t2)->0;
            let (s3, a3) = transition(cfg, s2, Event::Done, t3)->0;
            &&& a1 == (if heartbeat_due(cfg, s, t1) {
                ActionView::Send(heartbeat_text(cfg, s))
            } else {
                ActionView::Proceed
            })
            &&& a2 == ActionView::Sleep(cfg.poll_interval_secs)
            &&& a3 == ActionView::Read(Reading::Threshold)
            &&& s3.alerts == s.alerts
            &&& s3.activity == s.activity
            &&& s3.last_executed == s.last_executed
            &&& s3.executed_changed_at == s.executed_changed_at
            &&& s3.last_committed == s.last_committed
            &&& s3.committed_changed_at == s.committed_changed_at
        }),
{
}

/// A nonce of a signer, and when it was noted.
pub struct NonceLook {
    pub nonce: U256,
    pub now: Moment,
}

/// What is remembered once these nonces of `signer` have been noted.
pub open spec fn nonces_noted(
    activity: Map<Address, SignerActivity>,
    signer: Address,
    looks: Seq<NonceLook>,
) -> Map<Address, SignerActivity>
    decreases looks.len(),
{
    if looks.len() == 0 {
        activity
    } else {
        with_nonce(
            nonces_noted(activity, signer, looks.drop_last()),
            signer,
            looks.last().nonce,
            looks.last().now,
        )
    }
}

/// The time that is remembered of a signer is when its present nonce was first seen: if the nonce
/// has been the same from look `j` on, and was another one before, that is the time of look `j`.
/// Nothing changes for any other signer.
pub proof fn law_nonce_time_is_its_first_sight(
    activity: Map<Address, SignerActivity>,
    signer: Address,
    looks: Seq<NonceLook>,
    j: int,
    other: Address,
)
    requires
        0 <= j < looks.len(),
        forall|k: int| j <= k < looks.len() ==> (#[trigger] looks[k]).nonce == looks[j].nonce,
        j > 0 ==> looks[j - 1].nonce != looks[j].nonce,
        j == 0 ==> !activity.dom().contains(signer),
    ensures
        ({
            let after = nonces_noted(activity, signer, looks);
            &&& after.dom().contains(signer)
            &&& after[signer] == (SignerActivity {
                last_nonce: looks[j].nonce,
                nonce_changed_at: looks[j].now,
            })
            &&& other != signer ==> {
                &&& after.dom().contains(other) == activity.dom().contains(other)
                &&& activity.dom().contains(other) ==> after[other] == activity[other]
            }
        }),
    decreases looks.len(),
{
    let before = looks.drop_last();
    if other != signer {
        lemma_nonces_of_others(activity, signer, looks, other);
    }
    if j < looks.len() - 1 {
        assert(forall|k: int| 0 <= k < before.len() ==> before[k] == looks[k]);
        law_nonce_time_is_its_first_sight(activity, signer, before, j, other);
        assert(looks[looks.len() - 1].nonce == looks[j].nonce);
    } else if j > 0 {
        lemma_last_nonce(activity, signer, before);
        assert(before.last() == looks[j - 1]);
    } else {
        assert(nonces_noted(activity, signer, before) == activity);
    }
}

proof fn lemma_last_nonce(
    activity: Map<Address, SignerActivity>,
    signer: Address,
    looks: Seq<NonceLook>,
)
    requires
        looks.len() > 0,
    ensures
        nonces_noted(activity, signer, looks).dom().contains(signer),
        nonces_noted(activity, signer, looks)[signer].last_nonce == looks.last().nonce,
{
}

proof fn lemma_nonces_of_others(
    activity: Map<Address, SignerActivity>,
    signer: Address,
    looks: Seq<NonceLook>,
    other: Address,
)
    requires
        other != signer,
    ensures
        nonces_noted(activity, signer, looks).dom().contains(other) == activity.dom().contains(
            other,
        ),
        activity.dom().contains(other) ==> nonces_noted(activity, signer, looks)[other]
            == activity[other],
    decreases looks.len(),
{
    if looks.len() > 0 {
        lemma_nonces_of_others(activity, signer, looks.drop_last(), other);
    }
}

/// Both batch counters, and when they were noted.
pub struct CounterLook {
    pub committed: U256,
    pub executed: U256,
    pub now: Moment,
}

/// What is remembered once these counters have been noted.
pub open spec fn counters_noted(s: State, looks: Seq<CounterLook>) -> State
    decreases looks.len(),
{
    if looks.len() == 0 {
        s
    } else {
        progressed(
            counters_noted(s, looks.drop_last()),
            looks.last().committed,
            looks.last().executed,
            looks.last().now,
        )
    }
}

/// The time that is remembered of execution is when the present number of executed batches was
/// first seen: that of look `j`, if the number has been the same from there on and was another one
/// before.
pub proof fn law_execution_time_is_its_first_sight(s: State, looks: Seq<CounterLook>, j: int)
    requires
        0 <= j < looks.len(),
        forall|k: int|
            j <= k < looks.len() ==> (#[trigger] looks[k]).executed == looks[j].executed,
        j > 0 ==> looks[j - 1].executed != looks[j].executed,
        j == 0 ==> s.last_executed is None,
    ensures
        counters_noted(s, looks).last_executed == Some(looks[j].executed),
        counters_noted(s, looks).executed_changed_at == looks[j].now,
    decreases looks.len(),
{
    let before = looks.drop_last();
    if j < looks.len() - 1 {
        assert(forall|k: int| 0 <= k < before.len() ==> before[k] == looks[k]);
        law_execution_time_is_its_first_sight(s, before, j);
        assert(looks[looks.len() - 1].executed == looks[j].executed);
    } else if j > 0 {
        assert(before.last() == looks[j - 1]);
        assert(counters_noted(s, before).last_executed == Some(looks[j - 1].executed));
    } else {
        assert(counters_noted(s, before) == s);
    }
}

/// The time that is remembered of the commitments is when the present number of committed batches
/// was first seen: that of look `j`, if the number has been the same from there on and was another
/// one before.
pub proof fn law_commitment_time_is_its_first_sight(s: State, looks: Seq<CounterLook>, j: int)
    requires
        0 <= j < looks.len(),
        forall|k: int|
            j <= k < looks.len() ==> (#[trigger] looks[k]).committed == looks[j].committed,
        j > 0 ==> looks[j - 1].committed != looks[j].committed,
        j == 0 ==> s.last_committed is None,
    ensures
        counters_noted(s, looks).last_committed == Some(looks[j].committed),
        counters_noted(s, looks).committed_changed_at == looks[j].now,
    decreases looks.len(),
{
    let before = looks.drop_last();
    if j < looks.len() - 1 {
        assert(forall|k: int| 0 <= k < before.len() ==> before[k] == looks[k]);
        law_commitment_time_is_its_first_sight(s, before, j);
        assert(looks[looks.len() - 1].committed == looks[j].committed);
    } else if j > 0 {
        assert(before.last() == looks[j - 1]);
        assert(counters_noted(s, before).last_committed == Some(looks[j - 1].committed));
    } else {
        assert(counters_noted(s, before) == s);
    }
}

/// Whether tick `i` of a run sends a heartbeat.
pub open spec fn beats_at(cfg: Config, s: State, ticks: Seq<Tick>, i: int) -> bool {
    match run(cfg, s, ticks.take(i)) {
        Some((before, _)) => {
            &&& before.stage == Stage::Heartbeat
            &&& ticks[i].event == Event::Done
            &&& heartbeat_due(cfg, before, ticks[i].now)
        },
        None => false,
    }
}

/// If heartbeats are turned off, the monitor goes on to its pause without one, and nothing but its
/// stage changes.
pub proof fn law_no_heartbeat_if_turned_off(cfg: Config, s: State, now: Moment)
    requires
        s.stage == Stage::Heartbeat,
        cfg.heartbeat_secs == 0,
    ensures
        transition(cfg, s, Event::Done, now) == Some(
            (State { stage: Stage::Pause, ..s }, ActionView::Proceed),
        ),
{
}

/// On a clock that does not run backwards, two heartbeats are at least the configured time apart.
pub proof fn law_heartbeats_are_spaced(cfg: Config, s: State, ticks: Seq<Tick>, i: int, j: int)
    requires
        0 <= i < j < ticks.len(),
        forall|k: int, l: int|
            0 <= k <= l < ticks.len() ==> (#[trigger] ticks[k]).now.nanos <= (
            #[trigger] ticks[l]).now.nanos,
        beats_at(cfg, s, ticks, i),
        beats_at(cfg, s, ticks, j),
    ensures
        ticks[j].now.nanos - ticks[i].now.nanos >= cfg.heartbeat_secs * 1_000_000_000,
{
    lemma_heartbeat_not_forgotten(cfg, s, ticks, i, j);
}

/// After a heartbeat at tick `i`, the heartbeat that is remembered is no earlier one.
proof fn lemma_heartbeat_not_forgotten(cfg: Config, s: State, ticks: Seq<Tick>, i: int, j: int)
    requires
        0 <= i < j < ticks.len(),
        forall|k: int, l: int|
            0 <= k <= l < ticks.len() ==> (#[trigger] ticks[k]).now.nanos <= (
            #[trigger] ticks[l]).now.nanos,
        beats_at(cfg, s, ticks, i),
        run(cfg, s, ticks.take(j)) is Some,
    ensures
        (run(cfg, s, ticks.take(j))->0).0.last_heartbeat.nanos >= ticks[i].now.nanos,
    decreases j - i,
{
    crate::cycle::lemma_run_last(cfg, s, ticks, j - 1);
    assert(ticks[i].now.nanos <= ticks[j - 1].now.nanos);
    if i < j - 1 {
        lemma_heartbeat_not_forgotten(cfg, s, ticks, i, j - 1);
    }
}

/// The heartbeat says that all signers are healthy exactly if no alert is active.
pub proof fn law_heartbeat_tells_health(cfg: Config, s: State)
    requires
        s.alerts.dom().finite(),
    ensures
        heartbeat_text(cfg, s) == "💚 ["@ + cfg.network + "] heartbeat: all "@ + decimal(
            cfg.signers.len(),
        ) + " signers healthy"@ <==> (forall|key: Seq<char>|
            !#[trigger] active_keys(s.alerts).contains(key)),
{
    reveal_strlit("💚 [");
    reveal_strlit("⚠️ [");
    let active = active_keys(s.alerts);
    let healthy = "💚 ["@ + cfg.network + "] heartbeat: all "@ + decimal(cfg.signers.len())
        + " signers healthy"@;
    let troubled = "⚠️ ["@ + cfg.network + "] heartbeat: "@ + decimal(active.len())
        + " active alert(s)"@;
    assert(healthy[0] == '💚');
    assert(troubled[0] != '💚');
    s.alerts.dom().lemma_len_filter(|key: Seq<char>| s.alerts[key].active);
    if active.len() == 0 {
        assert(active =~= Set::empty());
    } else {
        assert(active.contains(active.choose()));
    }
}

/// Whether two configurations differ at most in the labels of the signers.
pub open spec fn same_but_labels(a: Config, b: Config) -> bool {
    b == (Config { labels: b.labels, ..a })
}

/// Labels change the wording of a step and nothing else: it leads to the same state, and it asks
/// for the same, up to the words of a text to send.
pub proof fn law_labels_change_only_words(
    a: Config,
    b: Config,
    s: State,
    event: Event,
    now: Moment,
)
    requires
        same_but_labels(a, b),
    ensures
        match (transition(a, s, event, now), transition(b, s, event, now)) {
            (Some((x, p)), Some((y, q))) => {
                &&& x == y
                &&& p is Send <==> q is Send
                &&& p !is Send ==> p == q
            },
            (None, None) => true,
            _ => false,
        },
{
    match (s.stage, event) {
        (Stage::Nonce { balance, is_member }, Event::Number(nonce)) => {
            lemma_words_of_a_judgement(
                a,
                b,
                State {
                    usable: s.usable + if is_usable(a, balance@, is_member) {
                        1nat
                    } else {
                        0nat
                    },
                    ..s
                },
                low_balance(a, current(a, s), balance@),
                low_balance(b, current(b, s), balance@),
                now,
                Stage::Registered { is_member, nonce },
            );
        },
        (Stage::Registered { is_member, nonce }, Event::Done) => {
            lemma_words_of_a_judgement(
                a,
                b,
                s,
                not_member(a, current(a, s), is_member),
                not_member(b, current(b, s), is_member),
                now,
                Stage::Noted { nonce },
            );
        },
        (Stage::Liveness { next, producing, waiting, at }, Event::Done) => {
            if next < a.signers.len() {
                let signer = a.signers[next as int];
                let idle = is_idle(a, s.activity[signer], at);
                lemma_words_of_a_judgement(
                    a,
                    b,
                    s,
                    inactive(a, signer, producing, waiting, idle),
                    inactive(b, signer, producing, waiting, idle),
                    now,
                    Stage::Liveness { next: (next + 1) as usize, producing, waiting, at },
                );
            }
        },
        _ => {},
    }
}

/// A judgement leads to the same state, and speaks or does not, whatever its words are.
proof fn lemma_words_of_a_judgement(
    a: Config,
    b: Config,
    s: State,
    c: ConditionView,
    d: ConditionView,
    now: Moment,
    stage: Stage,
)
    requires
        same_but_labels(a, b),
        c.key == d.key,
        c.firing == d.firing,
    ensures
        judging(a, s, c, now, stage).0 == judging(b, s, d, now, stage).0,
        judging(a, s, c, now, stage).1 is Send <==> judging(b, s, d, now, stage).1 is Send,
        judging(a, s, c, now, stage).1 !is Send ==> judging(a, s, c, now, stage).1 == judging(
            b,
            s,
            d,
            now,
            stage,
        ).1,
{
}

/// Two runs under configurations that differ in the labels alone go equally far, stand in the same
/// state and have sent equally many texts, after any number of ticks.
pub proof fn law_runs_differ_only_in_words(a: Config, b: Config, s: State, ticks: Seq<Tick>)
    requires
        same_but_labels(a, b),
    ensures
        match (run(a, s, ticks), run(b, s, ticks)) {
            (Some((x, p)), Some((y, q))) => x == y && p.len() == q.len(),
            (None, None) => true,
            _ => false,
        },
    decreases ticks.len(),
{
    if ticks.len() > 0 {
        law_labels_change_only_words(a, b, s, ticks[0].event, ticks[0].now);
        match transition(a, s, ticks[0].event, ticks[0].now) {
            Some((next, _)) => {
                law_runs_differ_only_in_words(a, b, next, ticks.skip(1));
            },
            None => {},
        }
    }
}

} // verus!
