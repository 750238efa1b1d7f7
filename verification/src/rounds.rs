//! Cycle after cycle from the start of the monitor, whichever readings fail on the way: what is
//! remembered and said of each condition goes by the looks at that condition alone, and what is
//! told of a standstill or of a silent signer by when the present counter or nonce was first seen.

use crate::address::Address;
use crate::alerts::{
    active_keys, entry_after, lookup, message, notice, notice_at, Look, Notice,
};
use crate::clock::Moment;
use crate::conditions::{exec_stalled, inactive};
use crate::cycle::{
    activity_after, after_cycle, after_failed_cycle, alerts_after, cycle_evaluations, cycle_ticks,
    failed_evaluations, failed_ticks, fits, law_alerts_reflect_the_cycle, law_cycle,
    law_failed_cycle, law_failed_cycle_leaves_the_rest, law_network_alerts_reflect_the_cycle,
    lemma_evaluations_append, lemma_run_append, lemma_run_one, possible, run, seen_in,
    signers_done, texts_of, CycleLook, Evaluation, Failure, SignerLook, Tick,
};
use crate::history::{
    counters_noted, law_commitment_time_is_its_first_sight, law_execution_time_is_its_first_sight,
    law_nonce_time_is_its_first_sight, nonces_noted, CounterLook, NonceLook,
};
use crate::monitor::{
    heartbeat_due, heartbeat_text, initial, transition, Event, SignerActivity, Stage, State,
};
use crate::settings::Config;
use crate::word::U256;
use vstd::prelude::*;

verus! {

/// A cycle with the heartbeat and the pause after it. The cycle goes as in `look`, up to the
/// failure of a reading if there is one.
pub struct Round {
    pub look: CycleLook,
    /// The reading that fails, and when that is known.
    pub failure: Option<(Failure, Moment)>,
    pub at_heartbeat: Moment,
    pub at_pause: Moment,
}

/// Whether `round` is of the signers that are configured.
pub open spec fn round_fits(cfg: Config, round: Round) -> bool {
    &&& fits(cfg, round.look)
    &&& match round.failure {
        Some((failure, _)) => possible(cfg, failure),
        None => true,
    }
}

/// Whether all of these rounds are of the signers that are configured.
pub open spec fn rounds_fit(cfg: Config, rounds: Seq<Round>) -> bool {
    forall|k: int| 0 <= k < rounds.len() ==> round_fits(cfg, #[trigger] rounds[k])
}

/// What the monitor is told in the cycle of this round.
pub open spec fn reading_ticks(cfg: Config, round: Round) -> Seq<Tick> {
    match round.failure {
        Some((failure, at)) => failed_ticks(cfg, round.look, failure, at),
        None => cycle_ticks(round.look),
    }
}

/// What the monitor is told in this round.
pub open spec fn round_ticks(cfg: Config, round: Round) -> Seq<Tick> {
    reading_ticks(cfg, round) + seq![Tick { event: Event::Done, now: round.at_heartbeat }] + seq![
        Tick { event: Event::Done, now: round.at_pause },
    ]
}

/// What the monitor is told in these rounds.
pub open spec fn rounds_ticks(cfg: Config, rounds: Seq<Round>) -> Seq<Tick>
    decreases rounds.len(),
{
    if rounds.len() == 0 {
        seq![]
    } else {
        rounds_ticks(cfg, rounds.drop_last()) + round_ticks(cfg, rounds.last())
    }
}

/// What the cycle of this round leaves behind.
pub open spec fn after_readings(cfg: Config, s: State, round: Round) -> State {
    match round.failure {
        Some((failure, at)) => after_failed_cycle(cfg, s, round.look, failure, at),
        None => after_cycle(cfg, s, round.look),
    }
}

/// What this round leaves behind.
pub open spec fn after_round(cfg: Config, s: State, round: Round) -> State {
    let told = after_readings(cfg, s, round);
    State {
        stage: Stage::Rest,
        last_heartbeat: if heartbeat_due(cfg, told, round.at_heartbeat) {
            round.at_heartbeat
        } else {
            told.last_heartbeat
        },
        ..told
    }
}

/// What these rounds leave behind.
pub open spec fn after_rounds(cfg: Config, s: State, rounds: Seq<Round>) -> State
    decreases rounds.len(),
{
    if rounds.len() == 0 {
        s
    } else {
        after_round(cfg, after_rounds(cfg, s, rounds.drop_last()), rounds.last())
    }
}

/// The evaluations of this round, in their order.
pub open spec fn round_evaluations(cfg: Config, s: State, round: Round) -> Seq<Evaluation> {
    match round.failure {
        Some((failure, at)) => failed_evaluations(cfg, round.look, failure, at),
        None => cycle_evaluations(cfg, s, round.look),
    }
}

/// The evaluations of these rounds, in their order.
pub open spec fn rounds_evaluations(cfg: Config, s: State, rounds: Seq<Round>) -> Seq<Evaluation>
    decreases rounds.len(),
{
    if rounds.len() == 0 {
        seq![]
    } else {
        let before = rounds.drop_last();
        rounds_evaluations(cfg, s, before) + round_evaluations(
            cfg,
            after_rounds(cfg, s, before),
            rounds.last(),
        )
    }
}

/// The heartbeat of this round, if one is due.
pub open spec fn round_heartbeat(cfg: Config, s: State, round: Round) -> Seq<Seq<char>> {
    let told = after_readings(cfg, s, round);
    if heartbeat_due(cfg, told, round.at_heartbeat) {
        seq![heartbeat_text(cfg, told)]
    } else {
        seq![]
    }
}

/// The texts that these rounds send: in each those of its evaluations, and then its heartbeat.
pub open spec fn rounds_texts(cfg: Config, s: State, rounds: Seq<Round>) -> Seq<Seq<char>>
    decreases rounds.len(),
{
    if rounds.len() == 0 {
        seq![]
    } else {
        let before = after_rounds(cfg, s, rounds.drop_last());
        rounds_texts(cfg, s, rounds.drop_last()) + (texts_of(
            cfg,
            before.alerts,
            round_evaluations(cfg, before, rounds.last()),
        ) + round_heartbeat(cfg, before, rounds.last()))
    }
}

proof fn lemma_round(cfg: Config, s: State, round: Round)
    requires
        s.stage == Stage::Rest,
        round_fits(cfg, round),
    ensures
        run(cfg, s, round_ticks(cfg, round)) == Some(
            (
                after_round(cfg, s, round),
                texts_of(cfg, s.alerts, round_evaluations(cfg, s, round)) + round_heartbeat(
                    cfg,
                    s,
                    round,
                ),
            ),
        ),
{
    let told = after_readings(cfg, s, round);
    let t = reading_ticks(cfg, round);
    let x = texts_of(cfg, s.alerts, round_evaluations(cfg, s, round));
    let y = round_heartbeat(cfg, s, round);
    let beat = Tick { event: Event::Done, now: round.at_heartbeat };
    let pause = Tick { event: Event::Done, now: round.at_pause };
    match round.failure {
        Some((failure, at)) => {
            law_failed_cycle(cfg, s, round.look, failure, at);
        },
        None => {
            law_cycle(cfg, s, round.look);
        },
    }
    let s1 = (transition(cfg, told, beat.event, beat.now)->0).0;
    lemma_run_one(cfg, told, beat);
    lemma_run_append(cfg, s, t, seq![beat]);
    lemma_run_one(cfg, s1, pause);
    lemma_run_append(cfg, s, t + seq![beat], seq![pause]);
    assert((x + y) + Seq::<Seq<char>>::empty() =~= x + y);
}

/// Rounds follow on one another: at the end of each the monitor stands ready for the next, what it
/// remembers is what `after_rounds` says, and the texts sent are what `rounds_texts` says.
pub proof fn law_rounds(cfg: Config, s: State, rounds: Seq<Round>)
    requires
        s.stage == Stage::Rest,
        rounds_fit(cfg, rounds),
    ensures
        run(cfg, s, rounds_ticks(cfg, rounds)) == Some(
            (after_rounds(cfg, s, rounds), rounds_texts(cfg, s, rounds)),
        ),
        after_rounds(cfg, s, rounds).stage == Stage::Rest,
    decreases rounds.len(),
{
    if rounds.len() > 0 {
        let before = rounds.drop_last();
        lemma_all_but_last_fit(cfg, rounds);
        law_rounds(cfg, s, before);
        lemma_round(cfg, after_rounds(cfg, s, before), rounds.last());
        lemma_run_append(
            cfg,
            s,
            rounds_ticks(cfg, before),
            round_ticks(cfg, rounds.last()),
        );
    }
}

proof fn lemma_all_but_last_fit(cfg: Config, rounds: Seq<Round>)
    requires
        rounds.len() > 0,
        rounds_fit(cfg, rounds),
    ensures
        rounds_fit(cfg, rounds.drop_last()),
        round_fits(cfg, rounds.last()),
{
    let before = rounds.drop_last();
    assert forall|k: int| 0 <= k < before.len() implies round_fits(
        cfg,
        #[trigger] before[k],
    ) by {
        assert(before[k] == rounds[k]);
    }
    assert(round_fits(cfg, rounds[rounds.len() - 1]));
}

/// The alert state after some rounds is that after their evaluations.
proof fn lemma_alerts_over_rounds(cfg: Config, s: State, rounds: Seq<Round>)
    ensures
        after_rounds(cfg, s, rounds).alerts == alerts_after(
            cfg,
            s.alerts,
            rounds_evaluations(cfg, s, rounds),
        ),
    decreases rounds.len(),
{
    if rounds.len() > 0 {
        let before = rounds.drop_last();
        lemma_alerts_over_rounds(cfg, s, before);
        lemma_evaluations_append(
            cfg,
            s.alerts,
            rounds_evaluations(cfg, s, before),
            round_evaluations(cfg, after_rounds(cfg, s, before), rounds.last()),
        );
    }
}

/// Those of the evaluations that are of the condition `key`.
pub open spec fn looks_at(es: Seq<Evaluation>, key: Seq<char>) -> Seq<Look>
    decreases es.len(),
{
    if es.len() == 0 {
        seq![]
    } else {
        let earlier = looks_at(es.drop_last(), key);
        if es.last().condition.key == key {
            earlier.push(Look { firing: es.last().condition.firing, now: es.last().now })
        } else {
            earlier
        }
    }
}

proof fn lemma_entry_by_looks(cfg: Config, es: Seq<Evaluation>, key: Seq<char>)
    ensures
        lookup(alerts_after(cfg, Map::empty(), es), key) == entry_after(
            looks_at(es, key),
            cfg.alert_cooldown_secs,
        ),
    decreases es.len(),
{
    if es.len() > 0 {
        lemma_entry_by_looks(cfg, es.drop_last(), key);
        if es.last().condition.key == key {
            assert(looks_at(es, key).drop_last() =~= looks_at(es.drop_last(), key));
        }
    }
}

/// From the start of the monitor on, what is remembered of a condition goes by the evaluations of
/// that condition alone: it is what they, and no others, leave behind.
pub proof fn law_alerts_go_by_their_looks(
    cfg: Config,
    start: Moment,
    rounds: Seq<Round>,
    key: Seq<char>,
)
    requires
        rounds_fit(cfg, rounds),
    ensures
        ({
            let end = run(cfg, initial(start), rounds_ticks(cfg, rounds));
            let es = rounds_evaluations(cfg, initial(start), rounds);
            &&& end is Some
            &&& lookup((end->0).0.alerts, key) == entry_after(
                looks_at(es, key),
                cfg.alert_cooldown_secs,
            )
        }),
{
    let s = initial(start);
    law_rounds(cfg, s, rounds);
    lemma_alerts_over_rounds(cfg, s, rounds);
    lemma_entry_by_looks(cfg, rounds_evaluations(cfg, s, rounds), key);
}

/// What the evaluation at `m` has to say, of these evaluations from the start on.
pub open spec fn notice_of(cfg: Config, es: Seq<Evaluation>, m: int) -> Notice {
    let c = es[m].condition;
    notice(
        lookup(alerts_after(cfg, Map::empty(), es.take(m)), c.key),
        c.firing,
        es[m].now,
        cfg.alert_cooldown_secs,
    )
}

/// The texts of the notices of the first `n` of these evaluations.
pub open spec fn notice_texts(cfg: Config, es: Seq<Evaluation>, n: nat) -> Seq<Seq<char>>
    decreases n,
{
    if n == 0 {
        seq![]
    } else {
        let m = n - 1;
        notice_texts(cfg, es, m as nat) + match message(
            notice_of(cfg, es, m),
            cfg.network,
            es[m].condition.fire_msg,
            es[m].condition.resolve_msg,
        ) {
            Some(text) => seq![text],
            None => seq![],
        }
    }
}

/// Among evaluations of many conditions, each has to say what it has to say as the latest look at
/// its own condition, as if that were the only one.
pub proof fn law_notices_go_by_their_looks(cfg: Config, es: Seq<Evaluation>, m: int)
    requires
        0 <= m < es.len(),
    ensures
        ({
            let looks = looks_at(es.take(m + 1), es[m].condition.key);
            &&& looks.len() > 0
            &&& looks.last() == (Look { firing: es[m].condition.firing, now: es[m].now })
            &&& notice_of(cfg, es, m) == notice_at(
                looks,
                looks.len() - 1,
                cfg.alert_cooldown_secs,
            )
        }),
{
    let key = es[m].condition.key;
    let looks = looks_at(es.take(m + 1), key);
    assert(es.take(m + 1).drop_last() =~= es.take(m));
    assert(looks.take(looks.len() - 1) =~= looks_at(es.take(m), key));
    lemma_entry_by_looks(cfg, es.take(m), key);
}

proof fn lemma_notice_texts(cfg: Config, es: Seq<Evaluation>, n: nat)
    requires
        n <= es.len(),
    ensures
        texts_of(cfg, Map::empty(), es.take(n as int)) == notice_texts(cfg, es, n),
    decreases n,
{
    if n > 0 {
        assert(es.take(n as int).drop_last() =~= es.take(n - 1));
        lemma_notice_texts(cfg, es, (n - 1) as nat);
    }
}

/// From the start of the monitor on, with heartbeats turned off, the texts sent are those of the
/// notices of all evaluations, in their order.
pub proof fn law_texts_are_notices(cfg: Config, start: Moment, rounds: Seq<Round>)
    requires
        rounds_fit(cfg, rounds),
        cfg.heartbeat_secs == 0,
    ensures
        ({
            let end = run(cfg, initial(start), rounds_ticks(cfg, rounds));
            let es = rounds_evaluations(cfg, initial(start), rounds);
            end is Some && (end->0).1 == notice_texts(cfg, es, es.len())
        }),
{
    let s = initial(start);
    let es = rounds_evaluations(cfg, s, rounds);
    law_rounds(cfg, s, rounds);
    lemma_texts_over_rounds(cfg, s, rounds);
    lemma_notice_texts(cfg, es, es.len());
    assert(es.take(es.len() as int) =~= es);
}

proof fn lemma_texts_over_rounds(cfg: Config, s: State, rounds: Seq<Round>)
    requires
        cfg.heartbeat_secs == 0,
    ensures
        rounds_texts(cfg, s, rounds) == texts_of(
            cfg,
            s.alerts,
            rounds_evaluations(cfg, s, rounds),
        ),
    decreases rounds.len(),
{
    if rounds.len() > 0 {
        let before = rounds.drop_last();
        let middle = after_rounds(cfg, s, before);
        let es = round_evaluations(cfg, middle, rounds.last());
        let x = texts_of(cfg, middle.alerts, es);
        lemma_texts_over_rounds(cfg, s, before);
        lemma_alerts_over_rounds(cfg, s, before);
        lemma_evaluations_append(cfg, s.alerts, rounds_evaluations(cfg, s, before), es);
        assert(x + Seq::<Seq<char>>::empty() =~= x);
    }
}

/// The batch counters as they were seen in these rounds: those of each round without a failure.
pub open spec fn counter_looks(rounds: Seq<Round>) -> Seq<CounterLook>
    decreases rounds.len(),
{
    if rounds.len() == 0 {
        seq![]
    } else {
        let earlier = counter_looks(rounds.drop_last());
        let look = rounds.last().look;
        if rounds.last().failure is None {
            earlier.push(
                CounterLook {
                    committed: look.committed,
                    executed: look.executed,
                    now: look.at_executed,
                },
            )
        } else {
            earlier
        }
    }
}

/// The nonces of `signer` as they were seen at the first `n` places of a cycle.
pub open spec fn nonces_in_cycle(
    cfg: Config,
    looks: Seq<SignerLook>,
    n: nat,
    signer: Address,
) -> Seq<NonceLook>
    decreases n,
{
    if n == 0 {
        seq![]
    } else {
        let earlier = nonces_in_cycle(cfg, looks, (n - 1) as nat, signer);
        if cfg.signers[n - 1] == signer {
            earlier.push(NonceLook { nonce: looks[n - 1].nonce, now: looks[n - 1].at_noted })
        } else {
            earlier
        }
    }
}

/// How many signers this round was done with.
pub open spec fn places_done(cfg: Config, round: Round) -> nat {
    match round.failure {
        Some((failure, _)) => signers_done(cfg, failure),
        None => cfg.signers.len(),
    }
}

/// The nonces of `signer` as they were seen in these rounds.
pub open spec fn nonce_looks(cfg: Config, rounds: Seq<Round>, signer: Address) -> Seq<NonceLook>
    decreases rounds.len(),
{
    if rounds.len() == 0 {
        seq![]
    } else {
        nonce_looks(cfg, rounds.drop_last(), signer) + nonces_in_cycle(
            cfg,
            rounds.last().look.signers,
            places_done(cfg, rounds.last()),
            signer,
        )
    }
}

/// The numbers of executed batches among these looks.
pub open spec fn executed_counts(looks: Seq<CounterLook>) -> Seq<U256> {
    looks.map_values(|look: CounterLook| look.executed)
}

/// The numbers of committed batches among these looks.
pub open spec fn committed_counts(looks: Seq<CounterLook>) -> Seq<U256> {
    looks.map_values(|look: CounterLook| look.committed)
}

/// The nonces among these looks.
pub open spec fn nonces(looks: Seq<NonceLook>) -> Seq<U256> {
    looks.map_values(|look: NonceLook| look.nonce)
}

/// Whether the last of these values has stood since place `j`, and was first seen there.
pub open spec fn stands_since(values: Seq<U256>, j: int) -> bool {
    &&& 0 <= j < values.len()
    &&& forall|k: int| j <= k < values.len() ==> #[trigger] values[k] == values[j]
    &&& j > 0 ==> values[j - 1] != values[j]
}

/// The last of some values has stood since exactly one place.
pub proof fn law_a_value_stands_since_one_place(values: Seq<U256>)
    requires
        values.len() > 0,
    ensures
        exists|j: int| stands_since(values, j),
        forall|i: int, j: int| stands_since(values, i) && stands_since(values, j) ==> i == j,
    decreases values.len(),
{
    let n = values.len() as int;
    let before = values.drop_last();
    if n == 1 {
        assert(stands_since(values, 0));
    } else if values[n - 2] != values[n - 1] {
        assert(stands_since(values, n - 1));
    } else {
        law_a_value_stands_since_one_place(before);
        let j = choose|j: int| stands_since(before, j);
        assert(before[n - 2] == before[j]);
        assert forall|k: int| j <= k < n implies #[trigger] values[k] == values[j] by {
            if k < n - 1 {
                assert(before[k] == before[j]);
            }
        }
        assert(stands_since(values, j));
    }
    assert forall|i: int, j: int| stands_since(values, i) && stands_since(values, j) implies i
        == j by {
        if i < j {
            assert(values[j - 1] == values[i] && values[j] == values[i]);
        } else if j < i {
            assert(values[i - 1] == values[j] && values[i] == values[j]);
        }
    }
}

/// The counters that are remembered are those that were noted in the rounds without a failure.
proof fn lemma_counters_over_rounds(cfg: Config, s: State, rounds: Seq<Round>)
    ensures
        ({
            let end = after_rounds(cfg, s, rounds);
            let noted = counters_noted(s, counter_looks(rounds));
            &&& end.last_executed == noted.last_executed
            &&& end.executed_changed_at == noted.executed_changed_at
            &&& end.last_committed == noted.last_committed
            &&& end.committed_changed_at == noted.committed_changed_at
        }),
    decreases rounds.len(),
{
    if rounds.len() > 0 {
        let earlier = counter_looks(rounds.drop_last());
        lemma_counters_over_rounds(cfg, s, rounds.drop_last());
        if rounds.last().failure is None {
            assert(counter_looks(rounds).drop_last() =~= earlier);
        }
    }
}

/// Whether both hold the same of `signer`.
spec fn agree_on(
    a: Map<Address, SignerActivity>,
    b: Map<Address, SignerActivity>,
    signer: Address,
) -> bool {
    &&& a.dom().contains(signer) == b.dom().contains(signer)
    &&& a.dom().contains(signer) ==> a[signer] == b[signer]
}

proof fn lemma_noting_more(
    a: Map<Address, SignerActivity>,
    b: Map<Address, SignerActivity>,
    signer: Address,
    x: Seq<NonceLook>,
    y: Seq<NonceLook>,
)
    requires
        agree_on(b, nonces_noted(a, signer, x), signer),
    ensures
        agree_on(nonces_noted(b, signer, y), nonces_noted(a, signer, x + y), signer),
    decreases y.len(),
{
    if y.len() == 0 {
        assert(x + y =~= x);
    } else {
        lemma_noting_more(a, b, signer, x, y.drop_last());
        assert((x + y).drop_last() =~= x + y.drop_last());
        assert((x + y).last() == y.last());
    }
}

/// Of one signer, a cycle remembers what noting its nonces alone would.
proof fn lemma_nonces_in_cycle(
    cfg: Config,
    activity: Map<Address, SignerActivity>,
    looks: Seq<SignerLook>,
    n: nat,
    signer: Address,
)
    requires
        n <= cfg.signers.len(),
    ensures
        agree_on(
            activity_after(cfg, activity, looks, n),
            nonces_noted(activity, signer, nonces_in_cycle(cfg, looks, n, signer)),
            signer,
        ),
    decreases n,
{
    if n > 0 {
        let earlier = nonces_in_cycle(cfg, looks, (n - 1) as nat, signer);
        lemma_nonces_in_cycle(cfg, activity, looks, (n - 1) as nat, signer);
        if cfg.signers[n - 1] == signer {
            assert(nonces_in_cycle(cfg, looks, n, signer).drop_last() =~= earlier);
        }
    }
}

proof fn lemma_nonces_over_rounds(cfg: Config, s: State, rounds: Seq<Round>, signer: Address)
    requires
        rounds_fit(cfg, rounds),
    ensures
        agree_on(
            after_rounds(cfg, s, rounds).activity,
            nonces_noted(s.activity, signer, nonce_looks(cfg, rounds, signer)),
            signer,
        ),
    decreases rounds.len(),
{
    if rounds.len() > 0 {
        let before = rounds.drop_last();
        let middle = after_rounds(cfg, s, before);
        let looks = rounds.last().look.signers;
        let k = places_done(cfg, rounds.last());
        lemma_all_but_last_fit(cfg, rounds);
        lemma_nonces_over_rounds(cfg, s, before, signer);
        lemma_nonces_in_cycle(cfg, middle.activity, looks, k, signer);
        lemma_noting_more(
            s.activity,
            middle.activity,
            signer,
            nonce_looks(cfg, before, signer),
            nonces_in_cycle(cfg, looks, k, signer),
        );
    }
}

/// Whether a reading fails in each of these rounds.
pub open spec fn all_failed(rounds: Seq<Round>) -> bool {
    forall|k: int| 0 <= k < rounds.len() ==> (#[trigger] rounds[k]).failure is Some
}

/// Rounds with a failure leave the alerts on a standstill and on a silent signer as they were.
proof fn lemma_failed_rounds(cfg: Config, s: State, rounds: Seq<Round>, signer: Address)
    requires
        rounds_fit(cfg, rounds),
        all_failed(rounds),
    ensures
        ({
            let end = after_rounds(cfg, s, rounds);
            let stalled = exec_stalled(cfg, 0, 0, true).key;
            let silent = inactive(cfg, signer, true, true, true).key;
            &&& lookup(end.alerts, stalled) == lookup(s.alerts, stalled)
            &&& lookup(end.alerts, silent) == lookup(s.alerts, silent)
        }),
    decreases rounds.len(),
{
    if rounds.len() > 0 {
        let before = rounds.drop_last();
        let last = rounds[rounds.len() - 1];
        lemma_all_but_last_fit(cfg, rounds);
        assert forall|k: int| 0 <= k < before.len() implies (
        #[trigger] before[k]).failure is Some by {
            assert(before[k] == rounds[k]);
        }
        lemma_failed_rounds(cfg, s, before, signer);
        assert(last.failure is Some);
        let (failure, at) = last.failure->0;
        law_failed_cycle_leaves_the_rest(
            cfg,
            after_rounds(cfg, s, before),
            last.look,
            failure,
            at,
            signer,
        );
    }
}

proof fn lemma_rounds_append(cfg: Config, s: State, a: Seq<Round>, b: Seq<Round>)
    ensures
        after_rounds(cfg, s, a + b) == after_rounds(cfg, after_rounds(cfg, s, a), b),
    decreases b.len(),
{
    if b.len() == 0 {
        assert(a + b =~= a);
    } else {
        assert((a + b).drop_last() =~= a + b.drop_last());
        assert((a + b).last() == b.last());
        lemma_rounds_append(cfg, s, a, b.drop_last());
    }
}

/// Where `rounds` and then `failed` lead from the start, and that the alerts on a standstill and on
/// a silent signer are then as the last round of `rounds` left them.
proof fn lemma_from_the_start(
    cfg: Config,
    start: Moment,
    rounds: Seq<Round>,
    failed: Seq<Round>,
    signer: Address,
)
    requires
        rounds.len() > 0,
        rounds_fit(cfg, rounds),
        rounds_fit(cfg, failed),
        all_failed(failed),
        rounds.last().failure is None,
    ensures
        ({
            let end = run(cfg, initial(start), rounds_ticks(cfg, rounds + failed));
            let before = after_rounds(cfg, initial(start), rounds.drop_last());
            let told = after_cycle(cfg, before, rounds.last().look).alerts;
            let stalled = exec_stalled(cfg, 0, 0, true).key;
            let silent = inactive(cfg, signer, true, true, true).key;
            &&& end is Some
            &&& lookup((end->0).0.alerts, stalled) == lookup(told, stalled)
            &&& lookup((end->0).0.alerts, silent) == lookup(told, silent)
        }),
{
    let s = initial(start);
    let all = rounds + failed;
    assert forall|k: int| 0 <= k < all.len() implies round_fits(cfg, #[trigger] all[k]) by {
        if k < rounds.len() {
            assert(all[k] == rounds[k]);
        } else {
            assert(all[k] == failed[k - rounds.len()]);
        }
    }
    law_rounds(cfg, s, all);
    lemma_rounds_append(cfg, s, rounds, failed);
    lemma_failed_rounds(cfg, after_rounds(cfg, s, rounds), failed, signer);
}

/// From the start of the monitor on, whatever failed on the way: after a round without a failure,
/// and after any later rounds with one, the alert on a standstill is active exactly if the backlog
/// is large enough and the present number of executed batches had stood for the stall time when
/// the counters were last read. That number was first seen at look `j`.
pub proof fn law_standstill_over_rounds(
    cfg: Config,
    start: Moment,
    rounds: Seq<Round>,
    failed: Seq<Round>,
    j: int,
)
    requires
        rounds.len() > 0,
        rounds_fit(cfg, rounds),
        rounds_fit(cfg, failed),
        all_failed(failed),
        rounds.last().failure is None,
        stands_since(executed_counts(counter_looks(rounds)), j),
    ensures
        ({
            let end = run(cfg, initial(start), rounds_ticks(cfg, rounds + failed));
            let look = rounds.last().look;
            let first_seen = counter_looks(rounds)[j].now;
            &&& end is Some
            &&& active_keys((end->0).0.alerts).contains("exec_stalled"@) <==> {
                &&& look.committed@ >= look.executed@ + cfg.exec_lag_alert || cfg.exec_lag_alert
                    == 0
                &&& look.at_executed.nanos - first_seen.nanos >= cfg.stall_secs * 1_000_000_000
                    || cfg.stall_secs == 0
            }
        }),
{
    let s = initial(start);
    let look = rounds.last().look;
    let looks = counter_looks(rounds);
    let counts = executed_counts(looks);
    let before = after_rounds(cfg, s, rounds.drop_last());
    lemma_from_the_start(cfg, start, rounds, failed, cfg.signers[0]);
    lemma_all_but_last_fit(cfg, rounds);
    law_network_alerts_reflect_the_cycle(cfg, before, look);
    lemma_counters_over_rounds(cfg, s, rounds);
    assert forall|k: int| j <= k < looks.len() implies (#[trigger] looks[k]).executed
        == looks[j].executed by {
        assert(counts[k] == counts[j]);
    }
    law_execution_time_is_its_first_sight(s, looks, j);
    assert(seen_in(before, look).executed_changed_at == looks[j].now);
}

/// From the start of the monitor on, whatever failed on the way: after a round without a failure,
/// and after any later rounds with one, the alert on a silent signer is active exactly if its
/// present nonce had stood for the stall time when the counters were last read, and there was work
/// then: the present number of committed batches had stood for no longer than the stall time, or
/// batches awaited execution. The nonce was first seen at look `j` at this signer, the number of
/// committed batches at look `c` at the counters. `i` is a place of the signer.
pub proof fn law_silence_over_rounds(
    cfg: Config,
    start: Moment,
    rounds: Seq<Round>,
    failed: Seq<Round>,
    i: int,
    j: int,
    c: int,
)
    requires
        rounds.len() > 0,
        rounds_fit(cfg, rounds),
        rounds_fit(cfg, failed),
        all_failed(failed),
        rounds.last().failure is None,
        0 <= i < cfg.signers.len(),
        stands_since(nonces(nonce_looks(cfg, rounds, cfg.signers[i])), j),
        stands_since(committed_counts(counter_looks(rounds)), c),
    ensures
        ({
            let end = run(cfg, initial(start), rounds_ticks(cfg, rounds + failed));
            let signer = cfg.signers[i];
            let look = rounds.last().look;
            let moved = nonce_looks(cfg, rounds, signer)[j].now;
            let committed = counter_looks(rounds)[c].now;
            let silent = "inactive:"@ + signer.shown();
            &&& end is Some
            &&& active_keys((end->0).0.alerts).contains(silent) <==> {
                &&& look.at_executed.nanos - moved.nanos >= cfg.stall_secs * 1_000_000_000
                    || cfg.stall_secs == 0
                &&& look.at_executed.nanos - committed.nanos <= cfg.stall_secs * 1_000_000_000
                    || look.committed@ > look.executed@
            }
        }),
{
    let s = initial(start);
    let signer = cfg.signers[i];
    let look = rounds.last().look;
    let counters = counter_looks(rounds);
    let counts = committed_counts(counters);
    let looks = nonce_looks(cfg, rounds, signer);
    let values = nonces(looks);
    let before = after_rounds(cfg, s, rounds.drop_last());
    lemma_from_the_start(cfg, start, rounds, failed, signer);
    lemma_all_but_last_fit(cfg, rounds);
    let last = lemma_last_place(cfg.signers, i);
    law_alerts_reflect_the_cycle(cfg, before, look, last);
    lemma_counters_over_rounds(cfg, s, rounds);
    assert forall|k: int| c <= k < counters.len() implies (#[trigger] counters[k]).committed
        == counters[c].committed by {
        assert(counts[k] == counts[c]);
    }
    law_commitment_time_is_its_first_sight(s, counters, c);
    assert(seen_in(before, look).committed_changed_at == counters[c].now);
    lemma_nonces_over_rounds(cfg, s, rounds, signer);
    assert forall|k: int| j <= k < looks.len() implies (#[trigger] looks[k]).nonce
        == looks[j].nonce by {
        assert(values[k] == values[j]);
    }
    law_nonce_time_is_its_first_sight(s.activity, signer, looks, j, signer);
}

/// The last place of the address at `i`.
proof fn lemma_last_place(signers: Seq<Address>, i: int) -> (last: int)
    requires
        0 <= i < signers.len(),
    ensures
        i <= last < signers.len(),
        signers[last] == signers[i],
        forall|j: int| last < j < signers.len() ==> #[trigger] signers[j] != signers[i],
    decreases signers.len() - i,
{
    if exists|j: int| i < j < signers.len() && #[trigger] signers[j] == signers[i] {
        let j = choose|j: int| i < j < signers.len() && #[trigger] signers[j] == signers[i];
        lemma_last_place(signers, j)
    } else {
        i
    }
}

} // verus!
