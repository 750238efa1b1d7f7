//! Whole cycles of the monitor: what a cycle in which every reading succeeds evaluates, says and
//! leaves behind, and the same of a cycle in which a reading fails.

use crate::address::Address;
use crate::alerts::{active_keys, lookup, message, next_entry, notice, AlertEntry};
use crate::clock::Moment;
use crate::conditions::{
    backlog, exec_stalled, inactive, law_keys_are_distinct, low_balance, monitor_rpc, not_member,
    usable_below_threshold, ConditionView, Reading,
};
use crate::monitor::{
    awaited, chain_producing, current, execution_still, is_idle, is_usable, judging, progressed,
    spoken, transition, turning, with_nonce, ActionView, Event, SignerActivity, Stage, State,
};
use crate::settings::Config;
use crate::word::U256;
use vstd::prelude::*;

verus! {

/// Something that the monitor is told, and when.
pub struct Tick {
    pub event: Event,
    pub now: Moment,
}

/// The text that an action sends, if it sends one.
pub open spec fn sent(action: ActionView) -> Seq<Seq<char>> {
    match action {
        ActionView::Send(text) => seq![text],
        _ => seq![],
    }
}

/// Where these ticks lead from `s`, and the texts sent on the way; nothing if one of them is no
/// answer to what was asked for.
pub open spec fn run(cfg: Config, s: State, ticks: Seq<Tick>) -> Option<(State, Seq<Seq<char>>)>
    decreases ticks.len(),
{
    if ticks.len() == 0 {
        Some((s, seq![]))
    } else {
        match transition(cfg, s, ticks[0].event, ticks[0].now) {
            None => None,
            Some((next, action)) => match run(cfg, next, ticks.skip(1)) {
                None => None,
                Some((end, texts)) => Some((end, sent(action) + texts)),
            },
        }
    }
}

/// A run over `a` and then `b` is a run over `a` that goes on with `b`.
pub proof fn lemma_run_append(cfg: Config, s: State, a: Seq<Tick>, b: Seq<Tick>)
    ensures
        run(cfg, s, a + b) == match run(cfg, s, a) {
            None => None,
            Some((middle, x)) => match run(cfg, middle, b) {
                None => None,
                Some((end, y)) => Some((end, x + y)),
            },
        },
    decreases a.len(),
{
    if a.len() == 0 {
        assert(a + b =~= b);
        match run(cfg, s, b) {
            None => {},
            Some((end, y)) => {
                assert(Seq::<Seq<char>>::empty() + y =~= y);
            },
        }
    } else {
        assert((a + b)[0] == a[0]);
        assert((a + b).skip(1) =~= a.skip(1) + b);
        match transition(cfg, s, a[0].event, a[0].now) {
            None => {},
            Some((next, action)) => {
                lemma_run_append(cfg, next, a.skip(1), b);
                match run(cfg, next, a.skip(1)) {
                    None => {},
                    Some((middle, x)) => match run(cfg, middle, b) {
                        None => {},
                        Some((end, y)) => {
                            assert(sent(action) + (x + y) =~= (sent(action) + x) + y);
                        },
                    },
                }
            },
        }
    }
}

/// A run over one tick is one step.
pub proof fn lemma_run_one(cfg: Config, s: State, tick: Tick)
    ensures
        run(cfg, s, seq![tick]) == match transition(cfg, s, tick.event, tick.now) {
            None => None,
            Some((next, action)) => Some((next, sent(action))),
        },
{
    reveal_with_fuel(run, 2);
    assert(seq![tick].skip(1) =~= Seq::<Tick>::empty());
    match transition(cfg, s, tick.event, tick.now) {
        None => {},
        Some((next, action)) => {
            assert(sent(action) + Seq::<Seq<char>>::empty() =~= sent(action));
        },
    }
}

/// A run that went as far as tick `i` goes on by the step for tick `i`.
pub proof fn lemma_run_last(cfg: Config, s: State, ticks: Seq<Tick>, i: int)
    requires
        0 <= i < ticks.len(),
        run(cfg, s, ticks.take(i + 1)) is Some,
    ensures
        run(cfg, s, ticks.take(i)) is Some,
        ({
            let before = (run(cfg, s, ticks.take(i))->0).0;
            let step = transition(cfg, before, ticks[i].event, ticks[i].now);
            step is Some && (step->0).0 == (run(cfg, s, ticks.take(i + 1))->0).0
        }),
{
    assert(ticks.take(i + 1) =~= ticks.take(i) + seq![ticks[i]]);
    lemma_run_append(cfg, s, ticks.take(i), seq![ticks[i]]);
    match run(cfg, s, ticks.take(i)) {
        Some((before, _)) => {
            lemma_run_one(cfg, before, ticks[i]);
        },
        None => {},
    }
}

/// The evaluation of a condition at some time.
pub struct Evaluation {
    pub condition: ConditionView,
    pub now: Moment,
}

/// The alert state after these evaluations, from `alerts` on.
pub open spec fn alerts_after(
    cfg: Config,
    alerts: Map<Seq<char>, AlertEntry>,
    es: Seq<Evaluation>,
) -> Map<Seq<char>, AlertEntry>
    decreases es.len(),
{
    if es.len() == 0 {
        alerts
    } else {
        let before = alerts_after(cfg, alerts, es.drop_last());
        let c = es.last().condition;
        before.insert(
            c.key,
            next_entry(lookup(before, c.key), c.firing, es.last().now, cfg.alert_cooldown_secs),
        )
    }
}

/// The texts that these evaluations send, from `alerts` on.
pub open spec fn texts_of(
    cfg: Config,
    alerts: Map<Seq<char>, AlertEntry>,
    es: Seq<Evaluation>,
) -> Seq<Seq<char>>
    decreases es.len(),
{
    if es.len() == 0 {
        seq![]
    } else {
        let before = alerts_after(cfg, alerts, es.drop_last());
        let c = es.last().condition;
        texts_of(cfg, alerts, es.drop_last()) + match message(
            notice(lookup(before, c.key), c.firing, es.last().now, cfg.alert_cooldown_secs),
            cfg.network,
            c.fire_msg,
            c.resolve_msg,
        ) {
            Some(text) => seq![text],
            None => seq![],
        }
    }
}

/// Evaluating `a` and then `b` is evaluating `b` from what `a` leaves behind.
pub proof fn lemma_evaluations_append(
    cfg: Config,
    alerts: Map<Seq<char>, AlertEntry>,
    a: Seq<Evaluation>,
    b: Seq<Evaluation>,
)
    ensures
        alerts_after(cfg, alerts, a + b) == alerts_after(cfg, alerts_after(cfg, alerts, a), b),
        texts_of(cfg, alerts, a + b) == texts_of(cfg, alerts, a) + texts_of(
            cfg,
            alerts_after(cfg, alerts, a),
            b,
        ),
    decreases b.len(),
{
    if b.len() == 0 {
        assert(a + b =~= a);
        assert(texts_of(cfg, alerts, a) + Seq::<Seq<char>>::empty() =~= texts_of(cfg, alerts, a));
    } else {
        assert((a + b).drop_last() =~= a + b.drop_last());
        assert((a + b).last() == b.last());
        lemma_evaluations_append(cfg, alerts, a, b.drop_last());
        let x = texts_of(cfg, alerts, a);
        let y = texts_of(cfg, alerts_after(cfg, alerts, a), b.drop_last());
        let before = alerts_after(cfg, alerts_after(cfg, alerts, a), b.drop_last());
        let c = b.last().condition;
        let z: Seq<Seq<char>> = match message(
            notice(lookup(before, c.key), c.firing, b.last().now, cfg.alert_cooldown_secs),
            cfg.network,
            c.fire_msg,
            c.resolve_msg,
        ) {
            Some(text) => seq![text],
            None => seq![],
        };
        assert((x + y) + z =~= x + (y + z));
    }
}

/// One evaluation is what one judgement of the monitor does.
proof fn lemma_judging_is_evaluation(
    cfg: Config,
    s: State,
    c: ConditionView,
    now: Moment,
    stage: Stage,
)
    ensures
        judging(cfg, s, c, now, stage).0 == (State {
            stage,
            alerts: alerts_after(cfg, s.alerts, seq![Evaluation { condition: c, now }]),
            ..s
        }),
        sent(judging(cfg, s, c, now, stage).1) == texts_of(
            cfg,
            s.alerts,
            seq![Evaluation { condition: c, now }],
        ),
{
    let es = seq![Evaluation { condition: c, now }];
    reveal_with_fuel(alerts_after, 2);
    reveal_with_fuel(texts_of, 2);
    assert(es.drop_last() =~= Seq::<Evaluation>::empty());
    assert(sent(spoken(cfg, s, c, now)) =~= texts_of(cfg, s.alerts, es));
}

/// What a cycle reads of one signer, and when the monitor goes on after each step.
pub struct SignerLook {
    pub balance: U256,
    pub is_member: bool,
    pub nonce: U256,
    pub at_balance: Moment,
    pub at_membership: Moment,
    pub at_nonce: Moment,
    pub at_registered: Moment,
    pub at_noted: Moment,
}

/// What a whole cycle reads, and when the monitor goes on after each step.
pub struct CycleLook {
    pub at_start: Moment,
    pub threshold: U256,
    pub at_threshold: Moment,
    pub signers: Seq<SignerLook>,
    pub committed: U256,
    pub at_committed: Moment,
    pub executed: U256,
    pub at_executed: Moment,
    pub at_liveness: Seq<Moment>,
    pub at_usable: Moment,
    pub at_complete: Moment,
}

/// What the monitor is told while it looks at one signer.
pub open spec fn signer_ticks(look: SignerLook) -> Seq<Tick> {
    seq![
        Tick { event: Event::Number(look.balance), now: look.at_balance },
        Tick { event: Event::Flag(look.is_member), now: look.at_membership },
        Tick { event: Event::Number(look.nonce), now: look.at_nonce },
        Tick { event: Event::Done, now: look.at_registered },
        Tick { event: Event::Done, now: look.at_noted },
    ]
}

/// What the monitor is told while it looks at the first `n` signers.
pub open spec fn signers_ticks(looks: Seq<SignerLook>, n: nat) -> Seq<Tick>
    decreases n,
{
    if n == 0 {
        seq![]
    } else {
        signers_ticks(looks, (n - 1) as nat) + signer_ticks(looks[n - 1])
    }
}

/// What the monitor is told while it judges the liveness of the first `n` signers.
pub open spec fn liveness_ticks(times: Seq<Moment>, n: nat) -> Seq<Tick>
    decreases n,
{
    if n == 0 {
        seq![]
    } else {
        liveness_ticks(times, (n - 1) as nat) + seq![
            Tick { event: Event::Done, now: times[n - 1] },
        ]
    }
}

/// What the monitor is told before it turns to the signers.
pub open spec fn opening_ticks(look: CycleLook) -> Seq<Tick> {
    seq![
        Tick { event: Event::Done, now: look.at_start },
        Tick { event: Event::Number(look.threshold), now: look.at_threshold },
    ]
}

/// What the monitor is told of the batch counters.
pub open spec fn counters_ticks(look: CycleLook) -> Seq<Tick> {
    seq![
        Tick { event: Event::Number(look.committed), now: look.at_committed },
        Tick { event: Event::Number(look.executed), now: look.at_executed },
    ]
}

/// What the monitor is told in a cycle in which every reading succeeds.
pub open spec fn cycle_ticks(look: CycleLook) -> Seq<Tick> {
    opening_ticks(look) + signers_ticks(look.signers, look.signers.len()) + counters_ticks(look)
        + liveness_ticks(look.at_liveness, look.at_liveness.len()) + seq![
        Tick { event: Event::Done, now: look.at_usable },
        Tick { event: Event::Done, now: look.at_complete },
    ]
}

/// How many of the first `n` signers are funded and registered.
pub open spec fn usable_count(cfg: Config, looks: Seq<SignerLook>, n: nat) -> nat
    decreases n,
{
    if n == 0 {
        0
    } else {
        usable_count(cfg, looks, (n - 1) as nat) + if is_usable(
            cfg,
            looks[n - 1].balance@,
            looks[n - 1].is_member,
        ) {
            1nat
        } else {
            0nat
        }
    }
}

/// The activity once the nonces of the first `n` signers have been noted.
pub open spec fn activity_after(
    cfg: Config,
    activity: Map<Address, SignerActivity>,
    looks: Seq<SignerLook>,
    n: nat,
) -> Map<Address, SignerActivity>
    decreases n,
{
    if n == 0 {
        activity
    } else {
        with_nonce(
            activity_after(cfg, activity, looks, (n - 1) as nat),
            cfg.signers[n - 1],
            looks[n - 1].nonce,
            looks[n - 1].at_noted,
        )
    }
}

/// The evaluations about the first `n` signers: the balance and the membership of each.
pub open spec fn signer_evaluations(
    cfg: Config,
    looks: Seq<SignerLook>,
    n: nat,
) -> Seq<Evaluation> {
    Seq::new(
        2 * n,
        |i: int|
            if i % 2 == 0 {
                Evaluation {
                    condition: low_balance(cfg, cfg.signers[i / 2], looks[i / 2].balance@),
                    now: looks[i / 2].at_nonce,
                }
            } else {
                Evaluation {
                    condition: not_member(cfg, cfg.signers[i / 2], looks[i / 2].is_member),
                    now: looks[i / 2].at_registered,
                }
            },
    )
}

/// The evaluations of the liveness of the first `n` signers, as of `at`.
pub open spec fn liveness_evaluations(
    cfg: Config,
    activity: Map<Address, SignerActivity>,
    producing: bool,
    waiting: bool,
    at: Moment,
    times: Seq<Moment>,
    n: nat,
) -> Seq<Evaluation> {
    Seq::new(
        n,
        |i: int|
            Evaluation {
                condition: inactive(
                    cfg,
                    cfg.signers[i],
                    producing,
                    waiting,
                    is_idle(cfg, activity[cfg.signers[i]], at),
                ),
                now: times[i],
            },
    )
}

/// What the monitor has seen of the chain once the counters of this cycle have been read.
pub open spec fn seen_in(s: State, look: CycleLook) -> State {
    progressed(s, look.committed, look.executed, look.at_executed)
}

/// The evaluations of a cycle, in their order: per signer its balance and membership; whether
/// execution stands still; per signer its liveness; whether enough signers are usable; and that
/// the chain could be read.
pub open spec fn cycle_evaluations(cfg: Config, s: State, look: CycleLook) -> Seq<Evaluation> {
    let n = look.signers.len();
    let seen = seen_in(s, look);
    signer_evaluations(cfg, look.signers, n) + seq![
        Evaluation {
            condition: exec_stalled(
                cfg,
                look.committed@,
                look.executed@,
                execution_still(cfg, seen, look.at_executed),
            ),
            now: look.at_executed,
        },
    ] + liveness_evaluations(
        cfg,
        activity_after(cfg, s.activity, look.signers, n),
        chain_producing(cfg, seen, look.at_executed),
        look.committed@ > look.executed@,
        look.at_executed,
        look.at_liveness,
        n,
    ) + seq![
        Evaluation {
            condition: usable_below_threshold(
                usable_count(cfg, look.signers, n),
                look.threshold@,
            ),
            now: look.at_usable,
        },
    ] + seq![Evaluation { condition: monitor_rpc(None), now: look.at_complete }]
}

/// What a cycle leaves behind.
pub open spec fn after_cycle(cfg: Config, s: State, look: CycleLook) -> State {
    let n = look.signers.len();
    State {
        stage: Stage::Heartbeat,
        threshold: look.threshold@,
        usable: usable_count(cfg, look.signers, n),
        index: n,
        alerts: alerts_after(cfg, s.alerts, cycle_evaluations(cfg, s, look)),
        activity: activity_after(cfg, s.activity, look.signers, n),
        ..seen_in(s, look)
    }
}

/// Whether `look` is of the signers that are configured.
pub open spec fn fits(cfg: Config, look: CycleLook) -> bool {
    &&& look.signers.len() == cfg.signers.len()
    &&& look.at_liveness.len() == cfg.signers.len()
    &&& cfg.signers.len() <= usize::MAX
}

/// The state after the signer that `s` looks at.
spec fn past_signer(cfg: Config, s: State, look: SignerLook) -> State {
    let signer = current(cfg, s);
    State {
        usable: s.usable + if is_usable(cfg, look.balance@, look.is_member) {
            1nat
        } else {
            0nat
        },
        index: s.index + 1,
        alerts: alerts_after(cfg, s.alerts, about_signer(cfg, signer, look)),
        activity: with_nonce(s.activity, signer, look.nonce, look.at_noted),
        ..s
    }
}

spec fn about_signer(cfg: Config, signer: Address, look: SignerLook) -> Seq<Evaluation> {
    seq![
        Evaluation {
            condition: low_balance(cfg, signer, look.balance@),
            now: look.at_nonce,
        },
    ] + seq![
        Evaluation {
            condition: not_member(cfg, signer, look.is_member),
            now: look.at_registered,
        },
    ]
}

proof fn lemma_one_signer(cfg: Config, s: State, look: SignerLook)
    requires
        s.stage == Stage::Balance,
        s.index < cfg.signers.len(),
    ensures
        run(cfg, s, signer_ticks(look)) == Some(
            (
                turning(cfg, past_signer(cfg, s, look)).0,
                texts_of(cfg, s.alerts, about_signer(cfg, current(cfg, s), look)),
            ),
        ),
{
    let t = signer_ticks(look);
    let signer = current(cfg, s);
    let low = low_balance(cfg, signer, look.balance@);
    let outside = not_member(cfg, signer, look.is_member);
    let s1 = State { stage: Stage::Membership { balance: look.balance }, ..s };
    let s2 = State {
        stage: Stage::Nonce { balance: look.balance, is_member: look.is_member },
        ..s
    };
    let counted = State {
        usable: s.usable + if is_usable(cfg, look.balance@, look.is_member) {
            1nat
        } else {
            0nat
        },
        ..s2
    };
    let registered = Stage::Registered { is_member: look.is_member, nonce: look.nonce };
    let noted = Stage::Noted { nonce: look.nonce };
    let (s3, a3) = judging(cfg, counted, low, look.at_nonce, registered);
    let (s4, a4) = judging(cfg, s3, outside, look.at_registered, noted);
    let s5 = turning(
        cfg,
        State {
            activity: with_nonce(s4.activity, current(cfg, s4), look.nonce, look.at_noted),
            index: s4.index + 1,
            ..s4
        },
    ).0;
    lemma_judging_is_evaluation(cfg, counted, low, look.at_nonce, registered);
    lemma_judging_is_evaluation(cfg, s3, outside, look.at_registered, noted);
    lemma_evaluations_append(
        cfg,
        s.alerts,
        seq![Evaluation { condition: low, now: look.at_nonce }],
        seq![Evaluation { condition: outside, now: look.at_registered }],
    );
    lemma_run_one(cfg, s, t[0]);
    lemma_run_one(cfg, s1, t[1]);
    lemma_run_one(cfg, s2, t[2]);
    lemma_run_one(cfg, s3, t[3]);
    lemma_run_one(cfg, s4, t[4]);
    lemma_run_append(cfg, s, seq![t[0]], seq![t[1]]);
    lemma_run_append(cfg, s, seq![t[0]] + seq![t[1]], seq![t[2]]);
    lemma_run_append(cfg, s, seq![t[0]] + seq![t[1]] + seq![t[2]], seq![t[3]]);
    lemma_run_append(cfg, s, seq![t[0]] + seq![t[1]] + seq![t[2]] + seq![t[3]], seq![t[4]]);
    assert(t =~= seq![t[0]] + seq![t[1]] + seq![t[2]] + seq![t[3]] + seq![t[4]]);
    assert(s5 == turning(cfg, past_signer(cfg, s, look)).0);
    assert(run(cfg, s, t) is Some);
    assert((run(cfg, s, t)->0).1 =~= sent(a3) + sent(a4));
}

/// The state after the first `n` signers of a cycle that `s` begins.
spec fn past_signers(cfg: Config, s: State, looks: Seq<SignerLook>, n: nat) -> State {
    State {
        usable: usable_count(cfg, looks, n),
        index: n,
        alerts: alerts_after(cfg, s.alerts, signer_evaluations(cfg, looks, n)),
        activity: activity_after(cfg, s.activity, looks, n),
        ..s
    }
}

proof fn lemma_signers(cfg: Config, s: State, looks: Seq<SignerLook>, n: nat)
    requires
        n <= cfg.signers.len(),
        n <= looks.len(),
        s.usable == 0,
        s.index == 0,
    ensures
        run(cfg, turning(cfg, s).0, signers_ticks(looks, n)) == Some(
            (
                turning(cfg, past_signers(cfg, s, looks, n)).0,
                texts_of(cfg, s.alerts, signer_evaluations(cfg, looks, n)),
            ),
        ),
    decreases n,
{
    if n == 0 {
        assert(signer_evaluations(cfg, looks, 0) =~= Seq::<Evaluation>::empty());
        assert(past_signers(cfg, s, looks, 0) == s);
    } else {
        let m = (n - 1) as nat;
        let look = looks[m as int];
        let signer = cfg.signers[m as int];
        let middle = turning(cfg, past_signers(cfg, s, looks, m)).0;
        lemma_signers(cfg, s, looks, m);
        lemma_one_signer(cfg, middle, look);
        lemma_run_append(
            cfg,
            turning(cfg, s).0,
            signers_ticks(looks, m),
            signer_ticks(look),
        );
        assert(current(cfg, middle) == signer);
        assert(signer_evaluations(cfg, looks, n) =~= signer_evaluations(cfg, looks, m)
            + about_signer(cfg, signer, look));
        lemma_evaluations_append(
            cfg,
            s.alerts,
            signer_evaluations(cfg, looks, m),
            about_signer(cfg, signer, look),
        );
        assert(turning(cfg, past_signer(cfg, middle, look)).0 == turning(
            cfg,
            past_signers(cfg, s, looks, n),
        ).0);
    }
}

proof fn lemma_activity_known(
    cfg: Config,
    activity: Map<Address, SignerActivity>,
    looks: Seq<SignerLook>,
    n: nat,
    i: int,
)
    requires
        0 <= i < n <= cfg.signers.len(),
    ensures
        activity_after(cfg, activity, looks, n).dom().contains(cfg.signers[i]),
    decreases n,
{
    if i < n - 1 {
        lemma_activity_known(cfg, activity, looks, (n - 1) as nat, i);
    }
}

/// In the course of a cycle, the nonce of each signer is noted as if no other signer had been
/// looked at, if its address is listed once among those looked at.
pub proof fn law_nonces_are_noted_apart(
    cfg: Config,
    activity: Map<Address, SignerActivity>,
    looks: Seq<SignerLook>,
    n: nat,
    i: int,
)
    requires
        0 <= i < n <= cfg.signers.len(),
        forall|j: int|
            0 <= j < n && j != i ==> #[trigger] cfg.signers[j] != cfg.signers[i],
    ensures
        activity_after(cfg, activity, looks, n)[cfg.signers[i]] == with_nonce(
            activity,
            cfg.signers[i],
            looks[i].nonce,
            looks[i].at_noted,
        )[cfg.signers[i]],
    decreases n,
{
    if i < n - 1 {
        assert(cfg.signers[n - 1] != cfg.signers[i]);
        law_nonces_are_noted_apart(cfg, activity, looks, (n - 1) as nat, i);
    } else {
        lemma_activity_of_others(cfg, activity, looks, i as nat, cfg.signers[i]);
    }
}

proof fn lemma_activity_of_others(
    cfg: Config,
    activity: Map<Address, SignerActivity>,
    looks: Seq<SignerLook>,
    n: nat,
    other: Address,
)
    requires
        n <= cfg.signers.len(),
        forall|j: int| 0 <= j < n ==> #[trigger] cfg.signers[j] != other,
    ensures
        activity_after(cfg, activity, looks, n).dom().contains(other) == activity.dom().contains(
            other,
        ),
        activity.dom().contains(other) ==> activity_after(cfg, activity, looks, n)[other]
            == activity[other],
    decreases n,
{
    if n > 0 {
        lemma_activity_of_others(cfg, activity, looks, (n - 1) as nat, other);
        assert(cfg.signers[n - 1] != other);
    }
}

proof fn lemma_liveness(
    cfg: Config,
    s: State,
    producing: bool,
    waiting: bool,
    at: Moment,
    times: Seq<Moment>,
    n: nat,
)
    requires
        n <= cfg.signers.len() <= usize::MAX,
        n <= times.len(),
        s.stage == (Stage::Liveness { next: 0, producing, waiting, at }),
        forall|i: int|
            0 <= i < cfg.signers.len() ==> s.activity.dom().contains(#[trigger] cfg.signers[i]),
    ensures
        ({
            let es = liveness_evaluations(cfg, s.activity, producing, waiting, at, times, n);
            run(cfg, s, liveness_ticks(times, n)) == Some(
                (
                    State {
                        stage: Stage::Liveness { next: n as usize, producing, waiting, at },
                        alerts: alerts_after(cfg, s.alerts, es),
                        ..s
                    },
                    texts_of(cfg, s.alerts, es),
                ),
            )
        }),
    decreases n,
{
    let es = liveness_evaluations(cfg, s.activity, producing, waiting, at, times, n);
    if n == 0 {
        assert(es =~= Seq::<Evaluation>::empty());
    } else {
        let m = (n - 1) as nat;
        let fs = liveness_evaluations(cfg, s.activity, producing, waiting, at, times, m);
        let middle = State {
            stage: Stage::Liveness { next: m as usize, producing, waiting, at },
            alerts: alerts_after(cfg, s.alerts, fs),
            ..s
        };
        let signer = cfg.signers[m as int];
        let c = inactive(
            cfg,
            signer,
            producing,
            waiting,
            is_idle(cfg, s.activity[signer], at),
        );
        let now = times[m as int];
        lemma_liveness(cfg, s, producing, waiting, at, times, m);
        lemma_run_one(cfg, middle, Tick { event: Event::Done, now });
        lemma_judging_is_evaluation(
            cfg,
            middle,
            c,
            now,
            Stage::Liveness { next: n as usize, producing, waiting, at },
        );
        lemma_run_append(
            cfg,
            s,
            liveness_ticks(times, m),
            seq![Tick { event: Event::Done, now }],
        );
        assert(es =~= fs + seq![Evaluation { condition: c, now }]);
        lemma_evaluations_append(cfg, s.alerts, fs, seq![Evaluation { condition: c, now }]);
    }
}

/// The state in which the signers of a cycle are turned to.
spec fn past_threshold(s: State, look: CycleLook) -> State {
    State { stage: Stage::Threshold, threshold: look.threshold@, usable: 0, index: 0, ..s }
}

/// The threshold and the first `n` signers.
proof fn lemma_opening(cfg: Config, s: State, look: CycleLook, n: nat)
    requires
        s.stage == Stage::Rest,
        n <= cfg.signers.len(),
        n <= look.signers.len(),
    ensures
        run(cfg, s, opening_ticks(look) + signers_ticks(look.signers, n)) == Some(
            (
                turning(cfg, past_signers(cfg, past_threshold(s, look), look.signers, n)).0,
                texts_of(cfg, s.alerts, signer_evaluations(cfg, look.signers, n)),
            ),
        ),
{
    let start = opening_ticks(look)[0];
    let threshold = opening_ticks(look)[1];
    let s0 = State { stage: Stage::Threshold, ..s };
    let base = past_threshold(s, look);
    lemma_run_one(cfg, s, start);
    lemma_run_one(cfg, s0, threshold);
    lemma_run_append(cfg, s, seq![start], seq![threshold]);
    assert(opening_ticks(look) =~= seq![start] + seq![threshold]);
    let silence = Seq::<Seq<char>>::empty();
    assert(silence + silence =~= silence);
    assert(run(cfg, s, opening_ticks(look)) == Some((turning(cfg, base).0, silence)));
    lemma_signers(cfg, base, look.signers, n);
    lemma_run_append(cfg, s, opening_ticks(look), signers_ticks(look.signers, n));
    let x = texts_of(cfg, s.alerts, signer_evaluations(cfg, look.signers, n));
    assert(silence + x =~= x);
}

/// The judgement of the batch counters.
spec fn counters_evaluation(cfg: Config, s: State, look: CycleLook) -> Evaluation {
    Evaluation {
        condition: exec_stalled(
            cfg,
            look.committed@,
            look.executed@,
            execution_still(cfg, seen_in(s, look), look.at_executed),
        ),
        now: look.at_executed,
    }
}

/// The batch counters.
proof fn lemma_counters(cfg: Config, s: State, look: CycleLook)
    requires
        s.stage == Stage::Committed,
    ensures
        run(cfg, s, counters_ticks(look)) == Some(
            (
                State {
                    stage: Stage::Liveness {
                        next: 0,
                        producing: chain_producing(cfg, seen_in(s, look), look.at_executed),
                        waiting: look.committed@ > look.executed@,
                        at: look.at_executed,
                    },
                    alerts: alerts_after(
                        cfg,
                        s.alerts,
                        seq![counters_evaluation(cfg, s, look)],
                    ),
                    ..seen_in(s, look)
                },
                texts_of(cfg, s.alerts, seq![counters_evaluation(cfg, s, look)]),
            ),
        ),
{
    let committed = counters_ticks(look)[0];
    let executed = counters_ticks(look)[1];
    let s1 = State { stage: Stage::Executed { committed: look.committed }, ..s };
    let seen = seen_in(s1, look);
    let e = counters_evaluation(cfg, s, look);
    let first = Stage::Liveness {
        next: 0,
        producing: chain_producing(cfg, seen, look.at_executed),
        waiting: look.committed@ > look.executed@,
        at: look.at_executed,
    };
    lemma_run_one(cfg, s, committed);
    lemma_run_one(cfg, s1, executed);
    lemma_run_append(cfg, s, seq![committed], seq![executed]);
    assert(counters_ticks(look) =~= seq![committed] + seq![executed]);
    lemma_judging_is_evaluation(cfg, seen, e.condition, look.at_executed, first);
    let x = texts_of(cfg, s.alerts, seq![e]);
    assert(Seq::<Seq<char>>::empty() + x =~= x);
}

spec fn closing_ticks(look: CycleLook) -> Seq<Tick> {
    seq![
        Tick { event: Event::Done, now: look.at_usable },
        Tick { event: Event::Done, now: look.at_complete },
    ]
}

/// The last two judgements of a cycle.
spec fn closing_evaluations(s: State, look: CycleLook) -> Seq<Evaluation> {
    seq![
        Evaluation {
            condition: usable_below_threshold(s.usable, s.threshold),
            now: look.at_usable,
        },
    ] + seq![Evaluation { condition: monitor_rpc(None), now: look.at_complete }]
}

/// The number of usable signers, and that the chain could be read.
proof fn lemma_closing(cfg: Config, s: State, look: CycleLook)
    requires
        s.stage is Liveness,
        s.stage->next == cfg.signers.len(),
    ensures
        run(cfg, s, closing_ticks(look)) == Some(
            (
                State {
                    stage: Stage::Heartbeat,
                    alerts: alerts_after(cfg, s.alerts, closing_evaluations(s, look)),
                    ..s
                },
                texts_of(cfg, s.alerts, closing_evaluations(s, look)),
            ),
        ),
{
    let usable = closing_ticks(look)[0];
    let complete = closing_ticks(look)[1];
    let few = usable_below_threshold(s.usable, s.threshold);
    let s1 = judging(cfg, s, few, look.at_usable, Stage::Complete).0;
    lemma_run_one(cfg, s, usable);
    lemma_judging_is_evaluation(cfg, s, few, look.at_usable, Stage::Complete);
    lemma_run_one(cfg, s1, complete);
    lemma_judging_is_evaluation(cfg, s1, monitor_rpc(None), look.at_complete, Stage::Heartbeat);
    lemma_run_append(cfg, s, seq![usable], seq![complete]);
    assert(closing_ticks(look) =~= seq![usable] + seq![complete]);
    lemma_evaluations_append(
        cfg,
        s.alerts,
        seq![Evaluation { condition: few, now: look.at_usable }],
        seq![Evaluation { condition: monitor_rpc(None), now: look.at_complete }],
    );
}

/// A cycle in which every reading succeeds evaluates exactly the conditions that
/// `cycle_evaluations` lists, in that order, sends exactly their texts, and leaves behind exactly
/// what `after_cycle` says.
pub proof fn law_cycle(cfg: Config, s: State, look: CycleLook)
    requires
        s.stage == Stage::Rest,
        fits(cfg, look),
    ensures
        run(cfg, s, cycle_ticks(look)) == Some(
            (
                after_cycle(cfg, s, look),
                texts_of(cfg, s.alerts, cycle_evaluations(cfg, s, look)),
            ),
        ),
{
    let n = look.signers.len();
    let t1 = opening_ticks(look) + signers_ticks(look.signers, n);
    let t2 = counters_ticks(look);
    let t3 = liveness_ticks(look.at_liveness, n);
    let t4 = closing_ticks(look);

    let e1 = signer_evaluations(cfg, look.signers, n);
    let s1 = State {
        stage: Stage::Committed,
        ..past_signers(cfg, past_threshold(s, look), look.signers, n)
    };
    lemma_opening(cfg, s, look, n);

    let producing = chain_producing(cfg, seen_in(s1, look), look.at_executed);
    let waiting = look.committed@ > look.executed@;
    let e2 = seq![counters_evaluation(cfg, s1, look)];
    let s2 = State {
        stage: Stage::Liveness { next: 0, producing, waiting, at: look.at_executed },
        alerts: alerts_after(cfg, s1.alerts, e2),
        ..seen_in(s1, look)
    };
    lemma_counters(cfg, s1, look);
    lemma_run_append(cfg, s, t1, t2);
    lemma_evaluations_append(cfg, s.alerts, e1, e2);

    assert forall|i: int| 0 <= i < cfg.signers.len() implies s2.activity.dom().contains(
        #[trigger] cfg.signers[i],
    ) by {
        lemma_activity_known(cfg, s.activity, look.signers, n, i);
    }
    let e3 = liveness_evaluations(
        cfg,
        s2.activity,
        producing,
        waiting,
        look.at_executed,
        look.at_liveness,
        n,
    );
    let s3 = State {
        stage: Stage::Liveness { next: n as usize, producing, waiting, at: look.at_executed },
        alerts: alerts_after(cfg, s2.alerts, e3),
        ..s2
    };
    lemma_liveness(cfg, s2, producing, waiting, look.at_executed, look.at_liveness, n);
    lemma_run_append(cfg, s, t1 + t2, t3);
    lemma_evaluations_append(cfg, s.alerts, e1 + e2, e3);

    let e4 = closing_evaluations(s3, look);
    lemma_closing(cfg, s3, look);
    lemma_run_append(cfg, s, t1 + t2 + t3, t4);
    lemma_evaluations_append(cfg, s.alerts, e1 + e2 + e3, e4);
    assert(cycle_ticks(look) == t1 + t2 + t3 + t4);
    assert(cycle_evaluations(cfg, s, look) =~= e1 + e2 + e3 + e4);
}

/// After some evaluations, a condition is active exactly if it held when it was last evaluated.
proof fn lemma_last_evaluation_counts(
    cfg: Config,
    alerts: Map<Seq<char>, AlertEntry>,
    es: Seq<Evaluation>,
    i: int,
)
    requires
        0 <= i < es.len(),
        forall|j: int|
            i < j < es.len() ==> (#[trigger] es[j]).condition.key != es[i].condition.key,
    ensures
        active_keys(alerts_after(cfg, alerts, es)).contains(es[i].condition.key)
            == es[i].condition.firing,
    decreases es.len(),
{
    if i < es.len() - 1 {
        let fs = es.drop_last();
        assert(fs[i] == es[i]);
        assert forall|j: int| i < j < fs.len() implies (#[trigger] fs[j]).condition.key
            != fs[i].condition.key by {
            assert(fs[j] == es[j]);
        }
        lemma_last_evaluation_counts(cfg, alerts, fs, i);
        assert(es[es.len() - 1].condition.key != es[i].condition.key);
    }
}

/// The evaluations of a cycle by their place: of the `n` signers, the one at `k` has its balance
/// judged at `2k`, its membership at `2k + 1` and its liveness at `2n + 1 + k`; what is left are
/// the three judgements of the network.
proof fn lemma_places(cfg: Config, s: State, look: CycleLook, k: int)
    requires
        fits(cfg, look),
        0 <= k < cfg.signers.len(),
    ensures
        ({
            let n = cfg.signers.len() as int;
            let es = cycle_evaluations(cfg, s, look);
            let signer = cfg.signers[k];
            let seen = seen_in(s, look);
            let producing = chain_producing(cfg, seen, look.at_executed);
            let still = execution_still(cfg, seen, look.at_executed);
            let activity = activity_after(cfg, s.activity, look.signers, n as nat);
            &&& es.len() == 3 * n + 3
            &&& es[2 * k].condition == low_balance(cfg, signer, look.signers[k].balance@)
            &&& es[2 * k + 1].condition == not_member(cfg, signer, look.signers[k].is_member)
            &&& es[2 * n].condition == exec_stalled(cfg, look.committed@, look.executed@, still)
            &&& es[2 * n + 1 + k].condition == inactive(
                cfg,
                signer,
                producing,
                look.committed@ > look.executed@,
                is_idle(cfg, activity[signer], look.at_executed),
            )
            &&& es[3 * n + 1].condition == usable_below_threshold(
                usable_count(cfg, look.signers, n as nat),
                look.threshold@,
            )
            &&& es[3 * n + 2].condition == monitor_rpc(None)
        }),
{
    let n = cfg.signers.len() as int;
    let es = cycle_evaluations(cfg, s, look);
    let e1 = signer_evaluations(cfg, look.signers, n as nat);
    assert((2 * k) % 2 == 0 && (2 * k) / 2 == k);
    assert((2 * k + 1) % 2 == 1 && (2 * k + 1) / 2 == k);
    assert(es[2 * k] == e1[2 * k]);
    assert(es[2 * k + 1] == e1[2 * k + 1]);
}

/// Of two different places in the evaluations of a cycle, both have the same key only if they
/// judge the same thing of the same address.
proof fn lemma_keys_by_place(cfg: Config, s: State, look: CycleLook, a: int, b: int)
    requires
        fits(cfg, look),
        0 <= a < b < 3 * cfg.signers.len() + 3,
        cycle_evaluations(cfg, s, look)[a].condition.key == cycle_evaluations(
            cfg,
            s,
            look,
        )[b].condition.key,
    ensures
        ({
            let n = cfg.signers.len() as int;
            ||| b < 2 * n && a % 2 == b % 2 && cfg.signers[a / 2] == cfg.signers[b / 2]
            ||| 2 * n < a && b <= 3 * n && cfg.signers[a - 2 * n - 1] == cfg.signers[b - 2 * n - 1]
        }),
{
    let n = cfg.signers.len() as int;
    let k = if a < 2 * n {
        a / 2
    } else if 2 * n < a <= 3 * n {
        a - 2 * n - 1
    } else {
        0
    };
    let l = if b < 2 * n {
        b / 2
    } else if 2 * n < b <= 3 * n {
        b - 2 * n - 1
    } else {
        0
    };
    let still = execution_still(cfg, seen_in(s, look), look.at_executed);
    let usable = usable_count(cfg, look.signers, n as nat);
    let counters = (look.committed@, look.executed@, still);
    if n > 0 {
        lemma_places(cfg, s, look, k);
        lemma_places(cfg, s, look, l);
    }
    let x = cfg.signers[k];
    let y = cfg.signers[l];
    let needed = look.threshold@;
    law_keys_are_distinct(cfg, x, y, 0, true, true, true, true, counters, usable, needed, None);
    law_keys_are_distinct(cfg, y, x, 0, true, true, true, true, counters, usable, needed, None);
}

/// After a cycle in which every reading succeeded, each alert about the network is active exactly
/// if its condition holds of what was read, however many signers there are.
pub proof fn law_network_alerts_reflect_the_cycle(cfg: Config, s: State, look: CycleLook)
    requires
        fits(cfg, look),
    ensures
        ({
            let still = execution_still(cfg, seen_in(s, look), look.at_executed);
            let usable = usable_count(cfg, look.signers, cfg.signers.len());
            let stalled = exec_stalled(cfg, look.committed@, look.executed@, still);
            let few = usable_below_threshold(usable, look.threshold@);
            let active = active_keys(after_cycle(cfg, s, look).alerts);
            &&& active.contains(stalled.key) <==> backlog(look.committed@, look.executed@)
                >= cfg.exec_lag_alert && still
            &&& active.contains(few.key) <==> usable < look.threshold@
            &&& !active.contains(monitor_rpc(None).key)
        }),
{
    let n = cfg.signers.len() as int;
    if n > 0 {
        lemma_places(cfg, s, look, 0);
    }
    lemma_last_of_its_kind(cfg, s, look, 2 * n);
    lemma_last_of_its_kind(cfg, s, look, 3 * n + 1);
    lemma_last_of_its_kind(cfg, s, look, 3 * n + 2);
}

/// After a cycle in which every reading succeeded, each alert is active exactly if its condition
/// holds of what was read: the owner is told which signers lack funds, which are not registered,
/// which are silent while the chain goes on committing batches or batches await execution, whether
/// execution stands still, and whether enough signers are usable. Where an address is listed more
/// than once, its last balance and membership count; `i` is the last place of its address.
pub proof fn law_alerts_reflect_the_cycle(cfg: Config, s: State, look: CycleLook, i: int)
    requires
        fits(cfg, look),
        0 <= i < cfg.signers.len(),
        forall|j: int| i < j < cfg.signers.len() ==> #[trigger] cfg.signers[j] != cfg.signers[i],
    ensures
        ({
            let n = cfg.signers.len();
            let signer = cfg.signers[i];
            let seen = seen_in(s, look);
            let producing = chain_producing(cfg, seen, look.at_executed);
            let waiting = look.committed@ > look.executed@;
            let still = execution_still(cfg, seen, look.at_executed);
            let idle = is_idle(
                cfg,
                activity_after(cfg, s.activity, look.signers, n)[signer],
                look.at_executed,
            );
            let usable = usable_count(cfg, look.signers, n);
            let low = low_balance(cfg, signer, look.signers[i].balance@);
            let outside = not_member(cfg, signer, look.signers[i].is_member);
            let silent = inactive(cfg, signer, producing, waiting, idle);
            let stalled = exec_stalled(cfg, look.committed@, look.executed@, still);
            let few = usable_below_threshold(usable, look.threshold@);
            let active = active_keys(after_cycle(cfg, s, look).alerts);
            &&& active.contains(low.key) <==> look.signers[i].balance@ < cfg.min_balance_wei
            &&& active.contains(outside.key) <==> !look.signers[i].is_member
            &&& active.contains(silent.key) <==> idle && (producing || waiting)
            &&& active.contains(stalled.key) <==> backlog(look.committed@, look.executed@)
                >= cfg.exec_lag_alert && still
            &&& active.contains(few.key) <==> usable < look.threshold@
            &&& !active.contains(monitor_rpc(None).key)
        }),
{
    let n = cfg.signers.len() as int;
    lemma_places(cfg, s, look, i);
    lemma_last_of_its_kind(cfg, s, look, 2 * i);
    lemma_last_of_its_kind(cfg, s, look, 2 * i + 1);
    lemma_last_of_its_kind(cfg, s, look, 2 * n + 1 + i);
    law_network_alerts_reflect_the_cycle(cfg, s, look);
}

/// If the address that the evaluation at `a` is about has no later place, the alert of that
/// evaluation is active after the cycle exactly if its condition held.
proof fn lemma_last_of_its_kind(cfg: Config, s: State, look: CycleLook, a: int)
    requires
        fits(cfg, look),
        0 <= a < 3 * cfg.signers.len() + 3,
        a < 2 * cfg.signers.len() ==> forall|j: int|
            a / 2 < j < cfg.signers.len() ==> #[trigger] cfg.signers[j] != cfg.signers[a / 2],
        2 * cfg.signers.len() < a <= 3 * cfg.signers.len() ==> forall|j: int|
            a - 2 * cfg.signers.len() - 1 < j < cfg.signers.len() ==> #[trigger] cfg.signers[j]
                != cfg.signers[a - 2 * cfg.signers.len() - 1],
    ensures
        ({
            let c = cycle_evaluations(cfg, s, look)[a].condition;
            active_keys(after_cycle(cfg, s, look).alerts).contains(c.key) == c.firing
        }),
{
    let es = cycle_evaluations(cfg, s, look);
    assert(es.len() == 3 * cfg.signers.len() + 3);
    assert forall|b: int| a < b < es.len() implies (#[trigger] es[b]).condition.key
        != es[a].condition.key by {
        if es[b].condition.key == es[a].condition.key {
            lemma_keys_by_place(cfg, s, look, a, b);
        }
    }
    lemma_last_evaluation_counts(cfg, s.alerts, es, a);
}

/// The reading at which a cycle fails; of those of a signer, that of the signer at this place.
pub enum Failure {
    Threshold,
    Balance(nat),
    Membership(nat),
    Nonce(nat),
    Committed,
    Executed,
}

/// Whether `failure` is at one of the signers that are configured, if it is at a signer.
pub open spec fn possible(cfg: Config, failure: Failure) -> bool {
    match failure {
        Failure::Balance(k) | Failure::Membership(k) | Failure::Nonce(k) => k < cfg.signers.len(),
        _ => true,
    }
}

/// The reading that fails.
pub open spec fn failing(cfg: Config, failure: Failure) -> Reading {
    match failure {
        Failure::Threshold => Reading::Threshold,
        Failure::Balance(k) => Reading::Balance(cfg.signers[k as int]),
        Failure::Membership(k) => Reading::Membership(cfg.signers[k as int]),
        Failure::Nonce(k) => Reading::Nonce(cfg.signers[k as int]),
        Failure::Committed => Reading::Committed,
        Failure::Executed => Reading::Executed,
    }
}

/// How many signers have been done with when the cycle fails.
pub open spec fn signers_done(cfg: Config, failure: Failure) -> nat {
    match failure {
        Failure::Threshold => 0,
        Failure::Balance(k) | Failure::Membership(k) | Failure::Nonce(k) => k,
        Failure::Committed | Failure::Executed => cfg.signers.len(),
    }
}

/// What the monitor is told in a cycle that goes as in `look` up to `failure`, which is at `at`.
pub open spec fn failed_ticks(
    cfg: Config,
    look: CycleLook,
    failure: Failure,
    at: Moment,
) -> Seq<Tick> {
    let failed = seq![Tick { event: Event::Failed, now: at }];
    let before = opening_ticks(look) + signers_ticks(look.signers, signers_done(cfg, failure));
    match failure {
        Failure::Threshold => opening_ticks(look).take(1) + failed,
        Failure::Balance(_) | Failure::Committed => before + failed,
        Failure::Membership(k) => before + signer_ticks(look.signers[k as int]).take(1) + failed,
        Failure::Nonce(k) => before + signer_ticks(look.signers[k as int]).take(2) + failed,
        Failure::Executed => before + counters_ticks(look).take(1) + failed,
    }
}

/// The evaluations of a failed cycle, in their order: the balance and membership of each signer
/// that was done with, and that the chain could not be read.
pub open spec fn failed_evaluations(
    cfg: Config,
    look: CycleLook,
    failure: Failure,
    at: Moment,
) -> Seq<Evaluation> {
    signer_evaluations(cfg, look.signers, signers_done(cfg, failure)) + seq![
        Evaluation { condition: monitor_rpc(Some(failing(cfg, failure))), now: at },
    ]
}

/// What a failed cycle leaves behind.
pub open spec fn after_failed_cycle(
    cfg: Config,
    s: State,
    look: CycleLook,
    failure: Failure,
    at: Moment,
) -> State {
    let k = signers_done(cfg, failure);
    let opened = if failure is Threshold {
        s
    } else {
        State {
            threshold: look.threshold@,
            usable: usable_count(cfg, look.signers, k),
            index: k,
            ..s
        }
    };
    State {
        stage: Stage::Heartbeat,
        alerts: alerts_after(cfg, s.alerts, failed_evaluations(cfg, look, failure, at)),
        activity: activity_after(cfg, s.activity, look.signers, k),
        ..opened
    }
}

/// A failed reading is judged at once.
proof fn lemma_failed_reading(cfg: Config, s: State, at: Moment)
    requires
        awaited(cfg, s) is Some,
    ensures
        ({
            let e = Evaluation { condition: monitor_rpc(awaited(cfg, s)), now: at };
            run(cfg, s, seq![Tick { event: Event::Failed, now: at }]) == Some(
                (
                    State {
                        stage: Stage::Heartbeat,
                        alerts: alerts_after(cfg, s.alerts, seq![e]),
                        ..s
                    },
                    texts_of(cfg, s.alerts, seq![e]),
                ),
            )
        }),
{
    lemma_run_one(cfg, s, Tick { event: Event::Failed, now: at });
    lemma_judging_is_evaluation(cfg, s, monitor_rpc(awaited(cfg, s)), at, Stage::Heartbeat);
}

/// One more tick that sends nothing leads from the end of a run to `next`.
proof fn lemma_silent_tick(
    cfg: Config,
    s: State,
    ticks: Seq<Tick>,
    middle: State,
    texts: Seq<Seq<char>>,
    tick: Tick,
    next: State,
    action: ActionView,
)
    requires
        run(cfg, s, ticks) == Some((middle, texts)),
        transition(cfg, middle, tick.event, tick.now) == Some((next, action)),
        action !is Send,
    ensures
        run(cfg, s, ticks + seq![tick]) == Some((next, texts)),
{
    lemma_run_append(cfg, s, ticks, seq![tick]);
    lemma_run_one(cfg, middle, tick);
    assert(texts + Seq::<Seq<char>>::empty() =~= texts);
}

/// A cycle in which a reading fails evaluates exactly the conditions that `failed_evaluations`
/// lists, in that order, sends exactly their texts, and leaves behind exactly what
/// `after_failed_cycle` says.
pub proof fn law_failed_cycle(
    cfg: Config,
    s: State,
    look: CycleLook,
    failure: Failure,
    at: Moment,
)
    requires
        s.stage == Stage::Rest,
        fits(cfg, look),
        possible(cfg, failure),
    ensures
        run(cfg, s, failed_ticks(cfg, look, failure, at)) == Some(
            (
                after_failed_cycle(cfg, s, look, failure, at),
                texts_of(cfg, s.alerts, failed_evaluations(cfg, look, failure, at)),
            ),
        ),
{
    let k = signers_done(cfg, failure);
    let es = signer_evaluations(cfg, look.signers, k);
    let e = Evaluation { condition: monitor_rpc(Some(failing(cfg, failure))), now: at };
    let x = texts_of(cfg, s.alerts, es);
    let failed = seq![Tick { event: Event::Failed, now: at }];
    let before = opening_ticks(look) + signers_ticks(look.signers, k);
    let middle = turning(cfg, past_signers(cfg, past_threshold(s, look), look.signers, k)).0;
    lemma_opening(cfg, s, look, k);
    lemma_evaluations_append(cfg, s.alerts, es, seq![e]);
    match failure {
        Failure::Threshold => {
            let start = opening_ticks(look)[0];
            let asked = State { stage: Stage::Threshold, ..s };
            assert(es =~= Seq::<Evaluation>::empty());
            assert(opening_ticks(look).take(1) =~= seq![start]);
            lemma_run_one(cfg, s, start);
            lemma_failed_reading(cfg, asked, at);
            lemma_run_append(cfg, s, seq![start], failed);
        },
        Failure::Balance(_) | Failure::Committed => {
            lemma_failed_reading(cfg, middle, at);
            lemma_run_append(cfg, s, before, failed);
        },
        Failure::Membership(_) => {
            let t = signer_ticks(look.signers[k as int]);
            let (s1, a1) = transition(cfg, middle, t[0].event, t[0].now)->0;
            assert(t.take(1) =~= seq![t[0]]);
            lemma_silent_tick(cfg, s, before, middle, x, t[0], s1, a1);
            lemma_failed_reading(cfg, s1, at);
            lemma_run_append(cfg, s, before + t.take(1), failed);
        },
        Failure::Nonce(_) => {
            let t = signer_ticks(look.signers[k as int]);
            let (s1, a1) = transition(cfg, middle, t[0].event, t[0].now)->0;
            let (s2, a2) = transition(cfg, s1, t[1].event, t[1].now)->0;
            lemma_silent_tick(cfg, s, before, middle, x, t[0], s1, a1);
            lemma_silent_tick(cfg, s, before + seq![t[0]], s1, x, t[1], s2, a2);
            assert(before + t.take(2) =~= before + seq![t[0]] + seq![t[1]]);
            lemma_failed_reading(cfg, s2, at);
            lemma_run_append(cfg, s, before + t.take(2), failed);
        },
        Failure::Executed => {
            let t = counters_ticks(look);
            let (s1, a1) = transition(cfg, middle, t[0].event, t[0].now)->0;
            assert(t.take(1) =~= seq![t[0]]);
            lemma_silent_tick(cfg, s, before, middle, x, t[0], s1, a1);
            lemma_failed_reading(cfg, s1, at);
            lemma_run_append(cfg, s, before + t.take(1), failed);
        },
    }
}

/// An entry is left as it was by evaluations of other conditions.
proof fn lemma_entry_untouched(
    cfg: Config,
    alerts: Map<Seq<char>, AlertEntry>,
    es: Seq<Evaluation>,
    key: Seq<char>,
)
    requires
        forall|j: int| 0 <= j < es.len() ==> (#[trigger] es[j]).condition.key != key,
    ensures
        lookup(alerts_after(cfg, alerts, es), key) == lookup(alerts, key),
    decreases es.len(),
{
    if es.len() > 0 {
        let fs = es.drop_last();
        assert(forall|j: int| 0 <= j < fs.len() ==> fs[j] == es[j]);
        lemma_entry_untouched(cfg, alerts, fs, key);
        assert(es[es.len() - 1].condition.key != key);
    }
}

/// A condition that is evaluated once has the entry that this evaluation gives it.
proof fn lemma_entry_of_one_evaluation(
    cfg: Config,
    alerts: Map<Seq<char>, AlertEntry>,
    es: Seq<Evaluation>,
    i: int,
)
    requires
        0 <= i < es.len(),
        forall|j: int|
            0 <= j < es.len() && j != i ==> (#[trigger] es[j]).condition.key
                != es[i].condition.key,
    ensures
        ({
            let c = es[i].condition;
            lookup(alerts_after(cfg, alerts, es), c.key) == Some(
                next_entry(lookup(alerts, c.key), c.firing, es[i].now, cfg.alert_cooldown_secs),
            )
        }),
    decreases es.len(),
{
    let fs = es.drop_last();
    assert(forall|j: int| 0 <= j < fs.len() ==> fs[j] == es[j]);
    if i < es.len() - 1 {
        lemma_entry_of_one_evaluation(cfg, alerts, fs, i);
        assert(es[es.len() - 1].condition.key != es[i].condition.key);
    } else {
        lemma_entry_untouched(cfg, alerts, fs, es[i].condition.key);
    }
}

/// The keys that a failed cycle evaluates, held against those of `other` and of the network.
proof fn lemma_failed_keys(
    cfg: Config,
    look: CycleLook,
    failure: Failure,
    at: Moment,
    j: int,
    other: Address,
)
    requires
        0 <= j < failed_evaluations(cfg, look, failure, at).len(),
    ensures
        ({
            let k = signers_done(cfg, failure);
            let key = failed_evaluations(cfg, look, failure, at)[j].condition.key;
            let about_other = j < 2 * k && cfg.signers[j / 2] == other;
            &&& key == low_balance(cfg, other, 0).key <==> about_other && j % 2 == 0
            &&& key == not_member(cfg, other, true).key <==> about_other && j % 2 == 1
            &&& key != inactive(cfg, other, true, true, true).key
            &&& key != exec_stalled(cfg, 0, 0, true).key
            &&& key != usable_below_threshold(0, 0).key
            &&& key == monitor_rpc(None).key <==> j == 2 * k
        }),
{
    let k = signers_done(cfg, failure);
    let signer = cfg.signers[j / 2];
    let es = failed_evaluations(cfg, look, failure, at);
    assert(es.len() == 2 * k + 1);
    law_keys_are_distinct(
        cfg,
        signer,
        other,
        0,
        true,
        true,
        true,
        true,
        (0, 0, true),
        0,
        0,
        None,
    );
    law_keys_are_distinct(
        cfg,
        other,
        signer,
        0,
        true,
        true,
        true,
        true,
        (0, 0, true),
        0,
        0,
        None,
    );
    if j < 2 * k {
        assert(es[j] == signer_evaluations(cfg, look.signers, k)[j]);
    }
}

/// A failed cycle leaves alone what it did not get to: the batch counters and their times, the
/// alerts on the network and on silent signers, and, of every address that is not among the
/// signers done with, its activity and its alerts. The alert that the chain cannot be read is
/// active.
pub proof fn law_failed_cycle_leaves_the_rest(
    cfg: Config,
    s: State,
    look: CycleLook,
    failure: Failure,
    at: Moment,
    other: Address,
)
    requires
        fits(cfg, look),
        possible(cfg, failure),
    ensures
        ({
            let end = after_failed_cycle(cfg, s, look, failure, at);
            let stalled = exec_stalled(cfg, 0, 0, true).key;
            let few = usable_below_threshold(0, 0).key;
            let low = low_balance(cfg, other, 0).key;
            let outside = not_member(cfg, other, true).key;
            let silent = inactive(cfg, other, true, true, true).key;
            &&& end.last_executed == s.last_executed
            &&& end.executed_changed_at == s.executed_changed_at
            &&& end.last_committed == s.last_committed
            &&& end.committed_changed_at == s.committed_changed_at
            &&& end.last_heartbeat == s.last_heartbeat
            &&& lookup(end.alerts, stalled) == lookup(s.alerts, stalled)
            &&& lookup(end.alerts, few) == lookup(s.alerts, few)
            &&& lookup(end.alerts, silent) == lookup(s.alerts, silent)
            &&& active_keys(end.alerts).contains(monitor_rpc(None).key)
            &&& (forall|j: int|
                0 <= j < signers_done(cfg, failure) ==> #[trigger] cfg.signers[j] != other) ==> {
                &&& lookup(end.alerts, low) == lookup(s.alerts, low)
                &&& lookup(end.alerts, outside) == lookup(s.alerts, outside)
                &&& end.activity.dom().contains(other) == s.activity.dom().contains(other)
                &&& s.activity.dom().contains(other) ==> end.activity[other] == s.activity[other]
            }
        }),
{
    let k = signers_done(cfg, failure);
    let es = failed_evaluations(cfg, look, failure, at);
    assert(es.len() == 2 * k + 1);
    assert forall|j: int| 0 <= j < es.len() implies {
        let key = (#[trigger] es[j]).condition.key;
        let about_other = j < 2 * k && cfg.signers[j / 2] == other;
        &&& key == low_balance(cfg, other, 0).key <==> about_other && j % 2 == 0
        &&& key == not_member(cfg, other, true).key <==> about_other && j % 2 == 1
        &&& key != inactive(cfg, other, true, true, true).key
        &&& key != exec_stalled(cfg, 0, 0, true).key
        &&& key != usable_below_threshold(0, 0).key
    } by {
        lemma_failed_keys(cfg, look, failure, at, j, other);
    }
    lemma_entry_untouched(cfg, s.alerts, es, exec_stalled(cfg, 0, 0, true).key);
    lemma_entry_untouched(cfg, s.alerts, es, usable_below_threshold(0, 0).key);
    lemma_entry_untouched(cfg, s.alerts, es, inactive(cfg, other, true, true, true).key);
    lemma_last_evaluation_counts(cfg, s.alerts, es, 2 * k as int);
    if forall|j: int| 0 <= j < k ==> #[trigger] cfg.signers[j] != other {
        lemma_entry_untouched(cfg, s.alerts, es, low_balance(cfg, other, 0).key);
        lemma_entry_untouched(cfg, s.alerts, es, not_member(cfg, other, true).key);
        lemma_activity_of_others(cfg, s.activity, look.signers, k, other);
    }
}

/// A failed cycle has judged the funds and the membership of every signer that it was done with,
/// and noted its nonce; `i` is the last place of its address among those signers. If it is the only
/// one, what is remembered of that signer is exactly what these judgements make of it.
pub proof fn law_failed_cycle_counts_the_signers_done(
    cfg: Config,
    s: State,
    look: CycleLook,
    failure: Failure,
    at: Moment,
    i: int,
)
    requires
        fits(cfg, look),
        possible(cfg, failure),
        0 <= i < signers_done(cfg, failure),
        forall|j: int|
            i < j < signers_done(cfg, failure) ==> #[trigger] cfg.signers[j] != cfg.signers[i],
    ensures
        ({
            let end = after_failed_cycle(cfg, s, look, failure, at);
            let signer = cfg.signers[i];
            let seen = look.signers[i];
            let low = low_balance(cfg, signer, seen.balance@);
            let outside = not_member(cfg, signer, seen.is_member);
            let wait = cfg.alert_cooldown_secs;
            &&& active_keys(end.alerts).contains(low.key) <==> seen.balance@ < cfg.min_balance_wei
            &&& active_keys(end.alerts).contains(outside.key) <==> !seen.is_member
            &&& end.activity.dom().contains(signer)
            &&& end.activity[signer].last_nonce == seen.nonce
            &&& (forall|j: int| 0 <= j < i ==> #[trigger] cfg.signers[j] != signer) ==> {
                &&& lookup(end.alerts, low.key) == Some(
                    next_entry(lookup(s.alerts, low.key), low.firing, seen.at_nonce, wait),
                )
                &&& lookup(end.alerts, outside.key) == Some(
                    next_entry(
                        lookup(s.alerts, outside.key),
                        outside.firing,
                        seen.at_registered,
                        wait,
                    ),
                )
                &&& end.activity[signer] == with_nonce(
                    s.activity,
                    signer,
                    seen.nonce,
                    seen.at_noted,
                )[signer]
            }
        }),
{
    let k = signers_done(cfg, failure);
    let es = failed_evaluations(cfg, look, failure, at);
    let signer = cfg.signers[i];
    assert(es.len() == 2 * k + 1);
    assert((2 * i) % 2 == 0 && (2 * i) / 2 == i);
    assert((2 * i + 1) % 2 == 1 && (2 * i + 1) / 2 == i);
    assert(es[2 * i] == signer_evaluations(cfg, look.signers, k)[2 * i]);
    assert(es[2 * i + 1] == signer_evaluations(cfg, look.signers, k)[2 * i + 1]);
    assert forall|j: int| 0 <= j < es.len() implies {
        let key = (#[trigger] es[j]).condition.key;
        let about_signer = j < 2 * k && cfg.signers[j / 2] == signer;
        &&& key == es[2 * i].condition.key <==> about_signer && j % 2 == 0
        &&& key == es[2 * i + 1].condition.key <==> about_signer && j % 2 == 1
    } by {
        lemma_failed_keys(cfg, look, failure, at, j, signer);
    }
    lemma_last_evaluation_counts(cfg, s.alerts, es, 2 * i);
    lemma_last_evaluation_counts(cfg, s.alerts, es, 2 * i + 1);
    lemma_last_nonce_noted(cfg, s.activity, look.signers, k, i);
    if forall|j: int| 0 <= j < i ==> #[trigger] cfg.signers[j] != signer {
        lemma_entry_of_one_evaluation(cfg, s.alerts, es, 2 * i);
        lemma_entry_of_one_evaluation(cfg, s.alerts, es, 2 * i + 1);
        law_nonces_are_noted_apart(cfg, s.activity, look.signers, k, i);
    }
}

/// The nonce that is remembered of a signer is that of the last place of its address.
pub proof fn lemma_last_nonce_noted(
    cfg: Config,
    activity: Map<Address, SignerActivity>,
    looks: Seq<SignerLook>,
    n: nat,
    i: int,
)
    requires
        0 <= i < n <= cfg.signers.len(),
        forall|j: int| i < j < n ==> #[trigger] cfg.signers[j] != cfg.signers[i],
    ensures
        activity_after(cfg, activity, looks, n).dom().contains(cfg.signers[i]),
        activity_after(cfg, activity, looks, n)[cfg.signers[i]].last_nonce == looks[i].nonce,
    decreases n,
{
    if i < n - 1 {
        lemma_last_nonce_noted(cfg, activity, looks, (n - 1) as nat, i);
        assert(cfg.signers[n - 1] != cfg.signers[i]);
    }
}

} // verus!
