//! The monitor as a machine: it asks for one thing at a time (a reading, a message to send, a
//! pause) and is told how that went and what time it is.

use crate::address::Address;
use crate::alerts::{
    active_keys, lookup, message, next_entry, notice, AlertEntry, AlertManager,
};
use crate::clock::{elapsed, seconds, Moment};
use crate::conditions::{
    exec_stalled, exec_stalled_condition, inactive, inactive_condition, low_balance,
    low_balance_condition, monitor_rpc, monitor_rpc_condition, not_member, not_member_condition,
    usable_below_threshold, usable_below_threshold_condition, Condition, ConditionView, Reading,
};
use crate::settings::{Config, Settings};
use crate::table::{Table, TableKey};
use crate::text::{decimal, decimal_text};
use crate::word::U256;
use vstd::prelude::*;
use vstd::string::*;

verus! {

/// What is remembered of a signer to tell whether it is alive.
#[derive(Clone, Copy, Debug, PartialEq, Eq, Structural)]
pub struct SignerActivity {
    /// Its transaction count at the last look.
    pub last_nonce: U256,
    /// When that count was first seen.
    pub nonce_changed_at: Moment,
}

/// Where in its cycle the monitor stands.
#[derive(Clone, Copy, Debug, PartialEq, Eq, Structural)]
pub enum Stage {
    /// Between two cycles.
    Rest,
    /// The threshold is being read.
    Threshold,
    /// The balance of the current signer is being read.
    Balance,
    /// Its membership is being read.
    Membership { balance: U256 },
    /// Its nonce is being read.
    Nonce { balance: U256, is_member: bool },
    /// Its balance has been judged; next is its membership.
    Registered { is_member: bool, nonce: U256 },
    /// Its membership has been judged; next, its nonce is noted.
    Noted { nonce: U256 },
    /// The number of committed batches is being read.
    Committed,
    /// The number of executed batches is being read.
    Executed { committed: U256 },
    /// The liveness of signer `next` is to be judged, as of `at`, when `producing` told whether
    /// the chain commits batches, and `waiting` whether batches await execution. After the last
    /// signer, next is the number of usable ones.
    Liveness { next: usize, producing: bool, waiting: bool, at: Moment },
    /// Every reading of the cycle succeeded.
    Complete,
    /// The cycle is over; next is the heartbeat.
    Heartbeat,
    /// Next is the pause until the next cycle.
    Pause,
}

/// What the monitor is told.
#[derive(Clone, Copy, Debug, PartialEq, Eq, Structural)]
pub enum Event {
    /// What it asked for is done: the message was handed on, the pause is over, or it asked for
    /// nothing.
    Done,
    /// The number that it asked for.
    Number(U256),
    /// The truth value that it asked for.
    Flag(bool),
    /// What it asked for could not be read.
    Failed,
}

/// What the monitor asks for.
pub enum Action {
    /// Read this from the chain.
    Read(Reading),
    /// Hand this message to the channels.
    Send(String),
    /// Nothing; go on.
    Proceed,
    /// Pause for this many seconds.
    Sleep(u64),
}

/// What an `Action` asks for.
pub enum ActionView {
    Read(Reading),
    Send(Seq<char>),
    Proceed,
    Sleep(u64),
}

impl View for Action {
    type V = ActionView;

    open spec fn view(&self) -> ActionView {
        match self {
            Action::Read(reading) => ActionView::Read(*reading),
            Action::Send(text) => ActionView::Send(text@),
            Action::Proceed => ActionView::Proceed,
            Action::Sleep(secs) => ActionView::Sleep(*secs),
        }
    }
}

/// What the monitor remembers.
pub struct State {
    /// Where in its cycle it stands.
    pub stage: Stage,
    /// The threshold read in this cycle.
    pub threshold: nat,
    /// How many of the signers looked at in this cycle are funded and registered.
    pub usable: nat,
    /// The signer that is being looked at.
    pub index: nat,
    /// The alert state of each condition.
    pub alerts: Map<Seq<char>, AlertEntry>,
    /// The activity of each signer seen so far.
    pub activity: Map<Address, SignerActivity>,
    /// The number of executed batches at the last look, and when it was first seen.
    pub last_executed: Option<U256>,
    pub executed_changed_at: Moment,
    /// The number of committed batches at the last look, and when it was first seen.
    pub last_committed: Option<U256>,
    pub committed_changed_at: Moment,
    /// When the last heartbeat was sent, or the monitor was started.
    pub last_heartbeat: Moment,
}

/// A monitor that is started at `now`.
pub open spec fn initial(now: Moment) -> State {
    State {
        stage: Stage::Rest,
        threshold: 0,
        usable: 0,
        index: 0,
        alerts: Map::empty(),
        activity: Map::empty(),
        last_executed: None,
        executed_changed_at: now,
        last_committed: None,
        committed_changed_at: now,
        last_heartbeat: now,
    }
}

/// The state once the condition `c` has been evaluated.
pub open spec fn evaluated(cfg: Config, s: State, c: ConditionView, now: Moment) -> State {
    State {
        alerts: s.alerts.insert(
            c.key,
            next_entry(lookup(s.alerts, c.key), c.firing, now, cfg.alert_cooldown_secs),
        ),
        ..s
    }
}

/// What is to be done about the condition `c`: its message, if it has one, is sent.
pub open spec fn spoken(cfg: Config, s: State, c: ConditionView, now: Moment) -> ActionView {
    match message(
        notice(lookup(s.alerts, c.key), c.firing, now, cfg.alert_cooldown_secs),
        cfg.network,
        c.fire_msg,
        c.resolve_msg,
    ) {
        Some(text) => ActionView::Send(text),
        None => ActionView::Proceed,
    }
}

/// The signer that is being looked at.
pub open spec fn current(cfg: Config, s: State) -> Address {
    cfg.signers[s.index as int]
}

/// Whether a signer counts towards the threshold.
pub open spec fn is_usable(cfg: Config, balance: nat, is_member: bool) -> bool {
    balance >= cfg.min_balance_wei && is_member
}

/// The activity of a signer whose nonce is `nonce` at `now`: the time of the change is kept as
/// long as the nonce is the same.
pub open spec fn with_nonce(
    activity: Map<Address, SignerActivity>,
    signer: Address,
    nonce: U256,
    now: Moment,
) -> Map<Address, SignerActivity> {
    if activity.dom().contains(signer) && activity[signer].last_nonce == nonce {
        activity
    } else {
        activity.insert(signer, SignerActivity { last_nonce: nonce, nonce_changed_at: now })
    }
}

/// The state once the batch counters have been seen at `now`: the time of a change is kept as
/// long as the counter is the same.
pub open spec fn progressed(s: State, committed: U256, executed: U256, now: Moment) -> State {
    State {
        last_executed: Some(executed),
        executed_changed_at: if s.last_executed == Some(executed) {
            s.executed_changed_at
        } else {
            now
        },
        last_committed: Some(committed),
        committed_changed_at: if s.last_committed == Some(committed) {
            s.committed_changed_at
        } else {
            now
        },
        ..s
    }
}

/// Whether execution has stood still for too long.
pub open spec fn execution_still(cfg: Config, s: State, now: Moment) -> bool {
    elapsed(now, s.executed_changed_at) >= seconds(cfg.stall_secs)
}

/// Whether the chain has committed a batch lately.
pub open spec fn chain_producing(cfg: Config, s: State, now: Moment) -> bool {
    elapsed(now, s.committed_changed_at) <= seconds(cfg.stall_secs)
}

/// Whether a signer has sent nothing for too long.
pub open spec fn is_idle(cfg: Config, a: SignerActivity, now: Moment) -> bool {
    elapsed(now, a.nonce_changed_at) >= seconds(cfg.stall_secs)
}

/// Whether a heartbeat is due.
pub open spec fn heartbeat_due(cfg: Config, s: State, now: Moment) -> bool {
    cfg.heartbeat_secs > 0 && elapsed(now, s.last_heartbeat) >= seconds(cfg.heartbeat_secs)
}

/// The heartbeat message.
pub open spec fn heartbeat_text(cfg: Config, s: State) -> Seq<char> {
    let active = active_keys(s.alerts).len();
    if active == 0 {
        "💚 ["@ + cfg.network + "] heartbeat: all "@ + decimal(cfg.signers.len())
            + " signers healthy"@
    } else {
        "⚠️ ["@ + cfg.network + "] heartbeat: "@ + decimal(active) + " active alert(s)"@
    }
}

/// The reading that the monitor is waiting for.
pub open spec fn awaited(cfg: Config, s: State) -> Option<Reading> {
    match s.stage {
        Stage::Threshold => Some(Reading::Threshold),
        Stage::Balance => Some(Reading::Balance(current(cfg, s))),
        Stage::Membership { .. } => Some(Reading::Membership(current(cfg, s))),
        Stage::Nonce { .. } => Some(Reading::Nonce(current(cfg, s))),
        Stage::Committed => Some(Reading::Committed),
        Stage::Executed { .. } => Some(Reading::Executed),
        _ => None,
    }
}

/// Asks for the reading of the stage that `s` stands in.
pub open spec fn asking(cfg: Config, s: State) -> (State, ActionView) {
    (s, ActionView::Read(awaited(cfg, s).unwrap()))
}

/// Turns to the signer at `index`, or to the batch counters after the last one.
pub open spec fn turning(cfg: Config, s: State) -> (State, ActionView) {
    if s.index < cfg.signers.len() {
        asking(cfg, State { stage: Stage::Balance, ..s })
    } else {
        asking(cfg, State { stage: Stage::Committed, ..s })
    }
}

/// Evaluates the condition `c`, and goes on to `stage`.
pub open spec fn judging(
    cfg: Config,
    s: State,
    c: ConditionView,
    now: Moment,
    stage: Stage,
) -> (State, ActionView) {
    (State { stage, ..evaluated(cfg, s, c, now) }, spoken(cfg, s, c, now))
}

/// What the monitor in state `s` does next when it is told `event` at `now`; nothing if the event
/// is no answer to what it last asked for.
pub open spec fn transition(
    cfg: Config,
    s: State,
    event: Event,
    now: Moment,
) -> Option<(State, ActionView)> {
    match (s.stage, event) {
        (Stage::Rest, Event::Done) => Some(asking(cfg, State { stage: Stage::Threshold, ..s })),
        (Stage::Threshold, Event::Number(n)) => Some(
            turning(cfg, State { threshold: n@, usable: 0, index: 0, ..s }),
        ),
        (Stage::Balance, Event::Number(n)) => Some(
            asking(cfg, State { stage: Stage::Membership { balance: n }, ..s }),
        ),
        (Stage::Membership { balance }, Event::Flag(is_member)) => Some(
            asking(cfg, State { stage: Stage::Nonce { balance, is_member }, ..s }),
        ),
        (Stage::Nonce { balance, is_member }, Event::Number(nonce)) => Some(
            judging(
                cfg,
                State {
                    usable: s.usable + if is_usable(cfg, balance@, is_member) {
                        1nat
                    } else {
                        0nat
                    },
                    ..s
                },
                low_balance(cfg, current(cfg, s), balance@),
                now,
                Stage::Registered { is_member, nonce },
            ),
        ),
        (Stage::Registered { is_member, nonce }, Event::Done) => Some(
            judging(
                cfg,
                s,
                not_member(cfg, current(cfg, s), is_member),
                now,
                Stage::Noted { nonce },
            ),
        ),
        (Stage::Noted { nonce }, Event::Done) => Some(
            turning(
                cfg,
                State {
                    activity: with_nonce(s.activity, current(cfg, s), nonce, now),
                    index: s.index + 1,
                    ..s
                },
            ),
        ),
        (Stage::Committed, Event::Number(n)) => Some(
            asking(cfg, State { stage: Stage::Executed { committed: n }, ..s }),
        ),
        (Stage::Executed { committed }, Event::Number(executed)) => {
            let seen = progressed(s, committed, executed, now);
            Some(
                judging(
                    cfg,
                    seen,
                    exec_stalled(
                        cfg,
                        committed@,
                        executed@,
                        execution_still(cfg, seen, now),
                    ),
                    now,
                    Stage::Liveness {
                        next: 0,
                        producing: chain_producing(cfg, seen, now),
                        waiting: committed@ > executed@,
                        at: now,
                    },
                ),
            )
        },
        (Stage::Liveness { next, producing, waiting, at }, Event::Done) => if next
            < cfg.signers.len() {
            let signer = cfg.signers[next as int];
            let stage = Stage::Liveness { next: (next + 1) as usize, producing, waiting, at };
            if (producing || waiting) && !s.activity.dom().contains(signer) {
                Some((State { stage, ..s }, ActionView::Proceed))
            } else {
                Some(
                    judging(
                        cfg,
                        s,
                        inactive(
                            cfg,
                            signer,
                            producing,
                            waiting,
                            is_idle(cfg, s.activity[signer], at),
                        ),
                        now,
                        stage,
                    ),
                )
            }
        } else {
            Some(
                judging(
                    cfg,
                    s,
                    usable_below_threshold(s.usable, s.threshold),
                    now,
                    Stage::Complete,
                ),
            )
        },
        (Stage::Complete, Event::Done) => Some(
            judging(cfg, s, monitor_rpc(None), now, Stage::Heartbeat),
        ),
        (_, Event::Failed) => match awaited(cfg, s) {
            Some(reading) => Some(
                judging(cfg, s, monitor_rpc(Some(reading)), now, Stage::Heartbeat),
            ),
            None => None,
        },
        (Stage::Heartbeat, Event::Done) => if heartbeat_due(cfg, s, now) {
            Some(
                (
                    State { stage: Stage::Pause, last_heartbeat: now, ..s },
                    ActionView::Send(heartbeat_text(cfg, s)),
                ),
            )
        } else {
            Some((State { stage: Stage::Pause, ..s }, ActionView::Proceed))
        },
        (Stage::Pause, Event::Done) => Some(
            (State { stage: Stage::Rest, ..s }, ActionView::Sleep(cfg.poll_interval_secs)),
        ),
        _ => None,
    }
}

/// What holds of every state that a monitor reaches: the signer it looks at is one of its signers,
/// and it never counts more usable signers than it has looked at.
pub open spec fn sound(cfg: Config, s: State) -> bool {
    &&& s.index <= cfg.signers.len()
    &&& s.usable <= cfg.signers.len()
    &&& match s.stage {
        Stage::Balance | Stage::Membership { .. } | Stage::Nonce { .. } => s.usable <= s.index
            < cfg.signers.len(),
        Stage::Registered { .. } | Stage::Noted { .. } => s.usable <= s.index + 1 && s.index
            < cfg.signers.len(),
        Stage::Liveness { next, .. } => next <= cfg.signers.len(),
        _ => true,
    }
}

/// Watches the signers and the network, and says what is wrong with them.
pub struct Monitor {
    settings: Settings,
    alerts: AlertManager,
    activity: Table<Address, SignerActivity>,
    last_executed: Option<U256>,
    executed_changed_at: Moment,
    last_committed: Option<U256>,
    committed_changed_at: Moment,
    last_heartbeat: Moment,
    stage: Stage,
    threshold: U256,
    usable: u64,
    index: usize,
}

impl View for Monitor {
    type V = State;

    closed spec fn view(&self) -> State {
        State {
            stage: self.stage,
            threshold: self.threshold@,
            usable: self.usable as nat,
            index: self.index as nat,
            alerts: self.alerts.states(),
            activity: self.activity@,
            last_executed: self.last_executed,
            executed_changed_at: self.executed_changed_at,
            last_committed: self.last_committed,
            committed_changed_at: self.committed_changed_at,
            last_heartbeat: self.last_heartbeat,
        }
    }
}

impl Monitor {
    /// What it was configured with.
    pub closed spec fn config(&self) -> Config {
        self.settings@
    }

    /// Its tables hold no key twice, its alerts go by its settings, and its state is sound.
    pub closed spec fn wf(&self) -> bool {
        &&& self.settings.wf()
        &&& self.alerts.wf()
        &&& self.alerts.network() == self.settings@.network
        &&& self.alerts.cooldown_secs() == self.settings@.alert_cooldown_secs
        &&& self.activity.wf()
        &&& sound(self.settings@, self@)
    }

    /// A monitor that is started at `now`.
    pub fn new(settings: Settings, now: Moment) -> (res: Monitor)
        requires
            settings.wf(),
        ensures
            res.wf(),
            res.config() == settings@,
            res@ == initial(now),
    {
        let alerts = AlertManager::new(settings.network_name.clone(), settings.alert_cooldown_secs);
        Monitor {
            settings,
            alerts,
            activity: Table::new(),
            last_executed: None,
            executed_changed_at: now,
            last_committed: None,
            committed_changed_at: now,
            last_heartbeat: now,
            stage: Stage::Rest,
            threshold: U256(0, 0, 0, 0),
            usable: 0,
            index: 0,
        }
    }

    /// Evaluates the condition `c`, and goes on to `stage`.
    fn judge(&mut self, c: Condition, now: Moment, stage: Stage) -> (res: Action)
        requires
            old(self).alerts.wf(),
            old(self).alerts.network() == old(self).settings@.network,
            old(self).alerts.cooldown_secs() == old(self).settings@.alert_cooldown_secs,
        ensures
            final(self).settings == old(self).settings,
            final(self).activity == old(self).activity,
            final(self).alerts.wf(),
            final(self).alerts.network() == old(self).alerts.network(),
            final(self).alerts.cooldown_secs() == old(self).alerts.cooldown_secs(),
            (final(self)@, res@) == judging(old(self).settings@, old(self)@, c@, now, stage),
    {
        self.stage = stage;
        let said = self.alerts.evaluate(
            c.key.as_str(),
            c.firing,
            c.fire_msg.as_str(),
            c.resolve_msg.as_str(),
            now,
        );
        match said {
            Some(text) => Action::Send(text),
            None => Action::Proceed,
        }
    }

    /// The reading that the monitor is waiting for.
    fn awaited_reading(&self) -> (res: Option<Reading>)
        requires
            self.wf(),
        ensures
            res == awaited(self.settings@, self@),
    {
        match self.stage {
            Stage::Threshold => Some(Reading::Threshold),
            Stage::Balance => Some(Reading::Balance(self.settings.signers[self.index])),
            Stage::Membership { .. } => Some(Reading::Membership(self.settings.signers[self.index])),
            Stage::Nonce { .. } => Some(Reading::Nonce(self.settings.signers[self.index])),
            Stage::Committed => Some(Reading::Committed),
            Stage::Executed { .. } => Some(Reading::Executed),
            _ => None,
        }
    }

    /// Turns to the signer at `index`, or to the batch counters after the last one.
    fn turn(&mut self) -> (res: Action)
        requires
            old(self).index <= old(self).settings.signers@.len(),
        ensures
            final(self).settings == old(self).settings,
            final(self).activity == old(self).activity,
            final(self).alerts == old(self).alerts,
            (final(self)@, res@) == turning(old(self).settings@, old(self)@),
    {
        if self.index < self.settings.signers.len() {
            self.stage = Stage::Balance;
            Action::Read(Reading::Balance(self.settings.signers[self.index]))
        } else {
            self.stage = Stage::Committed;
            Action::Read(Reading::Committed)
        }
    }

    /// Notes that `signer` had sent `nonce` transactions at `now`.
    fn note_nonce(&mut self, signer: Address, nonce: U256, now: Moment)
        requires
            old(self).activity.wf(),
        ensures
            final(self).activity.wf(),
            final(self).settings == old(self).settings,
            final(self).alerts == old(self).alerts,
            final(self)@ == (State {
                activity: with_nonce(old(self)@.activity, signer, nonce, now),
                ..old(self)@
            }),
    {
        let changed = match self.activity.get(&signer) {
            Some(act) => nonce != act.last_nonce,
            None => true,
        };
        if changed {
            self.activity.insert(
                signer,
                SignerActivity { last_nonce: nonce, nonce_changed_at: now },
            );
        }
    }

    /// Notes the batch counters as they were at `now`.
    fn note_progress(&mut self, committed: U256, executed: U256, now: Moment)
        ensures
            final(self).settings == old(self).settings,
            final(self).alerts == old(self).alerts,
            final(self).activity == old(self).activity,
            final(self)@ == progressed(old(self)@, committed, executed, now),
    {
        let executed_same = match self.last_executed {
            Some(n) => n == executed,
            None => false,
        };
        if !executed_same {
            self.last_executed = Some(executed);
            self.executed_changed_at = now;
        }
        let committed_same = match self.last_committed {
            Some(n) => n == committed,
            None => false,
        };
        if !committed_same {
            self.last_committed = Some(committed);
            self.committed_changed_at = now;
        }
    }

    /// The heartbeat message.
    fn heartbeat(&self) -> (res: String)
        requires
            self.wf(),
        ensures
            res@ == heartbeat_text(self.settings@, self@),
    {
        let active: usize = self.alerts.active_count();
        let network = self.settings.network_name.as_str();
        if active == 0 {
            "💚 [".to_owned().concat(network).concat("] heartbeat: all ").concat(
                decimal_text(self.settings.signers.len() as u64).as_str(),
            ).concat(" signers healthy")
        } else {
            "⚠️ [".to_owned().concat(network).concat("] heartbeat: ").concat(
                decimal_text(active as u64).as_str(),
            ).concat(" active alert(s)")
        }
    }

    /// Judges the liveness of signer `next`, or, after the last one, whether the usable signers
    /// reach the threshold.
    fn judge_network(
        &mut self,
        next: usize,
        producing: bool,
        waiting: bool,
        at: Moment,
        now: Moment,
    ) -> (res: Action)
        requires
            old(self).wf(),
            old(self)@.stage == (Stage::Liveness { next, producing, waiting, at }),
        ensures
            final(self).wf(),
            final(self).config() == old(self).config(),
            transition(old(self).config(), old(self)@, Event::Done, now) == Some(
                (final(self)@, res@),
            ),
    {
        if next < self.settings.signers.len() {
            let signer = self.settings.signers[next];
            let stage = Stage::Liveness { next: next + 1, producing, waiting, at };
            if producing || waiting {
                match self.activity.get(&signer) {
                    Some(act) => {
                        let idle = at.at_least_since(
                            &act.nonce_changed_at,
                            self.settings.stall_secs,
                        );
                        let c = inactive_condition(
                            &self.settings,
                            &signer,
                            producing,
                            waiting,
                            idle,
                        );
                        self.judge(c, now, stage)
                    },
                    None => {
                        self.stage = stage;
                        Action::Proceed
                    },
                }
            } else {
                let c = inactive_condition(&self.settings, &signer, false, false, false);
                self.judge(c, now, stage)
            }
        } else {
            let c = usable_below_threshold_condition(self.usable, &self.threshold);
            self.judge(c, now, Stage::Complete)
        }
    }

    /// Judges the balance of the current signer, all of whose readings are there.
    fn judge_balance(&mut self, balance: U256, is_member: bool, nonce: U256, now: Moment) -> (res: Action)
        requires
            old(self).wf(),
            old(self)@.stage == (Stage::Nonce { balance, is_member }),
        ensures
            final(self).wf(),
            final(self).config() == old(self).config(),
            transition(old(self).config(), old(self)@, Event::Number(nonce), now) == Some(
                (final(self)@, res@),
            ),
    {
        assert(self.usable <= self.index < self.settings.signers.len());
        let balance_ok = !balance.less_than(&self.settings.min_balance_wei);
        if balance_ok && is_member {
            self.usable = self.usable + 1;
        }
        let signer = self.settings.signers[self.index];
        let c = low_balance_condition(&self.settings, &signer, &balance);
        self.judge(c, now, Stage::Registered { is_member, nonce })
    }

    /// Judges the membership of the current signer.
    fn judge_membership(&mut self, is_member: bool, nonce: U256, now: Moment) -> (res: Action)
        requires
            old(self).wf(),
            old(self)@.stage == (Stage::Registered { is_member, nonce }),
        ensures
            final(self).wf(),
            final(self).config() == old(self).config(),
            transition(old(self).config(), old(self)@, Event::Done, now) == Some(
                (final(self)@, res@),
            ),
    {
        let signer = self.settings.signers[self.index];
        let c = not_member_condition(&self.settings, &signer, is_member);
        self.judge(c, now, Stage::Noted { nonce })
    }

    /// Notes the nonce of the current signer and turns to the next one.
    fn finish_signer(&mut self, nonce: U256, now: Moment) -> (res: Action)
        requires
            old(self).wf(),
            old(self)@.stage == (Stage::Noted { nonce }),
        ensures
            final(self).wf(),
            final(self).config() == old(self).config(),
            transition(old(self).config(), old(self)@, Event::Done, now) == Some(
                (final(self)@, res@),
            ),
    {
        let signer = self.settings.signers[self.index];
        self.note_nonce(signer, nonce, now);
        assert(self.index < self.settings.signers.len());
        self.index = self.index + 1;
        self.turn()
    }

    /// Notes the batch counters and judges whether execution stands still.
    fn judge_progress(&mut self, committed: U256, executed: U256, now: Moment) -> (res: Action)
        requires
            old(self).wf(),
            old(self)@.stage == (Stage::Executed { committed }),
        ensures
            final(self).wf(),
            final(self).config() == old(self).config(),
            transition(old(self).config(), old(self)@, Event::Number(executed), now) == Some(
                (final(self)@, res@),
            ),
    {
        self.note_progress(committed, executed, now);
        let still = now.at_least_since(&self.executed_changed_at, self.settings.stall_secs);
        let producing = now.at_most_since(&self.committed_changed_at, self.settings.stall_secs);
        let waiting = executed.less_than(&committed);
        let c = exec_stalled_condition(&self.settings, &committed, &executed, still);
        self.judge(c, now, Stage::Liveness { next: 0, producing, waiting, at: now })
    }

    /// Sends a heartbeat if one is due.
    fn beat(&mut self, now: Moment) -> (res: Action)
        requires
            old(self).wf(),
            old(self)@.stage == Stage::Heartbeat,
        ensures
            final(self).wf(),
            final(self).config() == old(self).config(),
            transition(old(self).config(), old(self)@, Event::Done, now) == Some(
                (final(self)@, res@),
            ),
    {
        let due = self.settings.heartbeat_secs > 0 && now.at_least_since(
            &self.last_heartbeat,
            self.settings.heartbeat_secs,
        );
        let text = if due {
            Some(self.heartbeat())
        } else {
            None
        };
        self.stage = Stage::Pause;
        match text {
            Some(text) => {
                self.last_heartbeat = now;
                Action::Send(text)
            },
            None => Action::Proceed,
        }
    }

    /// Ends the cycle because the reading that it waits for failed.
    fn fail(&mut self, now: Moment) -> (res: Option<Action>)
        requires
            old(self).wf(),
        ensures
            final(self).wf(),
            final(self).config() == old(self).config(),
            match transition(old(self).config(), old(self)@, Event::Failed, now) {
                Some((state, action)) => final(self)@ == state && res is Some && res->0@ == action,
                None => final(self)@ == old(self)@ && res is None,
            },
    {
        match self.awaited_reading() {
            Some(reading) => {
                let c = monitor_rpc_condition(Some(reading));
                Some(self.judge(c, now, Stage::Heartbeat))
            },
            None => None,
        }
    }

    /// Goes on after `event`, at `now`. An event that is no answer to what was last asked for
    /// changes nothing and asks for nothing.
    pub fn step(&mut self, event: Event, now: Moment) -> (res: Option<Action>)
        requires
            old(self).wf(),
        ensures
            final(self).wf(),
            final(self).config() == old(self).config(),
            match transition(old(self).config(), old(self)@, event, now) {
                Some((state, action)) => final(self)@ == state && res is Some && res->0@ == action,
                None => final(self)@ == old(self)@ && res is None,
            },
    {
        match (self.stage, event) {
            (_, Event::Failed) => self.fail(now),
            (Stage::Rest, Event::Done) => {
                self.stage = Stage::Threshold;
                Some(Action::Read(Reading::Threshold))
            },
            (Stage::Threshold, Event::Number(n)) => {
                self.threshold = n;
                self.usable = 0;
                self.index = 0;
                Some(self.turn())
            },
            (Stage::Balance, Event::Number(n)) => {
                self.stage = Stage::Membership { balance: n };
                Some(Action::Read(Reading::Membership(self.settings.signers[self.index])))
            },
            (Stage::Membership { balance }, Event::Flag(is_member)) => {
                self.stage = Stage::Nonce { balance, is_member };
                Some(Action::Read(Reading::Nonce(self.settings.signers[self.index])))
            },
            (Stage::Nonce { balance, is_member }, Event::Number(nonce)) => Some(
                self.judge_balance(balance, is_member, nonce, now),
            ),
            (Stage::Registered { is_member, nonce }, Event::Done) => Some(
                self.judge_membership(is_member, nonce, now),
            ),
            (Stage::Noted { nonce }, Event::Done) => Some(self.finish_signer(nonce, now)),
            (Stage::Committed, Event::Number(n)) => {
                self.stage = Stage::Executed { committed: n };
                Some(Action::Read(Reading::Executed))
            },
            (Stage::Executed { committed }, Event::Number(executed)) => Some(
                self.judge_progress(committed, executed, now),
            ),
            (Stage::Liveness { next, producing, waiting, at }, Event::Done) => Some(
                self.judge_network(next, producing, waiting, at, now),
            ),
            (Stage::Complete, Event::Done) => {
                let c = monitor_rpc_condition(None);
                Some(self.judge(c, now, Stage::Heartbeat))
            },
            (Stage::Heartbeat, Event::Done) => Some(self.beat(now)),
            (Stage::Pause, Event::Done) => {
                self.stage = Stage::Rest;
                Some(Action::Sleep(self.settings.poll_interval_secs))
            },
            _ => None,
        }
    }

    /// Whether every reading of the cycle has succeeded and every condition but that of the
    /// readings themselves has been judged.
    pub fn is_complete(&self) -> (res: bool)
        ensures
            res == (self@.stage == Stage::Complete),
    {
        match self.stage {
            Stage::Complete => true,
            _ => false,
        }
    }

    /// How many of the signers looked at in this cycle are funded and registered.
    pub fn usable(&self) -> (res: u64)
        ensures
            res == self@.usable,
    {
        self.usable
    }
}

} // verus!
