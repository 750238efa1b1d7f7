//! Alert state per condition: an alert fires when its condition starts to hold, is repeated on a
//! cooldown while it holds, and is announced as resolved when it no longer holds.

use crate::clock::{elapsed, seconds, Moment};
use crate::table::{Table, TableKey};
use vstd::prelude::*;
use vstd::string::*;

verus! {

/// What is remembered of one condition.
#[derive(Clone, Copy, Debug, PartialEq, Eq, Structural)]
pub struct AlertEntry {
    /// Whether the condition held when it was last evaluated.
    pub active: bool,
    /// When its alert was last fired or repeated.
    pub last_notified: Moment,
}

/// What one evaluation has to say.
pub enum Notice {
    /// Nothing.
    Silent,
    /// The condition has started to hold.
    Fired,
    /// The condition still holds, and the cooldown is over.
    Repeated,
    /// The condition has ceased to hold.
    Resolved,
}

/// The entry of a condition at `now`: what is remembered of it, or a fresh inactive one.
pub open spec fn entry_or_new(entry: Option<AlertEntry>, now: Moment) -> AlertEntry {
    match entry {
        Some(e) => e,
        None => AlertEntry { active: false, last_notified: now },
    }
}

/// What evaluating a condition at `now` has to say.
pub open spec fn notice(
    entry: Option<AlertEntry>,
    firing: bool,
    now: Moment,
    cooldown_secs: u64,
) -> Notice {
    let e = entry_or_new(entry, now);
    if firing && !e.active {
        Notice::Fired
    } else if firing && elapsed(now, e.last_notified) >= seconds(cooldown_secs) {
        Notice::Repeated
    } else if !firing && e.active {
        Notice::Resolved
    } else {
        Notice::Silent
    }
}

/// What is remembered of a condition once it has been evaluated at `now`: it is active if it held,
/// and was last notified of now if its alert was fired or repeated.
pub open spec fn next_entry(
    entry: Option<AlertEntry>,
    firing: bool,
    now: Moment,
    cooldown_secs: u64,
) -> AlertEntry {
    AlertEntry {
        active: firing,
        last_notified: match notice(entry, firing, now, cooldown_secs) {
            Notice::Fired | Notice::Repeated => now,
            _ => entry_or_new(entry, now).last_notified,
        },
    }
}

/// The message for a notice about the network `network`.
pub open spec fn message(
    notice: Notice,
    network: Seq<char>,
    fire_msg: Seq<char>,
    resolve_msg: Seq<char>,
) -> Option<Seq<char>> {
    match notice {
        Notice::Silent => None,
        Notice::Fired => Some("🔴 ["@ + network + "] "@ + fire_msg),
        Notice::Repeated => Some("🔴 ["@ + network + "] (still firing) "@ + fire_msg),
        Notice::Resolved => Some("✅ ["@ + network + "] RESOLVED: "@ + resolve_msg),
    }
}

/// The entry under `key`, if there is one.
pub open spec fn lookup(states: Map<Seq<char>, AlertEntry>, key: Seq<char>) -> Option<AlertEntry> {
    if states.dom().contains(key) {
        Some(states[key])
    } else {
        None
    }
}

/// The keys of the conditions that held when they were last evaluated.
pub open spec fn active_keys(states: Map<Seq<char>, AlertEntry>) -> Set<Seq<char>> {
    states.dom().filter(|key: Seq<char>| states[key].active)
}

/// The view of an optional text.
pub open spec fn text_view(s: Option<String>) -> Option<Seq<char>> {
    match s {
        Some(t) => Some(t@),
        None => None,
    }
}

/// The alert state of every condition evaluated so far.
pub struct AlertManager {
    network: String,
    cooldown_secs: u64,
    states: Table<String, AlertEntry>,
}

impl AlertManager {
    /// No condition has two entries.
    pub closed spec fn wf(&self) -> bool {
        self.states.wf()
    }

    /// The name of the network, which every message carries.
    pub closed spec fn network(&self) -> Seq<char> {
        self.network@
    }

    /// The least time between two messages about a condition that goes on holding.
    pub closed spec fn cooldown_secs(&self) -> u64 {
        self.cooldown_secs
    }

    /// What is remembered, by key.
    pub closed spec fn states(&self) -> Map<Seq<char>, AlertEntry> {
        self.states@
    }

    /// A manager that remembers nothing yet.
    pub fn new(network: String, cooldown_secs: u64) -> (res: AlertManager)
        ensures
            res.wf(),
            res.network() == network@,
            res.cooldown_secs() == cooldown_secs,
            res.states() == Map::<Seq<char>, AlertEntry>::empty(),
    {
        AlertManager { network, cooldown_secs, states: Table::new() }
    }

    /// Evaluates one condition and gives the message to send, if any. `key` is stable per
    /// condition, such as `low_balance:0x..`.
    pub fn evaluate(
        &mut self,
        key: &str,
        firing: bool,
        fire_msg: &str,
        resolve_msg: &str,
        now: Moment,
    ) -> (res: Option<String>)
        requires
            old(self).wf(),
        ensures
            final(self).wf(),
            final(self).network() == old(self).network(),
            final(self).cooldown_secs() == old(self).cooldown_secs(),
            final(self).states() == old(self).states().insert(
                key@,
                next_entry(
                    lookup(old(self).states(), key@),
                    firing,
                    now,
                    old(self).cooldown_secs(),
                ),
            ),
            res is Some <==> text_view(res) is Some,
            res is Some ==> text_view(res) == Some(res->0@),
            text_view(res) == message(
                notice(
                    lookup(old(self).states(), key@),
                    firing,
                    now,
                    old(self).cooldown_secs(),
                ),
                old(self).network(),
                fire_msg@,
                resolve_msg@,
            ),
    {
        let key = key.to_owned();
        let entry: AlertEntry = match self.states.get(&key) {
            Some(e) => *e,
            None => AlertEntry { active: false, last_notified: now },
        };
        if firing {
            if !entry.active {
                self.states.insert(key, AlertEntry { active: true, last_notified: now });
                Some(self.headed("🔴 [", "] ", fire_msg))
            } else if now.at_least_since(&entry.last_notified, self.cooldown_secs) {
                self.states.insert(key, AlertEntry { active: true, last_notified: now });
                Some(self.headed("🔴 [", "] (still firing) ", fire_msg))
            } else {
                self.states.insert(key, entry);
                None
            }
        } else {
            self.states.insert(
                key,
                AlertEntry { active: false, last_notified: entry.last_notified },
            );
            if entry.active {
                Some(self.headed("✅ [", "] RESOLVED: ", resolve_msg))
            } else {
                None
            }
        }
    }

    fn headed(&self, before: &str, after: &str, msg: &str) -> (res: String)
        ensures
            res@ == before@ + self.network() + after@ + msg@,
    {
        before.to_owned().concat(self.network.as_str()).concat(after).concat(msg)
    }

    /// How many conditions held when they were last evaluated.
    pub fn active_count(&self) -> (res: usize)
        requires
            self.wf(),
        ensures
            active_keys(self.states()).finite(),
            res == active_keys(self.states()).len(),
    {
        let n: usize = self.states.len();
        let mut i: usize = 0;
        let mut count: usize = 0;
        let ghost keys = self.states.keys();
        let ghost held = |key: Seq<char>| self.states()[key].active;
        proof {
            self.states.lemma_keys();
            assert(keys.take(0).to_set().filter(held) =~= Set::<Seq<char>>::empty());
        }
        while i < n
            invariant
                self.wf(),
                n == keys.len(),
                keys == self.states.keys(),
                keys.no_duplicates(),
                held == (|key: Seq<char>| self.states()[key].active),
                i <= n,
                count <= i,
                keys.take(i as int).to_set().filter(held).finite(),
                count == keys.take(i as int).to_set().filter(held).len(),
            decreases n - i,
        {
            proof {
                let key = keys[i as int];
                let before = keys.take(i as int).to_set().filter(held);
                let after = keys.take(i + 1).to_set().filter(held);
                assert(keys.take(i + 1) =~= keys.take(i as int).push(key));
                assert(!keys.take(i as int).contains(key));
                assert forall|k: Seq<char>| #[trigger]
                    keys.take(i + 1).contains(k) == (keys.take(i as int).contains(k) || k == key) by {
                    if keys.take(i as int).contains(k) {
                        let j = keys.take(i as int).index_of(k);
                        assert(keys.take(i + 1)[j] == k);
                    }
                    assert(keys.take(i + 1)[i as int] == key);
                }
                if held(key) {
                    assert(after =~= before.insert(key));
                } else {
                    assert(after =~= before);
                }
            }
            if self.states.value_at(i).active {
                count = count + 1;
            }
            i = i + 1;
        }
        proof {
            assert(keys.take(n as int) =~= keys);
            assert(active_keys(self.states()) =~= keys.to_set().filter(held));
        }
        count
    }
}

/// One evaluation in terms of what was remembered: an alert that was not active fires if its
/// condition holds; one that was active is repeated once the cooldown has gone by, in nanoseconds,
/// since it was last spoken of; one whose condition no longer holds is resolved; and nothing is said
/// otherwise. The texts carry the name of the network and the words given.
pub proof fn law_one_evaluation(
    entry: Option<AlertEntry>,
    firing: bool,
    now: Moment,
    cooldown_secs: u64,
    network: Seq<char>,
    fire_msg: Seq<char>,
    resolve_msg: Seq<char>,
)
    ensures
        ({
            let said = message(
                notice(entry, firing, now, cooldown_secs),
                network,
                fire_msg,
                resolve_msg,
            );
            let after = next_entry(entry, firing, now, cooldown_secs);
            let was = entry is Some && (entry->0).active;
            let due = now.nanos - (entry->0).last_notified.nanos >= cooldown_secs * 1_000_000_000
                || cooldown_secs == 0;
            &&& said == (if firing && !was {
                Some("🔴 ["@ + network + "] "@ + fire_msg)
            } else if firing && due {
                Some("🔴 ["@ + network + "] (still firing) "@ + fire_msg)
            } else if !firing && was {
                Some("✅ ["@ + network + "] RESOLVED: "@ + resolve_msg)
            } else {
                None
            })
            &&& after.active == firing
            &&& after.last_notified == (if entry is None || (firing && (!was || due)) {
                now
            } else {
                (entry->0).last_notified
            })
        }),
{
}

/// What is remembered under a key is what stands there, and the active keys are those whose
/// condition held when it was last evaluated.
pub proof fn law_what_is_remembered(states: Map<Seq<char>, AlertEntry>, key: Seq<char>)
    ensures
        lookup(states, key) is Some <==> states.dom().contains(key),
        states.dom().contains(key) ==> lookup(states, key) == Some(states[key]),
        active_keys(states).contains(key) <==> states.dom().contains(key) && states[key].active,
{
}

/// Every message starts with its sign and the name of the network.
pub proof fn law_messages_name_the_network(
    said: Notice,
    network: Seq<char>,
    fire_msg: Seq<char>,
    resolve_msg: Seq<char>,
)
    ensures
        match message(said, network, fire_msg, resolve_msg) {
            None => said is Silent,
            Some(text) => if said is Resolved {
                ("✅ ["@ + network).is_prefix_of(text)
            } else {
                ("🔴 ["@ + network).is_prefix_of(text)
            },
        },
{
    match message(said, network, fire_msg, resolve_msg) {
        None => {},
        Some(text) => {
            let head = if said is Resolved {
                "✅ ["@ + network
            } else {
                "🔴 ["@ + network
            };
            assert(head =~= text.subrange(0, head.len() as int));
        },
    }
}

/// One evaluation of a condition: whether it held, and when that was asked.
pub struct Look {
    pub firing: bool,
    pub now: Moment,
}

/// What is remembered of a condition after these evaluations of it, and no others.
pub open spec fn entry_after(looks: Seq<Look>, cooldown_secs: u64) -> Option<AlertEntry>
    decreases looks.len(),
{
    if looks.len() == 0 {
        None
    } else {
        Some(
            next_entry(
                entry_after(looks.drop_last(), cooldown_secs),
                looks.last().firing,
                looks.last().now,
                cooldown_secs,
            ),
        )
    }
}

/// What the `i`-th of these evaluations had to say.
pub open spec fn notice_at(looks: Seq<Look>, i: int, cooldown_secs: u64) -> Notice {
    notice(
        entry_after(looks.take(i), cooldown_secs),
        looks[i].firing,
        looks[i].now,
        cooldown_secs,
    )
}

/// Whether the `i`-th of these evaluations fired or repeated the alert.
pub open spec fn alerted_at(looks: Seq<Look>, i: int, cooldown_secs: u64) -> bool {
    notice_at(looks, i, cooldown_secs) is Fired || notice_at(looks, i, cooldown_secs) is Repeated
}

proof fn lemma_entry_after(looks: Seq<Look>, i: int, cooldown_secs: u64)
    requires
        0 <= i < looks.len(),
    ensures
        entry_after(looks.take(i + 1), cooldown_secs) == Some(
            next_entry(
                entry_after(looks.take(i), cooldown_secs),
                looks[i].firing,
                looks[i].now,
                cooldown_secs,
            ),
        ),
{
    assert(looks.take(i + 1).drop_last() =~= looks.take(i));
}

/// An alert fires once, when its condition starts to hold, and is announced as resolved once, when
/// its condition ceases to hold; a condition that goes on not holding is not spoken of.
pub proof fn law_fires_on_start_and_resolves_on_end(looks: Seq<Look>, i: int, cooldown_secs: u64)
    requires
        0 <= i < looks.len(),
    ensures
        notice_at(looks, i, cooldown_secs) is Fired <==> looks[i].firing && (i == 0
            || !looks[i - 1].firing),
        notice_at(looks, i, cooldown_secs) is Resolved <==> !looks[i].firing && i > 0
            && looks[i - 1].firing,
        notice_at(looks, i, cooldown_secs) is Repeated ==> looks[i].firing && i > 0
            && looks[i - 1].firing,
{
    if i > 0 {
        lemma_entry_after(looks, i - 1, cooldown_secs);
    } else {
        assert(looks.take(0).len() == 0);
    }
}

/// While a condition goes on holding, its alert is repeated exactly when the cooldown has gone by
/// since the alert was last fired or repeated, which is `j`.
pub proof fn law_repeats_on_cooldown(looks: Seq<Look>, j: int, i: int, cooldown_secs: u64)
    requires
        0 <= j < i < looks.len(),
        forall|k: int| j <= k <= i ==> (#[trigger] looks[k]).firing,
        alerted_at(looks, j, cooldown_secs),
        forall|k: int| j < k < i ==> !#[trigger] alerted_at(looks, k, cooldown_secs),
    ensures
        notice_at(looks, i, cooldown_secs) == (if looks[i].now.nanos - looks[j].now.nanos
            >= cooldown_secs * 1_000_000_000 || cooldown_secs == 0 {
            Notice::Repeated
        } else {
            Notice::Silent
        }),
{
    lemma_notified_at(looks, j, i, cooldown_secs);
}

/// What is remembered before evaluation `i` is that the alert was last spoken of at `j`.
proof fn lemma_notified_at(looks: Seq<Look>, j: int, i: int, cooldown_secs: u64)
    requires
        0 <= j < i <= looks.len(),
        forall|k: int| j <= k < i ==> (#[trigger] looks[k]).firing,
        alerted_at(looks, j, cooldown_secs),
        forall|k: int| j < k < i ==> !#[trigger] alerted_at(looks, k, cooldown_secs),
    ensures
        entry_after(looks.take(i), cooldown_secs) == Some(
            AlertEntry { active: true, last_notified: looks[j].now },
        ),
    decreases i - j,
{
    lemma_entry_after(looks, i - 1, cooldown_secs);
    assert(looks[i - 1].firing);
    if j < i - 1 {
        lemma_notified_at(looks, j, i - 1, cooldown_secs);
        assert(!alerted_at(looks, i - 1, cooldown_secs));
    }
}

/// On a clock that does not run backwards, two messages about a condition that goes on holding
/// are at least the cooldown apart.
pub proof fn law_at_most_one_per_cooldown(looks: Seq<Look>, j: int, i: int, cooldown_secs: u64)
    requires
        0 <= j < i < looks.len(),
        forall|k: int| j <= k <= i ==> (#[trigger] looks[k]).firing,
        forall|k: int, l: int|
            0 <= k <= l < looks.len() ==> (#[trigger] looks[k]).now.nanos <= (
            #[trigger] looks[l]).now.nanos,
        alerted_at(looks, j, cooldown_secs),
        alerted_at(looks, i, cooldown_secs),
    ensures
        looks[i].now.nanos - looks[j].now.nanos >= cooldown_secs * 1_000_000_000,
    decreases i - j,
{
    assert(looks[j].now.nanos <= looks[i].now.nanos);
    if forall|k: int| j < k < i ==> !#[trigger] alerted_at(looks, k, cooldown_secs) {
        law_repeats_on_cooldown(looks, j, i, cooldown_secs);
    } else {
        let k = choose|k: int| j < k < i && #[trigger] alerted_at(looks, k, cooldown_secs);
        assert(looks[j].now.nanos <= looks[k].now.nanos);
        law_at_most_one_per_cooldown(looks, k, i, cooldown_secs);
    }
}

/// An alert is active after an evaluation exactly if its condition held, and evaluating one
/// condition leaves what is remembered of every other as it was.
pub proof fn law_alert_follows_its_condition(
    states: Map<Seq<char>, AlertEntry>,
    key: Seq<char>,
    other: Seq<char>,
    firing: bool,
    now: Moment,
    cooldown_secs: u64,
)
    requires
        other != key,
    ensures
        ({
            let after = states.insert(
                key,
                next_entry(lookup(states, key), firing, now, cooldown_secs),
            );
            &&& active_keys(after).contains(key) == firing
            &&& active_keys(after).contains(other) == active_keys(states).contains(other)
            &&& lookup(after, other) == lookup(states, other)
        }),
{
}

} // verus!
