//! The conditions that are alerted on: their keys, when they hold and what is said of them.

use crate::address::{law_shown_address_is_unique, shown_address, Address};
use crate::settings::{Config, Settings};
use crate::signers::{name_of, signer_name};
use crate::text::{decimal, decimal_text};
use crate::word::{ether_text, format_ether, u256_text, U256};
use vstd::prelude::*;
use vstd::string::*;

verus! {

/// A condition to evaluate.
pub struct Condition {
    /// Which condition this is.
    pub key: String,
    /// Whether it holds.
    pub firing: bool,
    /// What to say while it holds.
    pub fire_msg: String,
    /// What to say once it no longer holds.
    pub resolve_msg: String,
}

/// What a `Condition` holds.
pub struct ConditionView {
    pub key: Seq<char>,
    pub firing: bool,
    pub fire_msg: Seq<char>,
    pub resolve_msg: Seq<char>,
}

impl View for Condition {
    type V = ConditionView;

    open spec fn view(&self) -> ConditionView {
        ConditionView {
            key: self.key@,
            firing: self.firing,
            fire_msg: self.fire_msg@,
            resolve_msg: self.resolve_msg@,
        }
    }
}

/// Something that is read from the chain.
#[derive(Clone, Copy, Debug, PartialEq, Eq)]
pub enum Reading {
    /// How many approvals the validator contract asks for.
    Threshold,
    /// The balance of a signer, in wei.
    Balance(Address),
    /// Whether a signer is a member of the multisig.
    Membership(Address),
    /// How many transactions a signer has sent.
    Nonce(Address),
    /// How many batches have been committed.
    Committed,
    /// How many batches have been executed.
    Executed,
}

/// How a reading is called when it fails.
pub open spec fn reading_text(reading: Reading) -> Seq<char> {
    match reading {
        Reading::Threshold => "read threshold"@,
        Reading::Balance(a) => "get_balance "@ + a.shown(),
        Reading::Membership(a) => "executionMultisigMember "@ + a.shown(),
        Reading::Nonce(a) => "get_transaction_count "@ + a.shown(),
        Reading::Committed => "getTotalBatchesCommitted"@,
        Reading::Executed => "getTotalBatchesExecuted"@,
    }
}

impl Reading {
    /// How this reading is called when it fails.
    pub fn describe(&self) -> (res: String)
        ensures
            res@ == reading_text(*self),
    {
        match self {
            Reading::Threshold => "read threshold".to_owned(),
            Reading::Balance(a) => "get_balance ".to_owned().concat(shown_address(a).as_str()),
            Reading::Membership(a) => "executionMultisigMember ".to_owned().concat(
                shown_address(a).as_str(),
            ),
            Reading::Nonce(a) => "get_transaction_count ".to_owned().concat(
                shown_address(a).as_str(),
            ),
            Reading::Committed => "getTotalBatchesCommitted".to_owned(),
            Reading::Executed => "getTotalBatchesExecuted".to_owned(),
        }
    }
}

/// A failed reading is called by what was read, and of whom.
pub proof fn law_readings_are_named(signer: Address)
    ensures
        reading_text(Reading::Threshold) == "read threshold"@,
        reading_text(Reading::Balance(signer)) == "get_balance "@ + signer.shown(),
        reading_text(Reading::Membership(signer)) == "executionMultisigMember "@ + signer.shown(),
        reading_text(Reading::Nonce(signer)) == "get_transaction_count "@ + signer.shown(),
        reading_text(Reading::Committed) == "getTotalBatchesCommitted"@,
        reading_text(Reading::Executed) == "getTotalBatchesExecuted"@,
{
}

/// `signer` has less than the least balance.
pub open spec fn low_balance(cfg: Config, signer: Address, balance: nat) -> ConditionView {
    let name = name_of(signer, cfg.labels);
    ConditionView {
        key: "low_balance:"@ + signer.shown(),
        firing: balance < cfg.min_balance_wei,
        fire_msg: "signer "@ + name + " low balance: "@ + ether_text(balance) + " ETH (< "@
            + cfg.min_balance_eth + " ETH)"@,
        resolve_msg: "signer "@ + name + " balance restored: "@ + ether_text(balance) + " ETH"@,
    }
}

pub(crate) fn low_balance_condition(
    settings: &Settings,
    signer: &Address,
    balance: &U256,
) -> (res: Condition)
    requires
        settings.wf(),
    ensures
        res@ == low_balance(settings@, *signer, balance@),
{
    let name = signer_name(signer, &settings.labels);
    let amount = format_ether(balance);
    Condition {
        key: "low_balance:".to_owned().concat(shown_address(signer).as_str()),
        firing: balance.less_than(&settings.min_balance_wei),
        fire_msg: "signer ".to_owned().concat(name.as_str()).concat(" low balance: ").concat(
            amount.as_str(),
        ).concat(" ETH (< ").concat(settings.min_balance_eth.as_str()).concat(" ETH)"),
        resolve_msg: "signer ".to_owned().concat(name.as_str()).concat(
            " balance restored: ",
        ).concat(amount.as_str()).concat(" ETH"),
    }
}

/// `signer` is no member of the multisig.
pub open spec fn not_member(cfg: Config, signer: Address, is_member: bool) -> ConditionView {
    let name = name_of(signer, cfg.labels);
    ConditionView {
        key: "not_member:"@ + signer.shown(),
        firing: !is_member,
        fire_msg: "signer "@ + name + " is NOT a registered multisig member"@,
        resolve_msg: "signer "@ + name + " is a registered multisig member again"@,
    }
}

pub(crate) fn not_member_condition(
    settings: &Settings,
    signer: &Address,
    is_member: bool,
) -> (res: Condition)
    requires
        settings.wf(),
    ensures
        res@ == not_member(settings@, *signer, is_member),
{
    let name = signer_name(signer, &settings.labels);
    Condition {
        key: "not_member:".to_owned().concat(shown_address(signer).as_str()),
        firing: !is_member,
        fire_msg: "signer ".to_owned().concat(name.as_str()).concat(
            " is NOT a registered multisig member",
        ),
        resolve_msg: "signer ".to_owned().concat(name.as_str()).concat(
            " is a registered multisig member again",
        ),
    }
}

/// The batches committed but not executed.
pub open spec fn backlog(committed: nat, executed: nat) -> nat {
    if committed >= executed {
        (committed - executed) as nat
    } else {
        0
    }
}

/// The backlog is what must be executed for all that is committed to be executed.
pub proof fn law_backlog(committed: nat, executed: nat)
    ensures
        committed >= executed ==> executed + backlog(committed, executed) == committed,
        committed < executed ==> backlog(committed, executed) == 0,
{
}

/// There is a backlog, and execution has stood still for too long (`still`).
pub open spec fn exec_stalled(
    cfg: Config,
    committed: nat,
    executed: nat,
    still: bool,
) -> ConditionView {
    ConditionView {
        key: "exec_stalled"@,
        firing: backlog(committed, executed) >= cfg.exec_lag_alert && still,
        fire_msg: "execution stalled: "@ + decimal(backlog(committed, executed))
            + " batches committed-but-not-executed and no progress for over "@ + decimal(
            cfg.stall_secs as nat,
        ) + "s (committed="@ + decimal(committed) + ", executed="@ + decimal(executed)
            + "). Threshold likely not being met."@,
        resolve_msg: "execution is progressing again"@,
    }
}

pub(crate) fn exec_stalled_condition(
    settings: &Settings,
    committed: &U256,
    executed: &U256,
    still: bool,
) -> (res: Condition)
    ensures
        res@ == exec_stalled(settings@, committed@, executed@, still),
{
    let lag = committed.saturating_sub(executed);
    Condition {
        key: "exec_stalled".to_owned(),
        firing: !lag.less_than(&U256::from_u64(settings.exec_lag_alert)) && still,
        fire_msg: "execution stalled: ".to_owned().concat(u256_text(&lag).as_str()).concat(
            " batches committed-but-not-executed and no progress for over ",
        ).concat(decimal_text(settings.stall_secs).as_str()).concat("s (committed=").concat(
            u256_text(committed).as_str(),
        ).concat(", executed=").concat(u256_text(executed).as_str()).concat(
            "). Threshold likely not being met.",
        ),
        resolve_msg: "execution is progressing again".to_owned(),
    }
}

/// `signer` has sent nothing for too long (`idle`) while there is work for it: the chain goes on
/// committing batches (`producing`), or batches await execution (`waiting`). If neither is so,
/// there is nothing to sign, and the condition does not hold.
pub open spec fn inactive(
    cfg: Config,
    signer: Address,
    producing: bool,
    waiting: bool,
    idle: bool,
) -> ConditionView {
    let name = name_of(signer, cfg.labels);
    ConditionView {
        key: "inactive:"@ + signer.shown(),
        firing: (producing || waiting) && idle,
        fire_msg: if producing {
            "signer "@ + name + " has sent no L1 tx for over "@ + decimal(cfg.stall_secs as nat)
                + "s while the chain keeps committing batches — node may be down (every healthy signer should approve every batch)"@
        } else if waiting {
            "signer "@ + name + " has sent no L1 tx for over "@ + decimal(cfg.stall_secs as nat)
                + "s while batches await execution — node may be down (every healthy signer should approve every batch)"@
        } else {
            Seq::empty()
        },
        resolve_msg: "signer "@ + name + " is active again"@,
    }
}

pub(crate) fn inactive_condition(
    settings: &Settings,
    signer: &Address,
    producing: bool,
    waiting: bool,
    idle: bool,
) -> (res: Condition)
    requires
        settings.wf(),
    ensures
        res@ == inactive(settings@, *signer, producing, waiting, idle),
{
    let name = signer_name(signer, &settings.labels);
    Condition {
        key: "inactive:".to_owned().concat(shown_address(signer).as_str()),
        firing: (producing || waiting) && idle,
        fire_msg: if producing {
            "signer ".to_owned().concat(name.as_str()).concat(
                " has sent no L1 tx for over ",
            ).concat(decimal_text(settings.stall_secs).as_str()).concat(
                "s while the chain keeps committing batches — node may be down (every healthy signer should approve every batch)",
            )
        } else if waiting {
            "signer ".to_owned().concat(name.as_str()).concat(
                " has sent no L1 tx for over ",
            ).concat(decimal_text(settings.stall_secs).as_str()).concat(
                "s while batches await execution — node may be down (every healthy signer should approve every batch)",
            )
        } else {
            String::new()
        },
        resolve_msg: "signer ".to_owned().concat(name.as_str()).concat(" is active again"),
    }
}

/// Fewer signers are funded and registered than the threshold asks for.
pub open spec fn usable_below_threshold(usable: nat, threshold: nat) -> ConditionView {
    ConditionView {
        key: "usable_below_threshold"@,
        firing: usable < threshold,
        fire_msg: "only "@ + decimal(usable)
            + " signers are funded AND registered, but threshold is "@ + decimal(threshold)
            + " — the network may be unable to execute batches"@,
        resolve_msg: "enough usable signers again ("@ + decimal(usable) + " >= threshold "@
            + decimal(threshold) + ")"@,
    }
}

pub(crate) fn usable_below_threshold_condition(usable: u64, threshold: &U256) -> (res: Condition)
    ensures
        res@ == usable_below_threshold(usable as nat, threshold@),
{
    let count = decimal_text(usable);
    let needed = u256_text(threshold);
    Condition {
        key: "usable_below_threshold".to_owned(),
        firing: U256::from_u64(usable).less_than(threshold),
        fire_msg: "only ".to_owned().concat(count.as_str()).concat(
            " signers are funded AND registered, but threshold is ",
        ).concat(needed.as_str()).concat(" — the network may be unable to execute batches"),
        resolve_msg: "enough usable signers again (".to_owned().concat(count.as_str()).concat(
            " >= threshold ",
        ).concat(needed.as_str()).concat(")"),
    }
}

/// The chain could not be read: `failed` is the reading that failed, if one did.
pub open spec fn monitor_rpc(failed: Option<Reading>) -> ConditionView {
    ConditionView {
        key: "monitor_rpc"@,
        firing: failed is Some,
        fire_msg: match failed {
            Some(reading) => "monitor cannot read L1: "@ + reading_text(reading),
            None => Seq::empty(),
        },
        resolve_msg: "monitor can read L1 again"@,
    }
}

pub(crate) fn monitor_rpc_condition(failed: Option<Reading>) -> (res: Condition)
    ensures
        res@ == monitor_rpc(failed),
{
    Condition {
        key: "monitor_rpc".to_owned(),
        firing: failed.is_some(),
        fire_msg: match failed {
            Some(reading) => "monitor cannot read L1: ".to_owned().concat(
                reading.describe().as_str(),
            ),
            None => String::new(),
        },
        resolve_msg: "monitor can read L1 again".to_owned(),
    }
}

/// Every alert about a signer, and every word that it is over, starts with the name of that
/// signer, which holds its label if it has one.
pub proof fn law_alerts_name_their_signer(
    cfg: Config,
    signer: Address,
    balance: nat,
    is_member: bool,
    producing: bool,
    waiting: bool,
    idle: bool,
)
    ensures
        ({
            let silent = inactive(cfg, signer, producing, waiting, idle);
            let head = "signer "@ + name_of(signer, cfg.labels);
            &&& head.is_prefix_of(low_balance(cfg, signer, balance).fire_msg)
            &&& head.is_prefix_of(low_balance(cfg, signer, balance).resolve_msg)
            &&& head.is_prefix_of(not_member(cfg, signer, is_member).fire_msg)
            &&& head.is_prefix_of(not_member(cfg, signer, is_member).resolve_msg)
            &&& silent.firing ==> head.is_prefix_of(silent.fire_msg)
            &&& head.is_prefix_of(silent.resolve_msg)
            &&& cfg.labels.dom().contains(signer) ==> cfg.labels[signer].is_prefix_of(
                name_of(signer, cfg.labels),
            )
        }),
{
    let name = name_of(signer, cfg.labels);
    let head = "signer "@ + name;
    let n = head.len() as int;
    assert(head =~= low_balance(cfg, signer, balance).fire_msg.subrange(0, n));
    assert(head =~= low_balance(cfg, signer, balance).resolve_msg.subrange(0, n));
    assert(head =~= not_member(cfg, signer, is_member).fire_msg.subrange(0, n));
    assert(head =~= not_member(cfg, signer, is_member).resolve_msg.subrange(0, n));
    let silent = inactive(cfg, signer, producing, waiting, idle);
    assert(head =~= silent.resolve_msg.subrange(0, n));
    if silent.firing {
        assert(head =~= silent.fire_msg.subrange(0, n));
    }
    if cfg.labels.dom().contains(signer) {
        let label = cfg.labels[signer];
        assert(label =~= name.subrange(0, label.len() as int));
    }
}

proof fn lemma_same_prefix(prefix: Seq<char>, a: Seq<char>, b: Seq<char>)
    ensures
        prefix + a == prefix + b <==> a == b,
{
    if prefix + a == prefix + b {
        assert((prefix + a).skip(prefix.len() as int) =~= a);
        assert((prefix + b).skip(prefix.len() as int) =~= b);
    }
}

/// Each condition has a key of its own: the keys of two conditions are the same only if both are
/// of the same kind and about the same signer.
pub proof fn law_keys_are_distinct(
    cfg: Config,
    a: Address,
    b: Address,
    balance: nat,
    is_member: bool,
    producing: bool,
    waiting: bool,
    idle: bool,
    counters: (nat, nat, bool),
    usable: nat,
    threshold: nat,
    failed: Option<Reading>,
)
    ensures
        ({
            let low = low_balance(cfg, a, balance).key;
            let outside = not_member(cfg, a, is_member).key;
            let silent = inactive(cfg, a, producing, waiting, idle).key;
            let stalled = exec_stalled(cfg, counters.0, counters.1, counters.2).key;
            let few = usable_below_threshold(usable, threshold).key;
            let unread = monitor_rpc(failed).key;
            &&& low_balance(cfg, b, balance).key == low <==> a == b
            &&& not_member(cfg, b, is_member).key == outside <==> a == b
            &&& inactive(cfg, b, producing, waiting, idle).key == silent <==> a == b
            &&& low != not_member(cfg, b, is_member).key
            &&& low != inactive(cfg, b, producing, waiting, idle).key
            &&& low != stalled
            &&& low != few
            &&& low != unread
            &&& outside != inactive(cfg, b, producing, waiting, idle).key
            &&& outside != stalled
            &&& outside != few
            &&& outside != unread
            &&& silent != stalled
            &&& silent != few
            &&& silent != unread
            &&& stalled != few
            &&& stalled != unread
            &&& few != unread
        }),
{
    reveal_strlit("low_balance:");
    reveal_strlit("not_member:");
    reveal_strlit("inactive:");
    reveal_strlit("exec_stalled");
    reveal_strlit("usable_below_threshold");
    reveal_strlit("monitor_rpc");
    law_shown_address_is_unique(a, b);
    lemma_same_prefix("low_balance:"@, a.shown(), b.shown());
    lemma_same_prefix("not_member:"@, a.shown(), b.shown());
    lemma_same_prefix("inactive:"@, a.shown(), b.shown());
    assert(low_balance(cfg, a, balance).key[0] == 'l');
    assert(not_member(cfg, a, is_member).key[0] == 'n');
    assert(not_member(cfg, b, is_member).key[0] == 'n');
    assert(inactive(cfg, a, producing, waiting, idle).key[0] == 'i');
    assert(inactive(cfg, b, producing, waiting, idle).key[0] == 'i');
    assert(exec_stalled(cfg, counters.0, counters.1, counters.2).key[0] == 'e');
    assert(usable_below_threshold(usable, threshold).key[0] == 'u');
    assert(monitor_rpc(failed).key[0] == 'm');
}

} // verus!
