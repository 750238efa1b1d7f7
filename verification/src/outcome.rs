//! What a whole cycle comes to, in terms of what it read, what was configured and what was
//! remembered before it.

use crate::cycle::{
    cycle_ticks, law_alerts_reflect_the_cycle, law_cycle, law_network_alerts_reflect_the_cycle,
    law_nonces_are_noted_apart, lemma_last_nonce_noted, run, usable_count, CycleLook, SignerLook,
};
use crate::monitor::{Stage, State};
use crate::settings::Config;
use vstd::prelude::*;
use vstd::set_lib::set_int_range;

verus! {

/// After a cycle in which every reading succeeds, the number of usable signers is the number of
/// places whose signer has at least the least balance and is a member, and the alert on the
/// threshold is active exactly if that number is less than the threshold read.
pub proof fn law_usable_signers_are_counted(cfg: Config, s: State, look: CycleLook)
    requires
        s.stage == Stage::Rest,
        look.signers.len() == cfg.signers.len(),
        look.at_liveness.len() == cfg.signers.len(),
        cfg.signers.len() <= usize::MAX,
    ensures
        ({
            let run = run(cfg, s, cycle_ticks(look));
            let end = (run->0).0;
            let usable = set_int_range(0, cfg.signers.len() as int).filter(
                |i: int|
                    look.signers[i].balance@ >= cfg.min_balance_wei && look.signers[i].is_member,
            );
            let key = "usable_below_threshold"@;
            &&& run is Some
            &&& usable.finite()
            &&& end.usable == usable.len()
            &&& end.threshold == look.threshold@
            &&& (end.alerts.dom().contains(key) && end.alerts[key].active) <==> usable.len()
                < look.threshold@
        }),
{
    let n = cfg.signers.len();
    law_cycle(cfg, s, look);
    law_network_alerts_reflect_the_cycle(cfg, s, look);
    lemma_usable_count(cfg, look.signers, n);
}

proof fn lemma_usable_count(cfg: Config, looks: Seq<SignerLook>, n: nat)
    ensures
        ({
            let usable = set_int_range(0, n as int).filter(
                |i: int| looks[i].balance@ >= cfg.min_balance_wei && looks[i].is_member,
            );
            usable.finite() && usable.len() == usable_count(cfg, looks, n)
        }),
    decreases n,
{
    let holds = |i: int| looks[i].balance@ >= cfg.min_balance_wei && looks[i].is_member;
    let usable = set_int_range(0, n as int).filter(holds);
    if n == 0 {
        assert(usable =~= Set::<int>::empty());
    } else {
        let m = (n - 1) as nat;
        let before = set_int_range(0, m as int).filter(holds);
        lemma_usable_count(cfg, looks, m);
        if holds(m as int) {
            assert(usable =~= before.insert(m as int));
        } else {
            assert(usable =~= before);
        }
    }
}

/// After a cycle in which every reading succeeds, the alert on a standstill is active exactly if at
/// least the configured number of batches is committed beyond the executed ones and the number of
/// executed ones has stood for the stall time. The counters that are remembered are those read,
/// each with the time at which it was first seen. That the chain cannot be read is over.
pub proof fn law_progress_is_judged(cfg: Config, s: State, look: CycleLook)
    requires
        s.stage == Stage::Rest,
        look.signers.len() == cfg.signers.len(),
        look.at_liveness.len() == cfg.signers.len(),
        cfg.signers.len() <= usize::MAX,
    ensures
        ({
            let run = run(cfg, s, cycle_ticks(look));
            let end = (run->0).0;
            let stalled = "exec_stalled"@;
            let unread = "monitor_rpc"@;
            &&& run is Some
            &&& (end.alerts.dom().contains(stalled) && end.alerts[stalled].active) <==> {
                &&& look.committed@ >= look.executed@ + cfg.exec_lag_alert || cfg.exec_lag_alert
                    == 0
                &&& look.at_executed.nanos - end.executed_changed_at.nanos >= cfg.stall_secs
                    * 1_000_000_000 || cfg.stall_secs == 0
            }
            &&& end.alerts.dom().contains(unread) && !end.alerts[unread].active
            &&& end.last_executed == Some(look.executed)
            &&& end.executed_changed_at == (if s.last_executed == Some(look.executed) {
                s.executed_changed_at
            } else {
                look.at_executed
            })
            &&& end.last_committed == Some(look.committed)
            &&& end.committed_changed_at == (if s.last_committed == Some(look.committed) {
                s.committed_changed_at
            } else {
                look.at_executed
            })
        }),
{
    law_cycle(cfg, s, look);
    law_network_alerts_reflect_the_cycle(cfg, s, look);
}

/// After a cycle in which every reading succeeds, the alerts on a signer are active exactly if: its
/// balance is less than the least balance; it is no member; its nonce has stood for the stall time
/// while the number of committed batches has stood no longer than that or batches await execution.
/// The nonce that is remembered is the one read, with the time at which it was first seen. Where an
/// address is listed more than once, its last balance, membership and nonce count; `i` is the last
/// place of its address.
pub proof fn law_signers_are_judged(cfg: Config, s: State, look: CycleLook, i: int)
    requires
        s.stage == Stage::Rest,
        look.signers.len() == cfg.signers.len(),
        look.at_liveness.len() == cfg.signers.len(),
        cfg.signers.len() <= usize::MAX,
        0 <= i < cfg.signers.len(),
        forall|j: int| i < j < cfg.signers.len() ==> #[trigger] cfg.signers[j] != cfg.signers[i],
    ensures
        ({
            let run = run(cfg, s, cycle_ticks(look));
            let end = (run->0).0;
            let signer = cfg.signers[i];
            let low = "low_balance:"@ + signer.shown();
            let outside = "not_member:"@ + signer.shown();
            let silent = "inactive:"@ + signer.shown();
            &&& run is Some
            &&& (end.alerts.dom().contains(low) && end.alerts[low].active)
                <==> look.signers[i].balance@ < cfg.min_balance_wei
            &&& (end.alerts.dom().contains(outside) && end.alerts[outside].active)
                <==> !look.signers[i].is_member
            &&& (end.alerts.dom().contains(silent) && end.alerts[silent].active) <==> {
                &&& look.at_executed.nanos - end.activity[signer].nonce_changed_at.nanos
                    >= cfg.stall_secs * 1_000_000_000 || cfg.stall_secs == 0
                &&& look.at_executed.nanos - end.committed_changed_at.nanos <= cfg.stall_secs
                    * 1_000_000_000 || look.committed@ > look.executed@
            }
            &&& end.activity.dom().contains(signer)
            &&& end.activity[signer].last_nonce == look.signers[i].nonce
            &&& (forall|j: int| 0 <= j < i ==> #[trigger] cfg.signers[j] != signer)
                ==> end.activity[signer].nonce_changed_at == (if s.activity.dom().contains(signer)
                && s.activity[signer].last_nonce == look.signers[i].nonce {
                s.activity[signer].nonce_changed_at
            } else {
                look.signers[i].at_noted
            })
        }),
{
    law_cycle(cfg, s, look);
    law_alerts_reflect_the_cycle(cfg, s, look, i);
    lemma_last_nonce_noted(cfg, s.activity, look.signers, cfg.signers.len(), i);
    if forall|j: int| 0 <= j < i ==> #[trigger] cfg.signers[j] != cfg.signers[i] {
        law_nonces_are_noted_apart(cfg, s.activity, look.signers, cfg.signers.len(), i);
    }
}

} // verus!
