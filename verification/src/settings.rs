//! What the owner configures.

use crate::address::Address;
use crate::signers::{label_texts, Labels};
use crate::word::U256;
use vstd::prelude::*;

verus! {

/// What to watch and when to speak.
pub struct Settings {
    /// The name of the network, which every message carries.
    pub network_name: String,
    /// The signers, in the order in which they are looked at.
    pub signers: Vec<Address>,
    /// The labels of the signers that have one.
    pub labels: Labels,
    /// A signer with less than this is low on funds.
    pub min_balance_wei: U256,
    /// The same amount in ether, as it is shown.
    pub min_balance_eth: String,
    /// The backlog of batches from which on a standstill is reported.
    pub exec_lag_alert: u64,
    /// How long execution or a signer may stand still.
    pub stall_secs: u64,
    /// The pause between two cycles.
    pub poll_interval_secs: u64,
    /// The least time between two messages about a condition that goes on holding.
    pub alert_cooldown_secs: u64,
    /// The time between two heartbeats; none are sent if it is zero.
    pub heartbeat_secs: u64,
}

/// What the settings say.
pub struct Config {
    pub network: Seq<char>,
    pub signers: Seq<Address>,
    pub labels: Map<Address, Seq<char>>,
    pub min_balance_wei: nat,
    pub min_balance_eth: Seq<char>,
    pub exec_lag_alert: u64,
    pub stall_secs: u64,
    pub poll_interval_secs: u64,
    pub alert_cooldown_secs: u64,
    pub heartbeat_secs: u64,
}

impl View for Settings {
    type V = Config;

    open spec fn view(&self) -> Config {
        Config {
            network: self.network_name@,
            signers: self.signers@,
            labels: label_texts(self.labels),
            min_balance_wei: self.min_balance_wei@,
            min_balance_eth: self.min_balance_eth@,
            exec_lag_alert: self.exec_lag_alert,
            stall_secs: self.stall_secs,
            poll_interval_secs: self.poll_interval_secs,
            alert_cooldown_secs: self.alert_cooldown_secs,
            heartbeat_secs: self.heartbeat_secs,
        }
    }
}

impl Settings {
    /// No signer has two labels.
    pub open spec fn wf(&self) -> bool {
        self.labels.wf()
    }
}

/// What the settings say is what was configured, field by field.
pub proof fn law_settings_say_what_was_configured(settings: Settings, signer: Address)
    ensures
        settings@.network == settings.network_name@,
        settings@.signers == settings.signers@,
        settings@.labels.dom().contains(signer) <==> settings.labels@.dom().contains(signer),
        settings.labels@.dom().contains(signer) ==> settings@.labels[signer]
            == settings.labels@[signer]@,
        settings@.min_balance_wei == settings.min_balance_wei@,
        settings@.min_balance_eth == settings.min_balance_eth@,
        settings@.exec_lag_alert == settings.exec_lag_alert,
        settings@.stall_secs == settings.stall_secs,
        settings@.poll_interval_secs == settings.poll_interval_secs,
        settings@.alert_cooldown_secs == settings.alert_cooldown_secs,
        settings@.heartbeat_secs == settings.heartbeat_secs,
{
}

} // verus!
