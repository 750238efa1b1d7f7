//! Watches a network of two-factor signers for its owner, from what can be read on the chain alone.
//!
//! The monitor answers two questions. Do all signers have the funds to operate? And are all of
//! them working: registered, sending approvals, and together enough to keep batches executing? What
//! is wrong is told to the owner once when it starts, again on a cooldown while it lasts, and once
//! more when it is over.
//!
//! `monitor` is the machine that decides; it asks for readings, messages and pauses one at a time.
//! `conditions` says what is alerted on, `alerts` when an alert speaks, `notifier` where a message
//! goes. `steps` states what each single step does, `outcome` what a cycle comes to in terms of what
//! it read, and `cycle`, `history` and `rounds` what whole cycles, longer histories and cycle after
//! cycle from the start amount to.

pub mod address;
pub mod alerts;
pub mod clock;
pub mod conditions;
pub mod cycle;
pub mod history;
pub mod monitor;
pub mod notifier;
pub mod outcome;
pub mod rounds;
pub mod settings;
pub mod signers;
pub mod steps;
pub mod table;
pub mod text;
pub mod word;
