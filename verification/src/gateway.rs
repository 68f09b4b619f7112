//! The packet filter that enforces the blocklist: the commands that add and
//! remove a drop rule for an address, and how their outcome is reported. The
//! filter is best effort; the registry is the authority.

use vstd::prelude::*;
use vstd::string::*;
use crate::registry::BlockOutcome;
use crate::text::{decimal, decimal_string};

verus! {

/// How a command to the packet filter ended.
#[derive(Clone, Copy, Debug, PartialEq, Eq, Structural)]
pub enum EnforcementOutcome {
    /// The command ran and succeeded.
    Applied,
    /// The command ran and failed.
    CommandFailed,
    /// The command could not be run.
    ToolUnavailable,
}

/// The outcome that an exit reports: `None` where the command could not be
/// started, else whether it succeeded.
pub open spec fn outcome_of_exit(exit: Option<bool>) -> EnforcementOutcome {
    match exit {
        Some(true) => EnforcementOutcome::Applied,
        Some(false) => EnforcementOutcome::CommandFailed,
        None => EnforcementOutcome::ToolUnavailable,
    }
}

/// The command that adds a drop rule for `address`.
pub open spec fn block_command_text(address: Seq<char>) -> Seq<char> {
    "nft add rule inet filter input ether saddr "@ + address + " drop"@
}

/// The command that removes the drop rule for `address`.
pub open spec fn unblock_command_text(address: Seq<char>) -> Seq<char> {
    "nft delete rule inet filter input ether saddr "@ + address + " drop"@
}

/// What is reported of a block that added `address`, after the packet filter
/// was asked: the count where the rule was made, else what went wrong there.
pub open spec fn added_message_text(
    address: Seq<char>,
    total: nat,
    enforcement: EnforcementOutcome,
) -> Seq<char> {
    match enforcement {
        EnforcementOutcome::Applied => "Successfully added "@ + address
            + " to blocklist (total: "@ + decimal(total) + ")"@,
        EnforcementOutcome::CommandFailed => "Added "@ + address
            + " to blocklist, but nftables rule failed"@,
        EnforcementOutcome::ToolUnavailable => "Added "@ + address
            + " to blocklist, but nftables unavailable"@,
    }
}

/// What is reported of a block that found `address` blocked already.
pub open spec fn already_blocked_message_text(address: Seq<char>, total: nat) -> Seq<char> {
    "MAC "@ + address + " already blocked (total: "@ + decimal(total) + ")"@
}

/// What is reported of a block of `address`. Where the address was there
/// already the packet filter is not asked, and `enforcement` says nothing.
pub open spec fn block_message_text(
    address: Seq<char>,
    outcome: BlockOutcome,
    enforcement: EnforcementOutcome,
) -> Seq<char> {
    match outcome {
        BlockOutcome::Added { total } => added_message_text(address, total as nat, enforcement),
        BlockOutcome::AlreadyBlocked { total } => already_blocked_message_text(
            address,
            total as nat,
        ),
    }
}

impl EnforcementOutcome {
    /// The outcome that an exit reports: `None` where the command could not
    /// be started, else whether it succeeded.
    pub fn from_exit(exit: Option<bool>) -> (r: EnforcementOutcome)
        ensures
            r == outcome_of_exit(exit),
    {
        match exit {
            Some(true) => EnforcementOutcome::Applied,
            Some(false) => EnforcementOutcome::CommandFailed,
            None => EnforcementOutcome::ToolUnavailable,
        }
    }
}

/// The command that adds a drop rule for `address`.
pub fn block_command(address: &str) -> (r: String)
    ensures
        r@ == block_command_text(address@),
{
    let mut r = String::from_str("nft add rule inet filter input ether saddr ");
    r.append(address);
    r.append(" drop");
    r
}

/// The command that removes the drop rule for `address`.
pub fn unblock_command(address: &str) -> (r: String)
    ensures
        r@ == unblock_command_text(address@),
{
    let mut r = String::from_str("nft delete rule inet filter input ether saddr ");
    r.append(address);
    r.append(" drop");
    r
}

/// What is reported of a block that added `address`, after the packet filter
/// was asked. `total` is the number of addresses blocked.
fn added_message(address: &str, total: usize, enforcement: EnforcementOutcome) -> (r: String)
    ensures
        r@ == added_message_text(address@, total as nat, enforcement),
{
    match enforcement {
        EnforcementOutcome::Applied => {
            let mut r = String::from_str("Successfully added ");
            r.append(address);
            r.append(" to blocklist (total: ");
            r.append(decimal_string(total as u64).as_str());
            r.append(")");
            r
        },
        EnforcementOutcome::CommandFailed => {
            let mut r = String::from_str("Added ");
            r.append(address);
            r.append(" to blocklist, but nftables rule failed");
            r
        },
        EnforcementOutcome::ToolUnavailable => {
            let mut r = String::from_str("Added ");
            r.append(address);
            r.append(" to blocklist, but nftables unavailable");
            r
        },
    }
}

/// What is reported of a block that found `address` blocked already. `total`
/// is the number of addresses blocked.
fn already_blocked_message(address: &str, total: usize) -> (r: String)
    ensures
        r@ == already_blocked_message_text(address@, total as nat),
{
    let mut r = String::from_str("MAC ");
    r.append(address);
    r.append(" already blocked (total: ");
    r.append(decimal_string(total as u64).as_str());
    r.append(")");
    r
}

/// The message of a block of `address`, with the outcome of the packet
/// filter folded in. Where the address was there already the filter is not
/// asked, and `enforcement` is not looked at.
pub fn block_message(address: &str, outcome: BlockOutcome, enforcement: EnforcementOutcome) -> (r:
    String)
    ensures
        r@ == block_message_text(address@, outcome, enforcement),
{
    match outcome {
        BlockOutcome::Added { total } => added_message(address, total, enforcement),
        BlockOutcome::AlreadyBlocked { total } => already_blocked_message(address, total),
    }
}

} // verus!
