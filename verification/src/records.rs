//! The text of the log entries that the protocol writes by itself.
//!
//! Numbers are written in decimal, an identity as `Id(` number `)`.

use crate::types::{Id, LogEntry};
use vstd::prelude::*;
use vstd::string::*;

verus! {

/// The character of a single decimal digit.
pub open spec fn digit(d: nat) -> char
    recommends
        d < 10,
{
    seq!['0', '1', '2', '3', '4', '5', '6', '7', '8', '9'][d as int]
}

/// A natural number in decimal, without leading zeros.
pub open spec fn decimal(n: nat) -> Seq<char>
    decreases n,
{
    if n < 10 {
        seq![digit(n)]
    } else {
        decimal(n / 10).push(digit(n % 10))
    }
}

/// What a peer notes when it grants its vote.
pub open spec fn vote_granted_text(candidate: Id, term: nat) -> Seq<char> {
    "[logterm: "@ + decimal(term) + "] cast vote for Id("@ + decimal(candidate.0 as nat)
        + ") at term "@ + decimal(term)
}

/// What a peer notes when it is asked in a new term and cannot vote.
pub open spec fn vote_rejected_text(candidate: Id, term: nat) -> Seq<char> {
    "[logterm: "@ + decimal(term) + "] rejected vote for Id("@ + decimal(candidate.0 as nat)
        + ") at term "@ + decimal(term)
}

/// What a peer notes when it is asked in a term below its own.
pub open spec fn stale_request_text(candidate: Id, local_term: nat, sender_term: nat) -> Seq<
    char,
> {
    "ignored a message with lower term from Id("@ + decimal(candidate.0 as nat) + ") with term "@
        + decimal(local_term) + " and sender term "@ + decimal(sender_term)
}

/// What a new leader announces to the peers it is linked to.
pub open spec fn new_leader_text(leader: Id, term: nat) -> Seq<char> {
    "new leader Id("@ + decimal(leader.0 as nat) + ") at term "@ + decimal(term)
}

fn digit_str(d: u64) -> (s: &'static str)
    requires
        d < 10,
    ensures
        s@ == seq![digit(d as nat)],
{
    proof {
        reveal_strlit("0");
        reveal_strlit("1");
        reveal_strlit("2");
        reveal_strlit("3");
        reveal_strlit("4");
        reveal_strlit("5");
        reveal_strlit("6");
        reveal_strlit("7");
        reveal_strlit("8");
        reveal_strlit("9");
    }
    let s = if d == 0 {
        "0"
    } else if d == 1 {
        "1"
    } else if d == 2 {
        "2"
    } else if d == 3 {
        "3"
    } else if d == 4 {
        "4"
    } else if d == 5 {
        "5"
    } else if d == 6 {
        "6"
    } else if d == 7 {
        "7"
    } else if d == 8 {
        "8"
    } else {
        "9"
    };
    assert(s@ =~= seq![digit(d as nat)]);
    s
}

/// Appends `n` in decimal to `out`.
pub fn push_decimal(out: &mut String, n: u64)
    ensures
        final(out)@ == old(out)@ + decimal(n as nat),
    decreases n,
{
    if n >= 10 {
        push_decimal(out, n / 10);
    }
    out.append(digit_str(n % 10));
    assert(final(out)@ =~= old(out)@ + decimal(n as nat));
}

/// The entry of a granted vote.
pub fn vote_granted(candidate: Id, term: u64) -> (entry: LogEntry)
    ensures
        entry@ == vote_granted_text(candidate, term as nat),
{
    let mut text = String::from_str("[logterm: ");
    push_decimal(&mut text, term);
    text.append("] cast vote for Id(");
    push_decimal(&mut text, candidate.0);
    text.append(") at term ");
    push_decimal(&mut text, term);
    LogEntry(text)
}

/// The entry of a vote that could not be granted.
pub fn vote_rejected(candidate: Id, term: u64) -> (entry: LogEntry)
    ensures
        entry@ == vote_rejected_text(candidate, term as nat),
{
    let mut text = String::from_str("[logterm: ");
    push_decimal(&mut text, term);
    text.append("] rejected vote for Id(");
    push_decimal(&mut text, candidate.0);
    text.append(") at term ");
    push_decimal(&mut text, term);
    LogEntry(text)
}

/// The entry of a vote request that came too late.
pub fn stale_request(candidate: Id, local_term: u64, sender_term: u64) -> (entry: LogEntry)
    ensures
        entry@ == stale_request_text(candidate, local_term as nat, sender_term as nat),
{
    let mut text = String::from_str("ignored a message with lower term from Id(");
    push_decimal(&mut text, candidate.0);
    text.append(") with term ");
    push_decimal(&mut text, local_term);
    text.append(" and sender term ");
    push_decimal(&mut text, sender_term);
    LogEntry(text)
}

/// The entry by which a new leader announces itself.
pub fn new_leader(leader: Id, term: u64) -> (entry: LogEntry)
    ensures
        entry@ == new_leader_text(leader, term as nat),
{
    let mut text = String::from_str("new leader Id(");
    push_decimal(&mut text, leader.0);
    text.append(") at term ");
    push_decimal(&mut text, term);
    LogEntry(text)
}

} // verus!
