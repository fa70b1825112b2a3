//! What joining a Wi-Fi network comes to.
//!
//! Joining (association, then a DHCP lease) is given a time limit; the
//! result is the address leased, or a reason that is safe to send straight
//! back to a client as `ERR <reason>`.
use vstd::prelude::*;

verus! {

/// How the time-limited attempt to join and get configured ended.
#[derive(Clone, Copy, PartialEq, Eq, Structural, Debug)]
pub enum JoinAttempt {
    /// Associated, and the network stack came up.
    Joined,
    /// The chip reported that joining failed.
    Failed,
    /// The time limit passed first.
    TimedOut,
}

/// The result of joining: the IPv4 address leased, or why there is none.
pub open spec fn spec_join_outcome(attempt: JoinAttempt, lease: Option<[u8; 4]>) -> Result<
    [u8; 4],
    Seq<char>,
> {
    match attempt {
        JoinAttempt::Failed => Err("wifi join failed"@),
        JoinAttempt::TimedOut => Err("wifi join timed out"@),
        JoinAttempt::Joined => match lease {
            Some(a) => Ok(a),
            None => Err("no ipv4 lease"@),
        },
    }
}

/// The result of joining, given how the attempt ended and the IPv4
/// configuration that the stack then holds.
pub fn join_outcome(attempt: JoinAttempt, lease: Option<[u8; 4]>) -> (r: Result<[u8; 4], &'static str>)
    ensures
        match (r, spec_join_outcome(attempt, lease)) {
            (Ok(a), Ok(b)) => a == b,
            (Err(s), Err(t)) => s@ == t,
            _ => false,
        },
{
    match attempt {
        JoinAttempt::Failed => Err("wifi join failed"),
        JoinAttempt::TimedOut => Err("wifi join timed out"),
        JoinAttempt::Joined => match lease {
            Some(a) => Ok(a),
            None => Err("no ipv4 lease"),
        },
    }
}

} // verus!
