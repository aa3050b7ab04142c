//! The settings of a node, and their validation.
use vstd::prelude::*;
use vstd::string::StringExecFns;
pub use crate::read_only::{ReadOnlyOption, ReadState};
use crate::errors::{Error, Result};
use crate::INVALID_ID;

verus! {

/// The character of the decimal digit `d`.
pub open spec fn digit_char(d: nat) -> char {
    (d + 48) as char
}

/// The decimal numeral of `n`, without leading zeros.
pub open spec fn decimal(n: nat) -> Seq<char>
    decreases n,
{
    if n < 10 {
        seq![digit_char(n)]
    } else {
        decimal(n / 10).push(digit_char(n % 10))
    }
}

/// The decimal numeral of `n`.
///
/// Formats `n` with `format!("{}", n)`; the `Display` of `u64` writes the
/// decimal digits without sign, padding or leading zeros, which the
/// contract states.
#[verifier::external_body]
pub(crate) fn decimal_string(n: u64) -> (r: String)
    ensures
        r@ == decimal(n as nat),
{
    format!("{}", n)
}

/// Settings pass validation exactly when they have a valid id, a nonzero
/// heartbeat tick below the election tick, a configured minimum election
/// tick no lower than the election tick and below twice it, no configured
/// maximum (a configured one makes the maximum the election tick itself,
/// which no valid minimum lies below), room for appends in flight, and
/// check quorum whenever reads rely on the leader's lease.
pub proof fn law_valid_settings(c: Config)
    ensures
        c.validation_error() is None <==> {
            &&& c.id != INVALID_ID
            &&& 0 < c.heartbeat_tick < c.election_tick
            &&& c.election_tick <= c.min_election_tick
            &&& c.max_election_tick == 0
            &&& c.min_election_tick < 2 * c.election_tick
            &&& c.max_inflight_msgs > 0
            &&& (c.read_only_option == ReadOnlyOption::LeaseBase ==> c.check_quorum)
        },
{
}

/// A configured minimum election tick below a nonzero election tick fails
/// validation, with a message naming both.
pub proof fn law_low_min_election_tick_rejected(c: Config)
    requires
        c.id != INVALID_ID,
        0 < c.heartbeat_tick < c.election_tick,
        c.min_election_tick < c.election_tick,
    ensures
        c.validation_error() == Some(
            "min election tick "@ + decimal(c.min_election_tick as nat)
                + " must not be less than election tick "@ + decimal(c.election_tick as nat),
        ),
{
}

/// The settings of a node.
pub struct Config {
    /// The node's id; it must not be `INVALID_ID`.
    pub id: u64,
    /// The voters of the cluster.
    pub peers: Vec<u64>,
    /// The learners of the cluster.
    pub learners: Vec<u64>,
    /// Ticks without a leader before an election starts.
    pub election_tick: usize,
    /// Ticks between a leader's heartbeats.
    pub heartbeat_tick: usize,
    /// The last applied index, when restarting.
    pub applied: u64,
    /// The largest size of the entries of one append.
    pub max_size_per_msg: u64,
    /// The most appends in flight to one follower.
    pub max_inflight_msgs: usize,
    pub check_quorum: bool,
    pub pre_vote: bool,
    pub min_election_tick: usize,
    pub max_election_tick: usize,
    pub read_only_option: ReadOnlyOption,
    pub skip_bcast_commit: bool,
    pub tag: String,
}

impl Default for Config {
    fn default() -> (r: Config)
        ensures
            r.id == 0,
            r.peers@ == Seq::<u64>::empty(),
            r.learners@ == Seq::<u64>::empty(),
            r.election_tick == 20,
            r.heartbeat_tick == 2,
            r.applied == 0,
            r.max_size_per_msg == 0,
            r.max_inflight_msgs == 256,
            !r.check_quorum,
            !r.pre_vote,
            r.min_election_tick == 0,
            r.max_election_tick == 0,
            r.read_only_option == ReadOnlyOption::Safe,
            !r.skip_bcast_commit,
            r.tag@ == Seq::<char>::empty(),
    {
        let heartbeat_tick: usize = 2;
        Config {
            id: 0,
            peers: Vec::new(),
            learners: Vec::new(),
            election_tick: heartbeat_tick * 10,
            heartbeat_tick,
            applied: 0,
            max_size_per_msg: 0,
            max_inflight_msgs: 256,
            check_quorum: false,
            pre_vote: false,
            min_election_tick: 0,
            max_election_tick: 0,
            read_only_option: ReadOnlyOption::Safe,
            skip_bcast_commit: false,
            tag: String::new(),
        }
    }
}

impl Config {
    /// The value `min_election_tick()` returns.
    pub open spec fn min_election_tick_spec(&self) -> usize {
        if self.election_tick == 0 {
            self.election_tick
        } else {
            self.min_election_tick
        }
    }

    /// The value `max_election_tick()` returns.
    pub open spec fn max_election_tick_spec(&self) -> nat {
        if self.max_election_tick == 0 {
            (2 * self.election_tick) as nat
        } else {
            self.election_tick as nat
        }
    }

    /// The text of the first check that the settings fail, if any.
    pub open spec fn validation_error(&self) -> Option<Seq<char>> {
        if self.id == INVALID_ID {
            Some("invalid node id"@)
        } else if self.heartbeat_tick == 0 {
            Some("heartbeat tick must be greater than 0"@)
        } else if self.election_tick <= self.heartbeat_tick {
            Some("election tick must be greater than heartbeat tick"@)
        } else if self.min_election_tick_spec() < self.election_tick {
            Some(
                "min election tick "@ + decimal(self.min_election_tick_spec() as nat)
                    + " must not be less than election tick "@ + decimal(self.election_tick as nat),
            )
        } else if self.min_election_tick_spec() >= self.max_election_tick_spec() {
            Some(
                "min election tick "@ + decimal(self.min_election_tick_spec() as nat)
                    + " should be less than max election tick "@ + decimal(
                    self.max_election_tick_spec(),
                ),
            )
        } else if self.max_inflight_msgs == 0 {
            Some("max inflight messages must be greater than 0"@)
        } else if self.read_only_option == ReadOnlyOption::LeaseBase && !self.check_quorum {
            Some("read_only_option == LeaseBase requires check_quorum == true"@)
        } else {
            None
        }
    }

    /// The default settings, tagged with the decimal numeral of `id`; the
    /// id itself stays zero.
    pub fn new(id: u64) -> (r: Config)
        ensures
            r.id == 0,
            r.tag@ == decimal(id as nat),
            r.peers@ == Seq::<u64>::empty(),
            r.learners@ == Seq::<u64>::empty(),
            r.election_tick == 20,
            r.heartbeat_tick == 2,
            r.applied == 0,
            r.max_size_per_msg == 0,
            r.max_inflight_msgs == 256,
            !r.check_quorum,
            !r.pre_vote,
            r.min_election_tick == 0,
            r.max_election_tick == 0,
            r.read_only_option == ReadOnlyOption::Safe,
            !r.skip_bcast_commit,
    {
        let mut c = Self::default();
        c.id = 0;
        c.tag = decimal_string(id);
        c
    }

    /// The lower bound of the randomized election timeout: the election
    /// tick when that is zero, else the configured minimum.
    pub fn min_election_tick(&self) -> (r: usize)
        ensures
            r == self.min_election_tick_spec(),
            self.election_tick == 0 ==> r == 0,
            self.election_tick != 0 ==> r == self.min_election_tick,
    {
        if self.election_tick == 0 {
            self.election_tick
        } else {
            self.min_election_tick
        }
    }

    /// The upper bound of the randomized election timeout: twice the
    /// election tick when no maximum is configured, else the election tick.
    pub fn max_election_tick(&self) -> (r: usize)
        requires
            self.max_election_tick == 0 ==> 2 * self.election_tick <= usize::MAX,
        ensures
            r == self.max_election_tick_spec(),
            self.max_election_tick == 0 ==> r == 2 * self.election_tick,
            self.max_election_tick != 0 ==> r == self.election_tick,
    {
        if self.max_election_tick == 0 {
            2 * self.election_tick
        } else {
            self.election_tick
        }
    }

    /// Checks the settings; the error names the first check that fails.
    pub fn validate(&self) -> (r: Result<()>)
        requires
            self.max_election_tick == 0 ==> 2 * self.election_tick <= usize::MAX,
        ensures
            match r {
                Ok(()) => self.validation_error() is None,
                Err(e) => (e matches Error::ConfigInvalid(m) && self.validation_error() == Some(m@)),
            },
    {
        if self.id == INVALID_ID {
            return Err(Error::ConfigInvalid("invalid node id".to_owned()));
        }
        if self.heartbeat_tick == 0 {
            return Err(Error::ConfigInvalid("heartbeat tick must be greater than 0".to_owned()));
        }
        if self.election_tick <= self.heartbeat_tick {
            return Err(
                Error::ConfigInvalid("election tick must be greater than heartbeat tick".to_owned()),
            );
        }
        let min_timeout = self.min_election_tick();
        let max_timeout = self.max_election_tick();
        if min_timeout < self.election_tick {
            let mut m = String::from_str("min election tick ");
            m.append(decimal_string(min_timeout as u64).as_str());
            m.append(" must not be less than election tick ");
            m.append(decimal_string(self.election_tick as u64).as_str());
            return Err(Error::ConfigInvalid(m));
        }
        if min_timeout >= max_timeout {
            let mut m = String::from_str("min election tick ");
            m.append(decimal_string(min_timeout as u64).as_str());
            m.append(" should be less than max election tick ");
            m.append(decimal_string(max_timeout as u64).as_str());
            return Err(Error::ConfigInvalid(m));
        }
        if self.max_inflight_msgs == 0 {
            return Err(
                Error::ConfigInvalid("max inflight messages must be greater than 0".to_owned()),
            );
        }
        if self.read_only_option == ReadOnlyOption::LeaseBase && !self.check_quorum {
            return Err(
                Error::ConfigInvalid(
                    "read_only_option == LeaseBase requires check_quorum == true".to_owned(),
                ),
            );
        }
        Ok(())
    }
}

} // verus!
