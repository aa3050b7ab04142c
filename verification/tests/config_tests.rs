use rs_raft::config::Config;
use rs_raft::read_only::ReadOnlyOption;
use rs_raft::Error;

fn message(r: rs_raft::Result<()>) -> String {
    match r {
        Err(Error::ConfigInvalid(m)) => m,
        Err(_) => panic!("unexpected error kind"),
        Ok(()) => panic!("expected an error"),
    }
}

fn valid_config() -> Config {
    let mut c = Config::default();
    c.id = 1;
    c.min_election_tick = 20;
    c
}

#[test]
fn default_config_values() {
    let c = Config::default();
    assert_eq!(c.id, 0);
    assert_eq!(c.election_tick, 20);
    assert_eq!(c.heartbeat_tick, 2);
    assert_eq!(c.max_inflight_msgs, 256);
    assert_eq!(c.min_election_tick, 0);
    assert_eq!(c.max_election_tick, 0);
    assert_eq!(c.read_only_option, ReadOnlyOption::Safe);
    assert!(c.peers.is_empty());
    assert!(c.learners.is_empty());
    assert_eq!(c.tag, "");
}

#[test]
fn new_config_tags_with_id_and_keeps_id_zero() {
    let c = Config::new(42);
    assert_eq!(c.tag, "42");
    assert_eq!(c.id, 0);
    assert_eq!(Config::new(0).tag, "0");
    assert_eq!(Config::new(u64::MAX).tag, "18446744073709551615");
    assert_eq!(c.election_tick, 20);
}

#[test]
fn election_tick_bounds() {
    let mut c = Config::default();
    assert_eq!(c.min_election_tick(), 0);
    assert_eq!(c.max_election_tick(), 40);
    c.min_election_tick = 25;
    c.max_election_tick = 30;
    assert_eq!(c.min_election_tick(), 25);
    assert_eq!(c.max_election_tick(), 20);
    c.election_tick = 0;
    assert_eq!(c.min_election_tick(), 0);
    assert_eq!(c.max_election_tick(), 0);
}

#[test]
fn validate_accepts_valid_config() {
    let c = valid_config();
    assert!(c.validate().is_ok());
    // the ticks of a valid config are ordered
    assert!(0 < c.heartbeat_tick && c.heartbeat_tick < c.election_tick);
    assert!(c.election_tick <= c.min_election_tick() && c.min_election_tick() < c.max_election_tick());
}

#[test]
fn validate_rejects_invalid_id() {
    let mut c = valid_config();
    c.id = 0;
    assert_eq!(message(c.validate()), "invalid node id");
}

#[test]
fn validate_rejects_zero_heartbeat() {
    let mut c = valid_config();
    c.heartbeat_tick = 0;
    assert_eq!(message(c.validate()), "heartbeat tick must be greater than 0");
}

#[test]
fn validate_rejects_election_not_above_heartbeat() {
    let mut c = valid_config();
    c.election_tick = 2;
    assert_eq!(message(c.validate()), "election tick must be greater than heartbeat tick");
}

#[test]
fn validate_rejects_min_below_election() {
    let mut c = valid_config();
    c.min_election_tick = 0;
    assert_eq!(
        message(c.validate()),
        "min election tick 0 must not be less than election tick 20"
    );
}

#[test]
fn validate_rejects_min_not_below_max() {
    let mut c = valid_config();
    c.min_election_tick = 40;
    assert_eq!(
        message(c.validate()),
        "min election tick 40 should be less than max election tick 40"
    );
    let mut d = valid_config();
    d.max_election_tick = 5;
    assert_eq!(
        message(d.validate()),
        "min election tick 20 should be less than max election tick 20"
    );
}

#[test]
fn validate_rejects_zero_inflight() {
    let mut c = valid_config();
    c.max_inflight_msgs = 0;
    assert_eq!(message(c.validate()), "max inflight messages must be greater than 0");
}

#[test]
fn validate_rejects_lease_without_quorum_check() {
    let mut c = valid_config();
    c.read_only_option = ReadOnlyOption::LeaseBase;
    assert_eq!(
        message(c.validate()),
        "read_only_option == LeaseBase requires check_quorum == true"
    );
    c.check_quorum = true;
    assert!(c.validate().is_ok());
}

#[test]
fn read_only_option_default_is_safe() {
    assert_eq!(ReadOnlyOption::default(), ReadOnlyOption::Safe);
}
