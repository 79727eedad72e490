use std::time::Duration;

use openraft::AsyncRuntime;
use openraft::CommittedLeaderId;
use openraft::Config;
use openraft::ConfigError;
use openraft::LogId;
use openraft::RuntimeConfig;
use openraft::SnapshotPolicy;
use openraft::ThreadRngRuntime;

use openraft::parse_bytes_with_unit;
use openraft::parse_snapshot_policy;

fn log_id(index: u64) -> LogId<u64> {
    LogId {
        leader_id: CommittedLeaderId { term: 1, node_id: 1 },
        index,
    }
}

#[test]
fn default_values() {
    let config = Config::default();
    assert_eq!(config.cluster_name, "foo");
    assert_eq!(config.election_timeout_min, 150);
    assert_eq!(config.election_timeout_max, 300);
    assert_eq!(config.heartbeat_interval, 50);
    assert_eq!(config.install_snapshot_timeout, 200);
    assert_eq!(config.send_snapshot_timeout, 0);
    assert_eq!(config.max_payload_entries, 300);
    assert_eq!(config.replication_lag_threshold, 5000);
    assert_eq!(Ok(config.snapshot_policy.clone()), parse_snapshot_policy("since_last:5000"));
    assert_eq!(Ok(config.snapshot_max_chunk_size), parse_bytes_with_unit("3MiB"));
    assert_eq!(config.max_in_snapshot_log_to_keep, 1000);
    assert_eq!(config.purge_batch_size, 1);
    assert!(config.enable_tick);
    assert!(config.enable_heartbeat);
    assert!(config.enable_elect);
    assert!(config.validate().is_ok());
}

#[test]
fn a_valid_config_is_handed_out_unchanged() {
    let config = Config {
        cluster_name: "bar".to_string(),
        election_timeout_min: 2,
        election_timeout_max: 3,
        heartbeat_interval: 1,
        max_payload_entries: 1,
        snapshot_policy: SnapshotPolicy::Never,
        enable_tick: false,
        ..Config::default()
    };
    let valid = config.clone().validate().unwrap();
    assert_eq!(format!("{:?}", valid), format!("{:?}", config));
}

#[test]
fn election_timeouts_have_to_be_in_order() {
    for (min, max) in [(300, 300), (301, 300), (0, 0)] {
        let config = Config {
            election_timeout_min: min,
            election_timeout_max: max,
            heartbeat_interval: 1000,
            max_payload_entries: 0,
            ..Config::default()
        };
        assert_eq!(config.validate().unwrap_err(), ConfigError::ElectionTimeout { min, max });
    }
}

#[test]
fn the_heartbeat_has_to_be_faster_than_the_election() {
    for heartbeat_interval in [150, 151] {
        let config = Config {
            heartbeat_interval,
            max_payload_entries: 0,
            ..Config::default()
        };
        assert_eq!(config.validate().unwrap_err(), ConfigError::ElectionTimeoutLTHeartBeat {
            election_timeout_min: 150,
            heartbeat_interval,
        });
    }
}

#[test]
fn a_payload_has_to_have_room() {
    let config = Config {
        max_payload_entries: 0,
        ..Config::default()
    };
    assert_eq!(config.validate().unwrap_err(), ConfigError::MaxPayloadIs0);
}

#[test]
fn the_election_timeout_is_drawn_from_its_range() {
    let config = Config::default();
    for _ in 0..1000 {
        let timeout = config.new_rand_election_timeout::<ThreadRngRuntime>();
        assert!((150..300).contains(&timeout));
        assert!(timeout > config.heartbeat_interval);
    }

    let config = Config {
        election_timeout_min: 7,
        election_timeout_max: 8,
        ..Config::default()
    };
    assert_eq!(config.new_rand_election_timeout::<ThreadRngRuntime>(), 7);
}

#[test]
fn the_election_timeout_is_random() {
    let config = Config {
        election_timeout_min: 0,
        election_timeout_max: u64::MAX,
        ..Config::default()
    };
    let drawn: Vec<u64> = (0..20).map(|_| config.new_rand_election_timeout::<ThreadRngRuntime>()).collect();
    assert!(drawn.iter().any(|timeout| *timeout != drawn[0]));
    assert!(drawn.iter().any(|timeout| *timeout != 0));
}

struct HighestNumber;

impl AsyncRuntime for HighestNumber {
    fn gen_range(_low: u64, high: u64) -> u64 {
        high - 1
    }
}

#[test]
fn the_runtime_draws_the_election_timeout() {
    assert_eq!(Config::default().new_rand_election_timeout::<HighestNumber>(), 299);
}

#[test]
fn snapshot_timeouts() {
    let config = Config::default();
    assert_eq!(config.install_snapshot_timeout().as_millis(), 200);
    assert_eq!(config.send_snapshot_timeout(), Duration::from_millis(200));

    let config = Config {
        install_snapshot_timeout: 1234,
        send_snapshot_timeout: 56,
        ..Config::default()
    };
    assert_eq!(config.install_snapshot_timeout().as_nanos(), 1_234_000_000);
    assert_eq!(config.send_snapshot_timeout().as_nanos(), 56_000_000);
}

#[test]
fn build_keeps_the_arguments_that_were_not_parsed() {
    let args = ["foo", "--election-timeout-min=x", "--über"];
    let err = Config::build(&args, Err("no such option".to_string())).unwrap_err();
    assert_eq!(err, ConfigError::ParseError {
        source: "no such option".to_string(),
        args: vec!["foo".to_string(), "--election-timeout-min=x".to_string(), "--über".to_string()],
    });
}

#[test]
fn build_validates_what_was_parsed() {
    let parsed = Config {
        election_timeout_max: 20,
        ..Config::default()
    };
    assert_eq!(
        Config::build(&["foo", "--election-timeout-max=20"], Ok(parsed)).unwrap_err(),
        ConfigError::ElectionTimeout { min: 150, max: 20 }
    );
    for name in ["foo", "bar"] {
        let config = Config::build(&[name], Ok(Config::default())).unwrap();
        assert_eq!(format!("{:?}", config), format!("{:?}", Config::default()));
    }
}

#[test]
fn the_runtime_config_starts_with_the_config() {
    for (enable_heartbeat, enable_elect) in [(true, true), (true, false), (false, true), (false, false)] {
        let config = Config {
            enable_heartbeat,
            enable_elect,
            ..Config::default()
        };
        assert_eq!(RuntimeConfig::new(&config), RuntimeConfig {
            enable_heartbeat,
            enable_elect,
        });
    }
}

#[test]
fn a_snapshot_is_due_after_the_threshold() {
    let policy = SnapshotPolicy::LogsSinceLast(3);
    assert!(!policy.should_snapshot::<u64>(None, None));
    assert!(!policy.should_snapshot(Some(&log_id(1)), None));
    assert!(policy.should_snapshot(Some(&log_id(2)), None));
    assert!(policy.should_snapshot(Some(&log_id(9)), None));
    assert!(!policy.should_snapshot(Some(&log_id(2)), Some(&log_id(0))));
    assert!(policy.should_snapshot(Some(&log_id(3)), Some(&log_id(0))));
    assert!(!policy.should_snapshot(Some(&log_id(3)), Some(&log_id(3))));

    assert!(SnapshotPolicy::LogsSinceLast(0).should_snapshot::<u64>(None, None));
    assert!(!SnapshotPolicy::Never.should_snapshot(Some(&log_id(u64::MAX)), None));
}

#[test]
fn snapshot_policies_are_read() {
    assert_eq!(parse_snapshot_policy("never"), Ok(SnapshotPolicy::Never));
    for threshold in [0, 1, 9, 10, 5000, u64::MAX] {
        assert_eq!(
            parse_snapshot_policy(&format!("since_last:{}", threshold)),
            Ok(SnapshotPolicy::LogsSinceLast(threshold))
        );
    }
    assert_eq!(parse_snapshot_policy("since_last:+007"), Ok(SnapshotPolicy::LogsSinceLast(7)));
}

#[test]
fn other_snapshot_policies_are_refused() {
    for text in [
        "", "Never", "never ", " never", "never:", "never:1", "since_last", "since_last:1:2", "since_last::1", ":", "::",
        "since_last :1", "SINCE_LAST:1", "since_last:1:", "since:1", "über:1",
    ] {
        assert_eq!(
            parse_snapshot_policy(text),
            Err(ConfigError::InvalidSnapshotPolicy {
                syntax: "never|since_last:<num>".to_string(),
                invalid: text.to_string(),
            })
        );
    }
}

#[test]
fn snapshot_policies_without_a_number_are_refused() {
    for number in [
        "", "+", "-", "-1", "++1", "+-1", "1+", "x", "1x", "x1", " 1", "1 ", "1_000", "0x10", "1.5", "١", "5€",
        "18446744073709551616", "18446744073709551615x", "18446744073709551616x", "99999999999999999999999999x",
        "+18446744073709551616", "184467440737095516150", "00000000000000000000000000000001x",
    ] {
        let text = format!("since_last:{}", number);
        assert_eq!(
            parse_snapshot_policy(&text),
            Err(ConfigError::InvalidNumber {
                invalid: text.clone(),
                reason: number.parse::<u64>().unwrap_err().to_string(),
            })
        );
    }
    let text = "since_last:x";
    assert_eq!(
        parse_snapshot_policy(text),
        Err(ConfigError::InvalidNumber {
            invalid: text.to_string(),
            reason: "invalid digit found in string".to_string(),
        })
    );
}

#[test]
fn numbers_are_read_as_the_standard_library_does() {
    for number in [
        "0", "00", "+0", "7", "+7", "0018446744073709551615", "18446744073709551615", "+18446744073709551615",
        "12345678901234567890", "000000000000000000000000000000000000000000000000000000001",
    ] {
        assert_eq!(
            parse_snapshot_policy(&format!("since_last:{}", number)),
            Ok(SnapshotPolicy::LogsSinceLast(number.parse().unwrap()))
        );
    }
}
