//! The configuration of a Raft node.

use std::time::Duration;

use vstd::prelude::*;

use crate::error::ConfigError;
use crate::snapshot_policy::SnapshotPolicy;
use crate::type_config::AsyncRuntime;

verus! {

/// The duration that `Duration::from_millis` gives for a number of milliseconds.
pub uninterp spec fn millis(n: u64) -> Duration;

/// `Duration::from_millis` gives the duration of `n` milliseconds, always the same for one `n`.
/// There is no way to look inside a `Duration` here, so the result has a name instead.
pub assume_specification[ Duration::from_millis ](n: u64) -> (r: Duration)
    ensures
        r == millis(n),
;

/// The configuration of a Raft node.
///
/// The time that a message takes to all nodes and back should be well below the election timeout,
/// and the election timeout well below the time between two failures of a node.
#[derive(Debug)]
pub struct Config {
    /// The name of the cluster, for the application.
    pub cluster_name: String,
    /// The minimum election timeout in milliseconds.
    pub election_timeout_min: u64,
    /// The maximum election timeout in milliseconds.
    pub election_timeout_max: u64,
    /// The interval in milliseconds at which a leader sends heartbeats to its followers.
    pub heartbeat_interval: u64,
    /// The timeout in milliseconds for sending and installing the last segment of a snapshot, and
    /// for sending any other segment if `send_snapshot_timeout` is 0.
    pub install_snapshot_timeout: u64,
    /// The timeout in milliseconds for sending a segment of a snapshot that is not the last one.
    /// 0 switches it off.
    pub send_snapshot_timeout: u64,
    /// The maximum number of entries that are sent to a follower at once.
    pub max_payload_entries: u64,
    /// How far a follower may fall behind before it is sent a snapshot instead of log entries.
    ///
    /// It should be greater than the number of logs in `snapshot_policy`, otherwise a snapshot may
    /// not be enough to catch up.
    pub replication_lag_threshold: u64,
    /// When to build a snapshot.
    pub snapshot_policy: SnapshotPolicy,
    /// The maximum size in bytes of a chunk of a snapshot.
    pub snapshot_max_chunk_size: u64,
    /// The maximum number of logs to keep that are already in a snapshot. A log that is in no
    /// snapshot is never purged.
    pub max_in_snapshot_log_to_keep: u64,
    /// The minimum number of applied logs to purge at once.
    pub purge_batch_size: u64,
    /// Whether time passes for this node. If not, it sends no heartbeats and starts no elections.
    pub enable_tick: bool,
    /// Whether a leader sends heartbeats.
    pub enable_heartbeat: bool,
    /// Whether a follower starts an election if it has not heard of the leader for a while.
    pub enable_elect: bool,
}

impl Clone for Config {
    fn clone(&self) -> (r: Self)
        ensures
            r == *self,
    {
        Config {
            cluster_name: self.cluster_name.clone(),
            election_timeout_min: self.election_timeout_min,
            election_timeout_max: self.election_timeout_max,
            heartbeat_interval: self.heartbeat_interval,
            install_snapshot_timeout: self.install_snapshot_timeout,
            send_snapshot_timeout: self.send_snapshot_timeout,
            max_payload_entries: self.max_payload_entries,
            replication_lag_threshold: self.replication_lag_threshold,
            snapshot_policy: self.snapshot_policy.clone(),
            snapshot_max_chunk_size: self.snapshot_max_chunk_size,
            max_in_snapshot_log_to_keep: self.max_in_snapshot_log_to_keep,
            purge_batch_size: self.purge_batch_size,
            enable_tick: self.enable_tick,
            enable_heartbeat: self.enable_heartbeat,
            enable_elect: self.enable_elect,
        }
    }
}

impl Default for Config {
    /// The configuration for a cluster whose nodes are close to each other.
    fn default() -> (r: Self)
        ensures
            r.cluster_name@ == "foo"@,
            r.election_timeout_min == 150,
            r.election_timeout_max == 300,
            r.heartbeat_interval == 50,
            r.install_snapshot_timeout == 200,
            r.send_snapshot_timeout == 0,
            r.max_payload_entries == 300,
            r.replication_lag_threshold == 5000,
            r.snapshot_policy == SnapshotPolicy::LogsSinceLast(5000),
            r.snapshot_max_chunk_size == 3 * 1024 * 1024,
            r.max_in_snapshot_log_to_keep == 1000,
            r.purge_batch_size == 1,
            r.enable_tick,
            r.enable_heartbeat,
            r.enable_elect,
            r.is_valid(),
    {
        Config {
            cluster_name: "foo".to_owned(),
            election_timeout_min: 150,
            election_timeout_max: 300,
            heartbeat_interval: 50,
            install_snapshot_timeout: 200,
            send_snapshot_timeout: 0,
            max_payload_entries: 300,
            replication_lag_threshold: 5000,
            snapshot_policy: SnapshotPolicy::LogsSinceLast(5000),
            snapshot_max_chunk_size: 3 * 1024 * 1024,
            max_in_snapshot_log_to_keep: 1000,
            purge_batch_size: 1,
            enable_tick: true,
            enable_heartbeat: true,
            enable_elect: true,
        }
    }
}

impl Config {
    /// The timeouts are in their order, and a payload has room for an entry.
    pub open spec fn is_valid(&self) -> bool {
        &&& self.heartbeat_interval < self.election_timeout_min < self.election_timeout_max
        &&& self.max_payload_entries > 0
    }

    /// The first fault of the configuration, or the configuration itself if there is none.
    pub open spec fn validated(self) -> Result<Config, ConfigError> {
        if self.election_timeout_min >= self.election_timeout_max {
            Err(
                ConfigError::ElectionTimeout {
                    min: self.election_timeout_min,
                    max: self.election_timeout_max,
                },
            )
        } else if self.election_timeout_min <= self.heartbeat_interval {
            Err(
                ConfigError::ElectionTimeoutLTHeartBeat {
                    election_timeout_min: self.election_timeout_min,
                    heartbeat_interval: self.heartbeat_interval,
                },
            )
        } else if self.max_payload_entries == 0 {
            Err(ConfigError::MaxPayloadIs0)
        } else {
            Ok(self)
        }
    }

    /// Draw an election timeout in milliseconds, from the minimum to below the maximum.
    pub fn new_rand_election_timeout<RT: AsyncRuntime>(&self) -> (r: u64)
        requires
            self.election_timeout_min < self.election_timeout_max,
        ensures
            call_ensures(RT::gen_range, (self.election_timeout_min, self.election_timeout_max), r),
            self.election_timeout_min <= r < self.election_timeout_max,
            self.is_valid() ==> r > self.heartbeat_interval,
            self.heartbeat_interval < self.election_timeout_min ==> r > self.heartbeat_interval,
    {
        RT::gen_range(self.election_timeout_min, self.election_timeout_max)
    }

    /// The timeout for sending and installing the last segment of a snapshot.
    pub fn install_snapshot_timeout(&self) -> (r: Duration)
        ensures
            r == millis(self.install_snapshot_timeout),
    {
        Duration::from_millis(self.install_snapshot_timeout)
    }

    /// The timeout for sending a segment of a snapshot that is not the last one.
    pub fn send_snapshot_timeout(&self) -> (r: Duration)
        ensures
            r == millis(
                if self.send_snapshot_timeout > 0 {
                    self.send_snapshot_timeout
                } else {
                    self.install_snapshot_timeout
                },
            ),
    {
        if self.send_snapshot_timeout > 0 {
            Duration::from_millis(self.send_snapshot_timeout)
        } else {
            self.install_snapshot_timeout()
        }
    }

    /// Finish the configuration that command line arguments were parsed into.
    ///
    /// `parsed` is what the parser made of `args`: the configuration, or the reason why there is
    /// none. How the parser reads `args` is not said here. On the arguments themselves only the
    /// error depends, which keeps them.
    pub fn build(args: &[&str], parsed: Result<Config, String>) -> (r: Result<Config, ConfigError>)
        ensures
            match parsed {
                Ok(config) => r == config.validated(),
                Err(reason) => {
                    &&& r matches Err(ConfigError::ParseError { source, args: kept })
                    &&& source == reason
                    &&& kept@.len() == args@.len()
                    &&& forall|i: int| 0 <= i < args@.len() ==> (#[trigger] kept@[i])@ == args@[i]@
                },
            },
            r is Ok <==> parsed is Ok && parsed->Ok_0.is_valid(),
            r matches Ok(config) ==> parsed == Ok::<Config, String>(config),
    {
        match parsed {
            Ok(config) => config.validate(),
            Err(source) => {
                let mut kept: Vec<String> = Vec::new();
                for i in 0..args.len()
                    invariant
                        kept@.len() == i,
                        forall|k: int| 0 <= k < i ==> (#[trigger] kept@[k])@ == args@[k]@,
                {
                    kept.push(args[i].to_owned());
                }
                Err(ConfigError::ParseError { source, args: kept })
            },
        }
    }

    /// Hand out the configuration if it is valid, otherwise say what its first fault is.
    pub fn validate(self) -> (r: Result<Config, ConfigError>)
        ensures
            r == self.validated(),
            r is Ok <==> self.is_valid(),
            r is Ok <==> self.heartbeat_interval < self.election_timeout_min
                && self.election_timeout_min < self.election_timeout_max && self.max_payload_entries
                > 0,
            r matches Ok(config) ==> config == self,
    {
        if self.election_timeout_min >= self.election_timeout_max {
            return Err(
                ConfigError::ElectionTimeout {
                    min: self.election_timeout_min,
                    max: self.election_timeout_max,
                },
            );
        }
        if self.election_timeout_min <= self.heartbeat_interval {
            return Err(
                ConfigError::ElectionTimeoutLTHeartBeat {
                    election_timeout_min: self.election_timeout_min,
                    heartbeat_interval: self.heartbeat_interval,
                },
            );
        }
        if self.max_payload_entries == 0 {
            return Err(ConfigError::MaxPayloadIs0);
        }
        Ok(self)
    }
}

/// The part of a configuration that can be changed while the node runs.
#[derive(Clone, Copy, Debug, PartialEq, Eq)]
pub struct RuntimeConfig {
    /// Whether a leader sends heartbeats.
    pub enable_heartbeat: bool,
    /// Whether a follower starts elections.
    pub enable_elect: bool,
}

impl RuntimeConfig {
    /// What a node starts with.
    pub fn new(config: &Config) -> (r: Self)
        ensures
            r.enable_heartbeat == config.enable_heartbeat,
            r.enable_elect == config.enable_elect,
    {
        RuntimeConfig {
            enable_heartbeat: config.enable_heartbeat,
            enable_elect: config.enable_elect,
        }
    }
}

/// A configuration that is valid is handed out as it is, in every field.
pub proof fn law_validation_changes_nothing(config: Config, r: Result<Config, ConfigError>)
    requires
        call_ensures(Config::validate, (config,), r),
    ensures
        r matches Ok(valid) ==> {
            &&& valid == config
            &&& valid.cluster_name@ == config.cluster_name@
            &&& valid.election_timeout_min == config.election_timeout_min
            &&& valid.election_timeout_max == config.election_timeout_max
            &&& valid.heartbeat_interval == config.heartbeat_interval
            &&& valid.install_snapshot_timeout == config.install_snapshot_timeout
            &&& valid.send_snapshot_timeout == config.send_snapshot_timeout
            &&& valid.max_payload_entries == config.max_payload_entries
            &&& valid.replication_lag_threshold == config.replication_lag_threshold
            &&& valid.snapshot_policy == config.snapshot_policy
            &&& valid.snapshot_max_chunk_size == config.snapshot_max_chunk_size
            &&& valid.max_in_snapshot_log_to_keep == config.max_in_snapshot_log_to_keep
            &&& valid.purge_batch_size == config.purge_batch_size
            &&& valid.enable_tick == config.enable_tick
            &&& valid.enable_heartbeat == config.enable_heartbeat
            &&& valid.enable_elect == config.enable_elect
        },
{
}

/// A copy of a configuration is the same configuration.
pub proof fn law_copied_configuration_is_the_same(config: Config, r: Config)
    requires
        call_ensures(Config::clone, (&config,), r),
    ensures
        r == config,
{
}

/// A configuration is valid exactly if the heartbeat interval is below the minimum election
/// timeout, that below the maximum, and a payload has room for an entry. Of several faults the
/// timeouts come first, then the heartbeat, then the payload, each with the values at fault.
pub proof fn law_faults_of_a_configuration(config: Config, r: Result<Config, ConfigError>)
    requires
        call_ensures(Config::validate, (config,), r),
    ensures
        r is Ok <==> config.heartbeat_interval < config.election_timeout_min
            && config.election_timeout_min < config.election_timeout_max
            && config.max_payload_entries != 0,
        config.election_timeout_min >= config.election_timeout_max <==> r == Err::<Config, ConfigError>(
            ConfigError::ElectionTimeout {
                min: config.election_timeout_min,
                max: config.election_timeout_max,
            },
        ),
        config.election_timeout_min < config.election_timeout_max && config.election_timeout_min
            <= config.heartbeat_interval <==> r == Err::<Config, ConfigError>(
            ConfigError::ElectionTimeoutLTHeartBeat {
                election_timeout_min: config.election_timeout_min,
                heartbeat_interval: config.heartbeat_interval,
            },
        ),
        config.heartbeat_interval < config.election_timeout_min && config.election_timeout_min
            < config.election_timeout_max && config.max_payload_entries == 0 <==> r == Err::<
            Config,
            ConfigError,
        >(ConfigError::MaxPayloadIs0),
{
}

/// A configuration that was parsed is built exactly as it is validated, whatever the arguments.
pub proof fn law_build_validates(
    args: &[&str],
    config: Config,
    built: Result<Config, ConfigError>,
    validated: Result<Config, ConfigError>,
)
    requires
        call_ensures(Config::build, (args, Ok(config)), built),
        call_ensures(Config::validate, (config,), validated),
    ensures
        built == validated,
        built matches Ok(valid) ==> valid == config,
{
}

/// Where there is nothing to parse into a configuration, the error says why, and for which
/// arguments.
pub proof fn law_build_reports_what_was_not_parsed(
    args: &[&str],
    reason: String,
    r: Result<Config, ConfigError>,
)
    requires
        call_ensures(Config::build, (args, Err(reason)), r),
    ensures
        r is Err,
        r->Err_0 is ParseError,
        r->Err_0->source@ == reason@,
        r->Err_0->args@.len() == args@.len(),
        forall|i: int| 0 <= i < args@.len() ==> (#[trigger] r->Err_0->args@[i])@ == args@[i]@,
{
}

/// The default configuration is valid, and its election timeouts are above its heartbeat interval.
pub proof fn law_default_is_valid<RT: AsyncRuntime>(
    config: Config,
    r: Result<Config, ConfigError>,
    timeout: u64,
)
    requires
        call_ensures(Config::default, (), config),
        call_ensures(Config::validate, (config,), r),
        call_ensures(Config::new_rand_election_timeout::<RT>, (&config,), timeout),
    ensures
        r == Ok::<Config, ConfigError>(config),
        config.heartbeat_interval < timeout < config.election_timeout_max,
        config.election_timeout_min <= timeout,
{
}

/// The timeout for other segments than the last is the one that is set for them. Without one it is
/// the timeout for the last segment.
pub proof fn law_last_segment_timeout_is_the_fallback(config: Config, send: Duration, install: Duration)
    requires
        call_ensures(Config::send_snapshot_timeout, (&config,), send),
        call_ensures(Config::install_snapshot_timeout, (&config,), install),
    ensures
        install == millis(config.install_snapshot_timeout),
        config.send_snapshot_timeout == 0 ==> send == install,
        config.send_snapshot_timeout != 0 ==> send == millis(config.send_snapshot_timeout),
{
}

/// A node starts with the switches of its configuration.
pub proof fn law_runtime_config_starts_as_configured(config: Config, r: RuntimeConfig)
    requires
        call_ensures(RuntimeConfig::new, (&config,), r),
    ensures
        r.enable_heartbeat == config.enable_heartbeat,
        r.enable_elect == config.enable_elect,
{
}

/// The election timeout that is drawn is in the configured range, and is the runtime's draw.
pub proof fn law_election_timeout_is_in_range<RT: AsyncRuntime>(config: Config, r: u64)
    requires
        call_ensures(Config::new_rand_election_timeout::<RT>, (&config,), r),
    ensures
        config.election_timeout_min <= r,
        r < config.election_timeout_max,
        call_ensures(RT::gen_range, (config.election_timeout_min, config.election_timeout_max), r),
{
}

} // verus!
