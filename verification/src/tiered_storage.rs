//! Storage tiers: which tier data of a given age belongs in, when it should
//! move on, and where each tier keeps a shard.

use vstd::prelude::*;
use crate::clock::utc_now_seconds;
use crate::text::{dec_nat, path_join, join_path, u64_to_string};

verus! {

/// Where data is stored, from fastest to cheapest.
#[derive(Debug, Clone, Copy, PartialEq, Eq, Structural)]
pub enum StorageTier {
    Hot,
    Warm,
    Cold,
}

/// The position of a tier: hot first.
pub open spec fn tier_rank(t: StorageTier) -> nat {
    match t {
        StorageTier::Hot => 0,
        StorageTier::Warm => 1,
        StorageTier::Cold => 2,
    }
}

/// The name of a tier.
pub open spec fn tier_name(t: StorageTier) -> Seq<char> {
    match t {
        StorageTier::Hot => "hot"@,
        StorageTier::Warm => "warm"@,
        StorageTier::Cold => "cold"@,
    }
}

impl StorageTier {
    /// The tier of a number: one is warm, two is cold, anything else hot.
    pub fn from_u8(v: u8) -> (r: Self)
        ensures
            r == if v == 1 { StorageTier::Warm } else if v == 2 { StorageTier::Cold } else { StorageTier::Hot },
    {
        match v {
            0 => StorageTier::Hot,
            1 => StorageTier::Warm,
            2 => StorageTier::Cold,
            _ => StorageTier::Hot,
        }
    }

    /// The name of the tier.
    pub fn as_str(&self) -> (r: &'static str)
        ensures
            r@ == tier_name(*self),
    {
        match self {
            StorageTier::Hot => "hot",
            StorageTier::Warm => "warm",
            StorageTier::Cold => "cold",
        }
    }

    /// The tier that data moves to from this one, if any.
    pub fn next(&self) -> (r: Option<StorageTier>)
        ensures
            r == match *self {
                StorageTier::Hot => Some(StorageTier::Warm),
                StorageTier::Warm => Some(StorageTier::Cold),
                StorageTier::Cold => None::<StorageTier>,
            },
    {
        match self {
            StorageTier::Hot => Some(StorageTier::Warm),
            StorageTier::Warm => Some(StorageTier::Cold),
            StorageTier::Cold => None,
        }
    }
}

/// How long data stays hot and then warm, and where cold data goes.
#[derive(Debug, Clone)]
pub struct TierConfig {
    pub hot_duration_seconds: u64,
    pub warm_duration_seconds: u64,
    pub cold_enabled: bool,
    pub cold_path: Option<String>,
}

impl Default for TierConfig {
    fn default() -> (r: Self)
        ensures
            r.hot_duration_seconds == 3600,
            r.warm_duration_seconds == 604800,
            !r.cold_enabled,
            r.cold_path is None,
    {
        TierConfig { hot_duration_seconds: 3600, warm_duration_seconds: 604800, cold_enabled: false, cold_path: None }
    }
}

/// The age of data written at `timestamp`, at time `now`: their
/// difference read as unsigned.
pub open spec fn age_at(timestamp: i64, now: i64) -> u64 {
    (now - timestamp) as u64
}

/// The tier of data of an age: hot while younger than `hot`, warm while
/// younger than `hot + warm`, cold after.
pub open spec fn tier_for_age(age: u64, hot: u64, warm: u64) -> StorageTier {
    if age < hot {
        StorageTier::Hot
    } else if age < hot + warm {
        StorageTier::Warm
    } else {
        StorageTier::Cold
    }
}

/// Whether data of an age has outlived a tier: never the hot tier, the
/// warm tier from `hot + warm`, always the cold tier.
pub open spec fn tier_expired(age: u64, hot: u64, warm: u64, tier: StorageTier) -> bool {
    match tier {
        StorageTier::Hot => false,
        StorageTier::Warm => age >= hot + warm,
        StorageTier::Cold => true,
    }
}

/// Whether data of an age should move on from a tier: from hot once it is
/// `hot` old, from warm once it is `hot + warm` old, never from cold.
pub open spec fn migration_due(age: u64, hot: u64, warm: u64, tier: StorageTier) -> bool {
    match tier {
        StorageTier::Hot => age >= hot,
        StorageTier::Warm => age >= hot + warm,
        StorageTier::Cold => false,
    }
}

impl TierConfig {
    /// A configuration without a cold tier.
    pub fn new(hot_duration_seconds: u64, warm_duration_seconds: u64) -> (r: Self)
        ensures
            r.hot_duration_seconds == hot_duration_seconds,
            r.warm_duration_seconds == warm_duration_seconds,
            !r.cold_enabled,
            r.cold_path is None,
    {
        TierConfig { hot_duration_seconds, warm_duration_seconds, cold_enabled: false, cold_path: None }
    }

    /// The same configuration with the cold tier switched on or off.
    pub fn with_cold_enabled(self, enabled: bool) -> (r: Self)
        ensures
            r == (TierConfig { cold_enabled: enabled, ..self }),
    {
        TierConfig { cold_enabled: enabled, ..self }
    }

    /// The same configuration with a cold directory.
    pub fn with_cold_path(self, path: String) -> (r: Self)
        ensures
            r == (TierConfig { cold_path: Some(path), ..self }),
    {
        TierConfig { cold_path: Some(path), ..self }
    }

    /// The tier of data written at `timestamp`, at time `now`.
    pub fn get_tier_for_timestamp(&self, timestamp: i64, now: i64) -> (r: StorageTier)
        requires
            i64::MIN <= now - timestamp <= i64::MAX,
            self.hot_duration_seconds + self.warm_duration_seconds <= u64::MAX,
        ensures
            r == tier_for_age(age_at(timestamp, now), self.hot_duration_seconds, self.warm_duration_seconds),
    {
        let age_seconds = (now - timestamp) as u64;
        if age_seconds < self.hot_duration_seconds {
            return StorageTier::Hot;
        }
        if age_seconds < self.hot_duration_seconds + self.warm_duration_seconds {
            return StorageTier::Warm;
        }
        StorageTier::Cold
    }

    /// Whether data written at `timestamp` has outlived a tier at `now`.
    pub fn is_tier_expired(&self, timestamp: i64, now: i64, tier: StorageTier) -> (r: bool)
        requires
            i64::MIN <= now - timestamp <= i64::MAX,
            tier == StorageTier::Warm ==> self.hot_duration_seconds + self.warm_duration_seconds <= u64::MAX,
        ensures
            r == tier_expired(age_at(timestamp, now), self.hot_duration_seconds, self.warm_duration_seconds, tier),
    {
        let age_seconds = (now - timestamp) as u64;
        match tier {
            StorageTier::Hot => false,
            StorageTier::Warm => age_seconds >= self.hot_duration_seconds + self.warm_duration_seconds,
            StorageTier::Cold => true,
        }
    }

    /// Whether data written at `timestamp` should move on from a tier at
    /// `now`.
    pub fn should_migrate_at(&self, timestamp: i64, current_tier: StorageTier, now: i64) -> (r: bool)
        requires
            current_tier != StorageTier::Cold ==> i64::MIN <= now - timestamp <= i64::MAX,
            current_tier == StorageTier::Warm ==> self.hot_duration_seconds + self.warm_duration_seconds <= u64::MAX,
        ensures
            r == migration_due(age_at(timestamp, now), self.hot_duration_seconds, self.warm_duration_seconds, current_tier),
    {
        if current_tier.next().is_some() {
            let age_seconds = (now - timestamp) as u64;
            match current_tier {
                StorageTier::Hot => age_seconds >= self.hot_duration_seconds,
                StorageTier::Warm => age_seconds >= self.hot_duration_seconds + self.warm_duration_seconds,
                StorageTier::Cold => false,
            }
        } else {
            false
        }
    }
}

/// Places shards in tiers.
pub struct TieredStorageManager {
    config: TierConfig,
    data_dir: String,
}

impl TieredStorageManager {
    /// The configuration.
    pub closed spec fn spec_config(&self) -> TierConfig {
        self.config
    }

    /// The directory of the hot and warm tiers.
    pub closed spec fn spec_data_dir(&self) -> Seq<char> {
        self.data_dir@
    }

    /// A manager over the given directory.
    pub fn new(data_dir: String, config: TierConfig) -> (r: Self)
        ensures
            r.spec_config() == config,
            r.spec_data_dir() == data_dir@,
    {
        TieredStorageManager { data_dir, config }
    }

    /// The directory of a shard in a tier: under the data directory for
    /// the hot and warm tiers; under the cold directory, or the data
    /// directory's `cold` subdirectory when there is none, for the cold
    /// tier.
    pub fn get_tier_path(&self, tier: StorageTier, db: &str, rp: &str, shard_id: u64) -> (r: String)
        ensures
            r@ == path_join(path_join(path_join(
                match tier {
                    StorageTier::Cold => match self.spec_config().cold_path {
                        Some(c) => c@,
                        None => path_join(self.spec_data_dir(), "cold"@),
                    },
                    _ => self.spec_data_dir(),
                }, db@), rp@), dec_nat(shard_id as nat)),
    {
        let base = match tier {
            StorageTier::Hot | StorageTier::Warm => self.data_dir.clone(),
            StorageTier::Cold => match &self.config.cold_path {
                Some(cold_path) => cold_path.clone(),
                None => join_path(self.data_dir.as_str(), "cold"),
            },
        };
        let a = join_path(base.as_str(), db);
        let b = join_path(a.as_str(), rp);
        let id = u64_to_string(shard_id);
        join_path(b.as_str(), id.as_str())
    }

    /// The tier of data written at `timestamp`, now by the UTC clock; when
    /// the age does not fit in `i64`, its difference wraps.
    pub fn determine_tier(&self, timestamp: i64) -> (r: StorageTier)
        requires
            self.spec_config().hot_duration_seconds + self.spec_config().warm_duration_seconds <= u64::MAX,
        ensures
            exists|now: i64| r == tier_for_age(now.wrapping_sub(timestamp) as u64,
                self.spec_config().hot_duration_seconds, self.spec_config().warm_duration_seconds),
    {
        let now = utc_now_seconds();
        let age = now.wrapping_sub(timestamp) as u64;
        let r = if age < self.config.hot_duration_seconds {
            StorageTier::Hot
        } else if age < self.config.hot_duration_seconds + self.config.warm_duration_seconds {
            StorageTier::Warm
        } else {
            StorageTier::Cold
        };
        assert(r == tier_for_age(now.wrapping_sub(timestamp) as u64,
            self.spec_config().hot_duration_seconds, self.spec_config().warm_duration_seconds));
        r
    }

    /// Whether data written at `timestamp` should move on from a tier, now
    /// by the UTC clock; when the age does not fit in `i64`, its difference
    /// wraps.
    pub fn should_migrate_to_next_tier(&self, timestamp: i64, current_tier: StorageTier) -> (r: bool)
        requires
            current_tier == StorageTier::Warm ==> self.spec_config().hot_duration_seconds + self.spec_config().warm_duration_seconds <= u64::MAX,
        ensures
            exists|now: i64| r == migration_due(now.wrapping_sub(timestamp) as u64,
                self.spec_config().hot_duration_seconds, self.spec_config().warm_duration_seconds, current_tier),
    {
        let now = utc_now_seconds();
        let age = now.wrapping_sub(timestamp) as u64;
        let r = match current_tier {
            StorageTier::Hot => age >= self.config.hot_duration_seconds,
            StorageTier::Warm => age >= self.config.hot_duration_seconds + self.config.warm_duration_seconds,
            StorageTier::Cold => false,
        };
        assert(r == migration_due(now.wrapping_sub(timestamp) as u64,
            self.spec_config().hot_duration_seconds, self.spec_config().warm_duration_seconds, current_tier));
        r
    }

    /// The configuration.
    pub fn get_config(&self) -> (r: &TierConfig)
        ensures
            *r == self.spec_config(),
    {
        &self.config
    }

    /// Whether the cold tier is switched on.
    pub fn is_cold_enabled(&self) -> (r: bool)
        ensures
            r == self.spec_config().cold_enabled,
    {
        self.config.cold_enabled
    }
}

/// Older data never sits in a hotter tier: the tier of an age grows with
/// the age.
pub proof fn law_tier_grows_with_age(a: u64, b: u64, hot: u64, warm: u64)
    requires
        a <= b,
    ensures
        tier_rank(tier_for_age(a, hot, warm)) <= tier_rank(tier_for_age(b, hot, warm)),
{
}

/// Data should move on from a tier exactly when its tier by age lies past
/// that tier.
pub proof fn law_migration_matches_tier(age: u64, hot: u64, warm: u64, tier: StorageTier)
    ensures
        migration_due(age, hot, warm, tier) <==> tier_rank(tier_for_age(age, hot, warm)) > tier_rank(tier),
{
}

} // verus!
