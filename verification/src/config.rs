//! Runtime configuration and the invariants the rest of the miner relies on.
use vstd::prelude::*;
use crate::error::Sv2CpuMinerError;

verus! {

/// Duration of each CPU throttling cycle in milliseconds. The miner works for
/// `cpu_usage_percent` of this window and sleeps for the rest.
pub const CPU_THROTTLE_WINDOW_MS: u64 = 100;

/// Longest string a Str0255 field of the wire format holds, in bytes.
pub const STR0255_MAX_LEN: usize = 255;

/// The settings of one run that the miner's decisions read. The server address, its
/// authority key, the log file and the hashrate multiplier (a float) are kept by the
/// program that loads the file.
pub struct Sv2CpuMinerConfig {
    pub n_extended_channels: u8,
    pub n_standard_channels: u8,
    pub user_identity: String,
    pub device_id: String,
    pub single_submit: bool,
    pub cpu_usage_percent: u64,
    pub requires_standard_jobs: bool,
}

/// Byte length of a string in UTF-8, the unit of the wire format's length prefixes (as
/// `str::len` reports it, a `usize`).
pub open spec fn utf8_len(s: Seq<char>) -> usize {
    vstd::utf8::encode_utf8(s).len() as usize
}

/// The first rule of the configuration that `cfg` breaks, if any, checked in the order
/// CPU usage, standard jobs, channel count, user identity, device id.
pub open spec fn config_error(
    n_extended_channels: u8,
    n_standard_channels: u8,
    user_identity: Seq<char>,
    device_id: Seq<char>,
    cpu_usage_percent: u64,
    requires_standard_jobs: bool,
) -> Option<&'static str> {
    if cpu_usage_percent == 0 || cpu_usage_percent > 100 {
        Some("cpu_usage_percent must be between 1 and 100")
    } else if requires_standard_jobs && n_extended_channels > 0 {
        Some("n_extended_channels must be 0 when requires_standard_jobs is true")
    } else if n_extended_channels as int + n_standard_channels as int == 0 {
        Some("at least one channel must be configured")
    } else if utf8_len(user_identity) > 255 {
        Some("user_identity must be at most 255 bytes")
    } else if utf8_len(device_id) > 255 {
        Some("device_id must be at most 255 bytes")
    } else {
        None
    }
}

/// A configuration is accepted exactly when its CPU share is a percentage in 1..=100, it
/// opens no extended channel while declaring REQUIRES_STANDARD_JOBS, it opens at least one
/// channel of either kind, and its user identity and device id fit a Str0255 (at most 255
/// bytes of UTF-8). Standard-only and extended-only configurations are both accepted.
pub proof fn law_config_accepted_exactly_when_rules_hold(
    n_extended_channels: u8,
    n_standard_channels: u8,
    user_identity: Seq<char>,
    device_id: Seq<char>,
    cpu_usage_percent: u64,
    requires_standard_jobs: bool,
)
    ensures
        config_error(
            n_extended_channels,
            n_standard_channels,
            user_identity,
            device_id,
            cpu_usage_percent,
            requires_standard_jobs,
        ) is None <==> {
            &&& 1 <= cpu_usage_percent <= 100
            &&& !(requires_standard_jobs && n_extended_channels > 0)
            &&& n_extended_channels + n_standard_channels > 0
            &&& utf8_len(user_identity) <= 255
            &&& utf8_len(device_id) <= 255
        },
{
}

impl Sv2CpuMinerConfig {
    /// The first rule this configuration breaks, if any.
    pub open spec fn spec_error(&self) -> Option<&'static str> {
        config_error(
            self.n_extended_channels,
            self.n_standard_channels,
            self.user_identity@,
            self.device_id@,
            self.cpu_usage_percent,
            self.requires_standard_jobs,
        )
    }

    /// Checks the invariants the rest of the miner relies on, such as the Str0255 fields
    /// fitting their wire type and the CPU share being a percentage.
    pub fn validate(&self) -> (r: Result<(), Sv2CpuMinerError>)
        ensures
            match self.spec_error() {
                None => r is Ok,
                Some(msg) => r == Err::<(), Sv2CpuMinerError>(Sv2CpuMinerError::InvalidConfig(msg)),
            },
            r is Ok <==> {
                &&& 1 <= self.cpu_usage_percent <= 100
                &&& !(self.requires_standard_jobs && self.n_extended_channels > 0)
                &&& self.n_extended_channels + self.n_standard_channels > 0
                &&& utf8_len(self.user_identity@) <= 255
                &&& utf8_len(self.device_id@) <= 255
            },
    {
        if self.cpu_usage_percent == 0 || self.cpu_usage_percent > 100 {
            return Err(Sv2CpuMinerError::InvalidConfig(
                "cpu_usage_percent must be between 1 and 100",
            ));
        }
        if self.requires_standard_jobs && self.n_extended_channels > 0 {
            return Err(Sv2CpuMinerError::InvalidConfig(
                "n_extended_channels must be 0 when requires_standard_jobs is true",
            ));
        }
        if self.n_extended_channels == 0 && self.n_standard_channels == 0 {
            return Err(Sv2CpuMinerError::InvalidConfig("at least one channel must be configured"));
        }
        if self.user_identity.as_str().len() > STR0255_MAX_LEN {
            return Err(Sv2CpuMinerError::InvalidConfig("user_identity must be at most 255 bytes"));
        }
        if self.device_id.as_str().len() > STR0255_MAX_LEN {
            return Err(Sv2CpuMinerError::InvalidConfig("device_id must be at most 255 bytes"));
        }
        Ok(())
    }
}

} // verus!
