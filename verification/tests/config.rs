use cpu_miner_sv2::config::Sv2CpuMinerConfig;
use cpu_miner_sv2::error::Sv2CpuMinerError;

fn valid_config() -> Sv2CpuMinerConfig {
    Sv2CpuMinerConfig {
        n_extended_channels: 1,
        n_standard_channels: 1,
        user_identity: "user".to_string(),
        device_id: "cpu_miner_sv2".to_string(),
        single_submit: false,
        cpu_usage_percent: 100,
        requires_standard_jobs: false,
    }
}

#[test]
fn accepts_valid_config() {
    assert!(valid_config().validate().is_ok());
}

#[test]
fn config_rejects_user_identity_over_255_bytes() {
    let config = Sv2CpuMinerConfig {
        user_identity: "x".repeat(256),
        ..valid_config()
    };
    assert!(matches!(
        config.validate(),
        Err(Sv2CpuMinerError::InvalidConfig(msg)) if msg.contains("user_identity")
    ));
}

#[test]
fn rejects_extended_channels_when_standard_jobs_are_required() {
    let config = Sv2CpuMinerConfig {
        requires_standard_jobs: true,
        n_extended_channels: 1,
        ..valid_config()
    };
    assert!(matches!(
        config.validate(),
        Err(Sv2CpuMinerError::InvalidConfig(msg)) if msg.contains("requires_standard_jobs")
    ));
}

#[test]
fn accepts_user_identity_of_exactly_255_bytes() {
    let config = Sv2CpuMinerConfig {
        user_identity: "x".repeat(255),
        ..valid_config()
    };
    assert!(config.validate().is_ok());
}

#[test]
fn counts_user_identity_in_utf8_bytes_not_chars() {
    // 128 two-byte characters: 128 chars, 256 bytes
    let config = Sv2CpuMinerConfig {
        user_identity: "é".repeat(128),
        ..valid_config()
    };
    assert!(matches!(
        config.validate(),
        Err(Sv2CpuMinerError::InvalidConfig(msg)) if msg.contains("user_identity")
    ));
}

#[test]
fn rejects_device_id_over_255_bytes() {
    let config = Sv2CpuMinerConfig {
        device_id: "d".repeat(256),
        ..valid_config()
    };
    assert!(matches!(
        config.validate(),
        Err(Sv2CpuMinerError::InvalidConfig(msg)) if msg.contains("device_id")
    ));
}

#[test]
fn rejects_cpu_usage_outside_1_to_100() {
    for cpu_usage_percent in [0, 101, u64::MAX] {
        let config = Sv2CpuMinerConfig {
            cpu_usage_percent,
            ..valid_config()
        };
        assert!(matches!(
            config.validate(),
            Err(Sv2CpuMinerError::InvalidConfig(msg)) if msg.contains("cpu_usage_percent")
        ));
    }
    for cpu_usage_percent in [1, 50, 100] {
        let config = Sv2CpuMinerConfig {
            cpu_usage_percent,
            ..valid_config()
        };
        assert!(config.validate().is_ok());
    }
}

#[test]
fn rejects_a_config_without_channels() {
    let config = Sv2CpuMinerConfig {
        n_extended_channels: 0,
        n_standard_channels: 0,
        ..valid_config()
    };
    assert!(matches!(
        config.validate(),
        Err(Sv2CpuMinerError::InvalidConfig(msg)) if msg.contains("channel")
    ));
}

#[test]
fn cpu_usage_is_checked_before_the_identity() {
    let config = Sv2CpuMinerConfig {
        cpu_usage_percent: 0,
        user_identity: "x".repeat(300),
        ..valid_config()
    };
    assert!(matches!(
        config.validate(),
        Err(Sv2CpuMinerError::InvalidConfig(msg)) if msg.contains("cpu_usage_percent")
    ));
}
