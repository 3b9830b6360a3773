use airp_core::config::check_volume_config;

#[test]
fn default_volume_settings_pass() {
    assert_eq!(check_volume_config(2500, 3500, 20, true, "0.3"), Ok(()));
}

#[test]
fn soft_threshold_must_stay_below_hard() {
    assert_eq!(
        check_volume_config(3500, 3500, 20, true, "0.3"),
        Err("VolumeConfig 不变量违反：soft_threshold_tokens (3500) 必须小于 hard_threshold_tokens (3500)".to_string())
    );
}

#[test]
fn temperature_out_of_range_is_refused() {
    assert_eq!(
        check_volume_config(1, 2, 20, false, "2.5"),
        Err("VolumeConfig.seal_temperature (2.5) 必须在 [0.0, 2.0] 范围内".to_string())
    );
}

#[test]
fn zero_maintenance_interval_is_refused() {
    assert_eq!(
        check_volume_config(1, 2, 0, true, "0.3"),
        Err("VolumeConfig.maintenance_interval 必须 > 0".to_string())
    );
    // the thresholds are checked first
    assert!(check_volume_config(5, 2, 0, false, "9").unwrap_err().contains("soft_threshold_tokens"));
}
