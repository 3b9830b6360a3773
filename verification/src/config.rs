//! The invariants of the volume settings.
//!
//! The settings hold a floating-point temperature, which stays with the
//! caller: it tests the range and formats the value, and hands both in.
use vstd::prelude::*;
use crate::text::{decimal, push_decimal, push_str};

verus! {

/// Why the volume settings are refused, if they are: the soft threshold must
/// lie below the hard one, the sealing temperature must lie in `[0.0, 2.0]`,
/// and maintenance must run at some interval; the first broken rule wins.
pub open spec fn volume_config_error(
    soft: nat,
    hard: nat,
    interval: nat,
    temperature_ok: bool,
    temperature_text: Seq<char>,
) -> Option<Seq<char>> {
    if soft >= hard {
        Some("VolumeConfig 不变量违反：soft_threshold_tokens ("@ + decimal(soft)
            + ") 必须小于 hard_threshold_tokens ("@ + decimal(hard) + ")"@)
    } else if !temperature_ok {
        Some("VolumeConfig.seal_temperature ("@ + temperature_text + ") 必须在 [0.0, 2.0] 范围内"@)
    } else if interval == 0 {
        Some("VolumeConfig.maintenance_interval 必须 > 0"@)
    } else {
        None
    }
}

/// Checks the volume settings (see [`volume_config_error`]).
pub fn check_volume_config(
    soft_threshold_tokens: usize,
    hard_threshold_tokens: usize,
    maintenance_interval: u32,
    temperature_ok: bool,
    temperature_text: &str,
) -> (r: Result<(), String>)
    ensures
        match volume_config_error(
            soft_threshold_tokens as nat,
            hard_threshold_tokens as nat,
            maintenance_interval as nat,
            temperature_ok,
            temperature_text@,
        ) {
            Some(m) => r matches Err(e) && e@ == m,
            None => r is Ok,
        },
{
    if soft_threshold_tokens >= hard_threshold_tokens {
        let mut m = String::new();
        push_str(&mut m, "VolumeConfig 不变量违反：soft_threshold_tokens (");
        push_decimal(&mut m, soft_threshold_tokens as u64);
        push_str(&mut m, ") 必须小于 hard_threshold_tokens (");
        push_decimal(&mut m, hard_threshold_tokens as u64);
        push_str(&mut m, ")");
        return Err(m);
    }
    if !temperature_ok {
        let mut m = String::new();
        push_str(&mut m, "VolumeConfig.seal_temperature (");
        push_str(&mut m, temperature_text);
        push_str(&mut m, ") 必须在 [0.0, 2.0] 范围内");
        return Err(m);
    }
    if maintenance_interval == 0 {
        let mut m = String::new();
        push_str(&mut m, "VolumeConfig.maintenance_interval 必须 > 0");
        return Err(m);
    }
    Ok(())
}

} // verus!
