use std::time::Duration;

use powerflow::ioreg::{AdapterDetails, BatteryData, IORegistry, PowerTelemetryData};
use powerflow::provider::{
    absolute_battery_level, battery_power_from_ioreg, ioreg_power, is_charging_local,
    normalized_update_time, real_capacity_from, update_time_from_clock, time_remain_from, time_remain_iokit,
    AbsoluteLevel, NormalizedResource, TimeRemainSource,
};

#[test]
fn rejects_iokit_remaining_time_sentinels() {
    assert_eq!(time_remain_iokit(-1), None);
    assert_eq!(time_remain_iokit(65_535), None);
    assert_eq!(time_remain_iokit(24 * 60 + 1), None);
    assert_eq!(
        time_remain_iokit(90).map(Duration::from_secs),
        Some(Duration::from_secs(5_400))
    );
}

#[test]
fn amperage_overrides_stale_smc_charging_flag() {
    let io = IORegistry {
        instant_amperage: -250,
        is_charging: true,
        ..Default::default()
    };
    // The SMC charging flag (CHCC) still reads 1.0.
    let smc_charging = true;
    assert!(!is_charging_local(&io, smc_charging));
}

#[test]
fn fully_charged_on_adapter_is_not_charging() {
    let io = IORegistry {
        instant_amperage: 0,
        amperage: 0,
        fully_charged: true,
        is_charging: false,
        ..Default::default()
    };
    let smc_charging = true;
    assert!(!is_charging_local(&io, smc_charging));
}

#[test]
fn smc_flag_still_used_when_iokit_is_silent() {
    let io = IORegistry {
        instant_amperage: 0,
        amperage: 0,
        fully_charged: false,
        is_charging: false,
        ..Default::default()
    };
    let smc_charging = true;
    assert!(is_charging_local(&io, smc_charging));
}

#[test]
fn real_capacity_from_nested_battery_data_on_macos_27() {
    let io = IORegistry {
        battery_data: Some(BatteryData {
            full_charge_capacity: 6389,
            remaining_capacity: Some(6389),
            design_capacity: 6249,
            ..Default::default()
        }),
        ..Default::default()
    };
    let (max_cap, cur_cap, design_cap) = real_capacity_from(&io);
    assert_eq!(max_cap, 6389);
    assert_eq!(cur_cap, 6389);
    assert_eq!(design_cap, 6249);

    let health = (max_cap as f32 / design_cap as f32 * 100.0).min(100.0);
    assert_eq!(health, 100.0);
}

#[test]
fn real_capacity_falls_back_to_top_level_on_older_macos() {
    let io = IORegistry {
        apple_raw_max_capacity: 6400,
        apple_raw_current_capacity: 6300,
        design_capacity: 6250,
        ..Default::default()
    };
    let (max_cap, cur_cap, design_cap) = real_capacity_from(&io);
    assert_eq!(max_cap, 6400);
    assert_eq!(cur_cap, 6300);
    assert_eq!(design_cap, 6250);
}

#[test]
fn nested_values_that_are_not_positive_fall_back() {
    let io = IORegistry {
        apple_raw_max_capacity: 5000,
        apple_raw_current_capacity: 4000,
        design_capacity: 5200,
        battery_data: Some(BatteryData {
            full_charge_capacity: 0,
            remaining_capacity: Some(-1),
            design_capacity: 0,
            ..Default::default()
        }),
        ..Default::default()
    };
    assert_eq!(real_capacity_from(&io), (5000, 4000, 5200));
}

#[test]
fn missing_telemetry_uses_available_amperage() {
    // Power figures are in microwatts: 2.0 W is 2_000_000.
    let io = IORegistry {
        amperage: -500,
        voltage: 4000,
        ..Default::default()
    };
    let resource = NormalizedResource::from_ioreg(&io);
    let power = ioreg_power(&io);
    assert_eq!(power.battery_power, 2_000_000);
    assert_eq!(power.system_load, 2_000_000);
    assert!(resource.power_estimated);
    let io = IORegistry {
        instant_amperage: -250,
        ..io
    };
    assert_eq!(battery_power_from_ioreg(&io), 1_000_000);
}

#[test]
fn missing_update_time_uses_current_epoch() {
    let io = IORegistry::default();
    let resource = NormalizedResource::from_ioreg(&io);
    assert!(resource.last_update > 0);
    assert!(time_remain_iokit(io.time_remaining).is_none());
}

#[test]
fn capacity_percentage_is_used_when_raw_capacity_is_missing() {
    let io = IORegistry {
        current_capacity: 75,
        max_capacity: 100,
        ..Default::default()
    };
    let level = absolute_battery_level(&io);
    assert_eq!(level, AbsoluteLevel::Ratio { current: 75, max: 100 });
    let AbsoluteLevel::Ratio { current, max } = level else {
        panic!("expected a ratio");
    };
    assert_eq!(current as f32 / max as f32 * 100., 75.0);
}

#[test]
fn raw_capacity_ratio_is_preferred_and_no_pair_gives_no_level() {
    let io = IORegistry {
        apple_raw_current_capacity: 2100,
        apple_raw_max_capacity: 4200,
        current_capacity: 50,
        max_capacity: 100,
        ..Default::default()
    };
    assert_eq!(
        absolute_battery_level(&io),
        AbsoluteLevel::Ratio { current: 2100, max: 4200 }
    );
    let io = IORegistry {
        current_capacity: 42,
        ..Default::default()
    };
    assert_eq!(absolute_battery_level(&io), AbsoluteLevel::Unavailable);
}

#[test]
fn absolute_level_is_held_within_a_percentage() {
    let io = IORegistry {
        apple_raw_current_capacity: 6500,
        apple_raw_max_capacity: 6400,
        ..Default::default()
    };
    assert_eq!(
        absolute_battery_level(&io),
        AbsoluteLevel::Ratio { current: 6400, max: 6400 }
    );
    let io = IORegistry {
        current_capacity: -3,
        max_capacity: 100,
        ..Default::default()
    };
    assert_eq!(
        absolute_battery_level(&io),
        AbsoluteLevel::Ratio { current: 0, max: 100 }
    );
}

#[test]
fn telemetry_figures_are_scaled_to_microwatts() {
    let io = IORegistry {
        power_telemetry_data: Some(PowerTelemetryData {
            adapter_efficiency_loss: 500,
            battery_power: -1250,
            system_load: 9000,
            system_power_in: 12000,
            ..Default::default()
        }),
        ..Default::default()
    };
    let power = ioreg_power(&io);
    assert_eq!(power.system_in, 12_000_000);
    assert_eq!(power.system_load, 9_000_000);
    assert_eq!(power.battery_power, 1_250_000);
    assert_eq!(power.adapter_power, 12_500_000);
    assert_eq!(power.efficiency_loss, 500_000);
    assert!(!NormalizedResource::from_ioreg(&io).power_estimated);
}

#[test]
fn estimated_input_is_the_larger_of_rating_and_battery_power_while_charging() {
    let io = IORegistry {
        amperage: 3000,
        voltage: 12000,
        is_charging: true,
        adapter_details: AdapterDetails {
            watts: Some(30),
            ..Default::default()
        },
        ..Default::default()
    };
    let power = ioreg_power(&io);
    assert_eq!(power.battery_power, 36_000_000);
    assert_eq!(power.system_in, 36_000_000);
    assert_eq!(power.system_load, 0);
    let io = IORegistry {
        adapter_details: AdapterDetails {
            watts: Some(96),
            ..Default::default()
        },
        ..io
    };
    let power = ioreg_power(&io);
    assert_eq!(power.system_in, 96_000_000);
    assert_eq!(power.system_load, 60_000_000);
}

#[test]
fn normalized_sample_fields() {
    let io = IORegistry {
        current_capacity: 130,
        is_charging: true,
        fully_charged: true,
        update_time: 1_700_000_000,
        adapter_details: AdapterDetails {
            description: Some("pd charger".to_string()),
            adapter_power_tier: Some(3),
            ..Default::default()
        },
        ..Default::default()
    };
    let r = NormalizedResource::from_ioreg(&io);
    assert!(!r.is_local);
    assert!(!r.is_charging);
    assert_eq!(r.battery_level, 100);
    assert_eq!(r.last_update, 1_700_000_000);
    assert_eq!(r.adapter_name.as_deref(), Some("pd charger"));
    assert_eq!(r.adapter_power_tier, 3);
    assert!(!r.adapter_is_wireless);
    assert!(NormalizedResource::local_from_ioreg(&io).is_local);
    let smc = NormalizedResource::from_ioreg_and_smc(&io, true);
    assert!(smc.is_local && !smc.power_estimated && !smc.is_charging);
    assert_eq!(smc.battery_level, 130);
}

#[test]
fn remaining_time_source() {
    let full = IORegistry {
        fully_charged: true,
        time_remaining: 90,
        ..Default::default()
    };
    assert_eq!(time_remain_from(&full, false), TimeRemainSource::Unknown);
    let idle_on_adapter = IORegistry {
        external_connected: true,
        time_remaining: 90,
        ..Default::default()
    };
    assert_eq!(time_remain_from(&idle_on_adapter, false), TimeRemainSource::Unknown);
    let discharging = IORegistry {
        amperage: -800,
        time_remaining: 90,
        ..Default::default()
    };
    assert_eq!(time_remain_from(&discharging, true), TimeRemainSource::Known(5_400));
    let computing = IORegistry {
        amperage: 800,
        external_connected: true,
        time_remaining: 65_535,
        ..Default::default()
    };
    assert_eq!(
        time_remain_from(&computing, false),
        TimeRemainSource::Smc { to_full: true }
    );
}

#[test]
fn positive_update_time_is_kept() {
    assert_eq!(normalized_update_time(42), 42);
    assert!(normalized_update_time(0) > 0);
    assert!(normalized_update_time(-5) > 0);
}

#[test]
fn clock_reading_stands_in_for_a_missing_update_time() {
    assert_eq!(update_time_from_clock(42, Some(1_700_000_000)), 42);
    assert_eq!(update_time_from_clock(0, Some(1_700_000_000)), 1_700_000_000);
    assert_eq!(update_time_from_clock(-5, Some(7)), 7);
    assert_eq!(update_time_from_clock(0, None), 0);
    assert_eq!(update_time_from_clock(-1, Some(u64::MAX)), i64::MAX);
}
