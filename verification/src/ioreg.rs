use vstd::prelude::*;

verus! {

/// Details of the power adapter as reported by `AppleSmartBattery`.
pub struct AdapterDetails {
    pub adapter_voltage: Option<i32>,
    pub is_wireless: Option<bool>,
    pub watts: Option<i32>,
    pub name: Option<String>,
    pub current: Option<i32>,
    pub description: Option<String>,
    /// Negotiated USB-C PD tier.
    pub adapter_power_tier: Option<i32>,
    /// Ceilings the adapter advertises, as opposed to what is in use now.
    pub max_voltage: Option<i32>,
    pub max_current: Option<i32>,
}

/// Power telemetry block; every figure is in milli-units (mW, mA, mV).
pub struct PowerTelemetryData {
    pub adapter_efficiency_loss: i32,
    pub battery_power: i64,
    pub system_current_in: i32,
    pub system_energy_consumed: i64,
    pub system_load: i64,
    pub system_power_in: i32,
    pub system_voltage_in: i32,
}

/// Nested capacity block (mAh) that newer systems report.
pub struct BatteryData {
    pub full_charge_capacity: i32,
    pub remaining_capacity: Option<i32>,
    pub design_capacity: i32,
    pub nominal_charge_capacity: i32,
}

/// The `AppleSmartBattery` registry entry.
pub struct IORegistry {
    pub adapter_details: AdapterDetails,
    pub power_telemetry_data: Option<PowerTelemetryData>,
    pub battery_data: Option<BatteryData>,
    pub absolute_capacity: i32,
    pub amperage: i32,
    pub voltage: i32,
    pub apple_raw_battery_voltage: Option<i32>,
    pub apple_raw_current_capacity: i32,
    pub apple_raw_max_capacity: i32,
    pub current_capacity: i32,
    pub cycle_count: i32,
    pub design_capacity: i32,
    /// Whether an adapter is plugged in, whether or not it charges.
    pub external_connected: bool,
    pub fully_charged: bool,
    pub instant_amperage: i32,
    pub is_charging: bool,
    pub max_capacity: i32,
    pub temperature: i32,
    pub time_remaining: i32,
    pub update_time: i64,
}

/// The `IORegistry` section of a remote diagnostics reply.
pub struct Diagnostics {
    pub ioregistry: IORegistry,
}

/// A remote diagnostics reply.
pub struct IORegistryDiagnostic {
    pub diagnostics: Diagnostics,
}

impl Default for AdapterDetails {
    fn default() -> (r: Self)
        ensures
            r.adapter_voltage is None,
            r.is_wireless is None,
            r.watts is None,
            r.name is None,
            r.current is None,
            r.description is None,
            r.adapter_power_tier is None,
            r.max_voltage is None,
            r.max_current is None,
    {
        AdapterDetails {
            adapter_voltage: None,
            is_wireless: None,
            watts: None,
            name: None,
            current: None,
            description: None,
            adapter_power_tier: None,
            max_voltage: None,
            max_current: None,
        }
    }
}

impl Default for BatteryData {
    fn default() -> (r: Self)
        ensures
            r.full_charge_capacity == 0,
            r.remaining_capacity is None,
            r.design_capacity == 0,
            r.nominal_charge_capacity == 0,
    {
        BatteryData {
            full_charge_capacity: 0,
            remaining_capacity: None,
            design_capacity: 0,
            nominal_charge_capacity: 0,
        }
    }
}

impl Default for PowerTelemetryData {
    fn default() -> (r: Self)
        ensures
            r.adapter_efficiency_loss == 0,
            r.battery_power == 0,
            r.system_current_in == 0,
            r.system_energy_consumed == 0,
            r.system_load == 0,
            r.system_power_in == 0,
            r.system_voltage_in == 0,
    {
        PowerTelemetryData {
            adapter_efficiency_loss: 0,
            battery_power: 0,
            system_current_in: 0,
            system_energy_consumed: 0,
            system_load: 0,
            system_power_in: 0,
            system_voltage_in: 0,
        }
    }
}

impl Default for IORegistry {
    fn default() -> (r: Self)
        ensures
            r.adapter_details.adapter_voltage is None,
            r.adapter_details.is_wireless is None,
            r.adapter_details.watts is None,
            r.adapter_details.name is None,
            r.adapter_details.current is None,
            r.adapter_details.description is None,
            r.adapter_details.adapter_power_tier is None,
            r.adapter_details.max_voltage is None,
            r.adapter_details.max_current is None,
            r.power_telemetry_data is None,
            r.battery_data is None,
            r.absolute_capacity == 0,
            r.amperage == 0,
            r.voltage == 0,
            r.apple_raw_battery_voltage is None,
            r.apple_raw_current_capacity == 0,
            r.apple_raw_max_capacity == 0,
            r.current_capacity == 0,
            r.cycle_count == 0,
            r.design_capacity == 0,
            !r.external_connected,
            !r.fully_charged,
            r.instant_amperage == 0,
            !r.is_charging,
            r.max_capacity == 0,
            r.temperature == 0,
            r.time_remaining == 0,
            r.update_time == 0,
    {
        IORegistry {
            adapter_details: AdapterDetails::default(),
            power_telemetry_data: None,
            battery_data: None,
            absolute_capacity: 0,
            amperage: 0,
            voltage: 0,
            apple_raw_battery_voltage: None,
            apple_raw_current_capacity: 0,
            apple_raw_max_capacity: 0,
            current_capacity: 0,
            cycle_count: 0,
            design_capacity: 0,
            external_connected: false,
            fully_charged: false,
            instant_amperage: 0,
            is_charging: false,
            max_capacity: 0,
            temperature: 0,
            time_remaining: 0,
            update_time: 0,
        }
    }
}

impl IORegistry {
    /// The power telemetry block, when the entry carries one.
    pub fn ptd(&self) -> (r: Option<&PowerTelemetryData>)
        ensures
            r == match self.power_telemetry_data {
                Some(d) => Some(&d),
                None => None::<&PowerTelemetryData>,
            },
    {
        self.power_telemetry_data.as_ref()
    }
}

} // verus!
