use vstd::prelude::*;

use crate::device::InterfaceType;
use crate::ioreg::{AdapterDetails, IORegistry};
use std::time::{Duration, SystemTime};

verus! {

/// Real capacities `(max, current, design)` in mAh, preferring the nested
/// `BatteryData` block and falling back to the top-level keys.
pub open spec fn spec_real_capacity(io: IORegistry) -> (i32, i32, i32) {
    match io.battery_data {
        Some(b) => (
            if b.full_charge_capacity > 0 { b.full_charge_capacity } else { io.apple_raw_max_capacity },
            match b.remaining_capacity {
                Some(c) => if c >= 0 { c } else { io.apple_raw_current_capacity },
                None => io.apple_raw_current_capacity,
            },
            if b.design_capacity > 0 { b.design_capacity } else { io.design_capacity },
        ),
        None => (io.apple_raw_max_capacity, io.apple_raw_current_capacity, io.design_capacity),
    }
}

/// Resolves `(max_capacity, current_capacity, design_capacity)` in mAh.
pub fn real_capacity_from(io: &IORegistry) -> (r: (i32, i32, i32))
    ensures
        r == spec_real_capacity(*io),
{
    match &io.battery_data {
        Some(b) => {
            let max = if b.full_charge_capacity > 0 { b.full_charge_capacity } else { io.apple_raw_max_capacity };
            let cur = match b.remaining_capacity {
                Some(c) => if c >= 0 { c } else { io.apple_raw_current_capacity },
                None => io.apple_raw_current_capacity,
            };
            let design = if b.design_capacity > 0 { b.design_capacity } else { io.design_capacity };
            (max, cur, design)
        },
        None => (io.apple_raw_max_capacity, io.apple_raw_current_capacity, io.design_capacity),
    }
}


/// IOKit reports -1 while it is still computing the remaining time.
pub const IOKIT_UNKNOWN: i32 = -1;
/// IOKit reports 65535 when the remaining time is unknown.
pub const IOKIT_SENTINEL: i32 = 65535;
/// Longest remaining time, in minutes, that is taken at face value (one day).
pub const MAX_PLAUSIBLE_MIN: i32 = 1440;

/// Whether an IOKit `TimeRemaining` value (minutes) is a real estimate.
pub open spec fn iokit_minutes_valid(minutes: i32) -> bool {
    minutes != IOKIT_UNKNOWN && minutes != IOKIT_SENTINEL && 1 <= minutes <= MAX_PLAUSIBLE_MIN
}

/// Converts IOKit `TimeRemaining` (minutes) to seconds, rejecting the sentinels
/// and implausible values.
pub fn time_remain_iokit(minutes: i32) -> (r: Option<u64>)
    ensures
        iokit_minutes_valid(minutes) ==> r == Some((minutes * 60) as u64),
        !iokit_minutes_valid(minutes) ==> r is None,
{
    if minutes != IOKIT_UNKNOWN && minutes != IOKIT_SENTINEL && 1 <= minutes && minutes <= MAX_PLAUSIBLE_MIN {
        Some((minutes as u64) * 60)
    } else {
        None
    }
}

/// Charging direction of a local sample: a full pack never charges, the sign of
/// the instantaneous (then the averaged) amperage decides when it is non-zero,
/// and only when both are zero do the IOKit flag and then the SMC flag count.
pub open spec fn spec_is_charging_local(io: IORegistry, smc_charging: bool) -> bool {
    if io.fully_charged {
        false
    } else if io.instant_amperage != 0 {
        io.instant_amperage > 0
    } else if io.amperage != 0 {
        io.amperage > 0
    } else {
        io.is_charging || smc_charging
    }
}

/// Local charging detection that does not trust the SMC charging flag alone.
/// `smc_charging` is what the SMC reports.
pub fn is_charging_local(io: &IORegistry, smc_charging: bool) -> (r: bool)
    ensures
        r == spec_is_charging_local(*io, smc_charging),
{
    if io.fully_charged {
        return false;
    }
    if io.instant_amperage != 0 {
        return io.instant_amperage > 0;
    }
    if io.amperage != 0 {
        return io.amperage > 0;
    }
    io.is_charging || smc_charging
}

/// Where the remaining time of a local sample comes from.
#[derive(PartialEq, Eq, Structural, Debug, Clone, Copy)]
pub enum TimeRemainSource {
    /// No estimate applies (full pack, or on the adapter without charging).
    Unknown,
    /// The IOKit estimate, in seconds.
    Known(u64),
    /// Fall back to the SMC estimate: time to full when `to_full`, else time to
    /// empty. Such an estimate is used only when it is finite, positive, below a
    /// day and not the 65535 sentinel.
    Smc { to_full: bool },
}

/// Picks the most reliable remaining-time estimate: none when the pack is full
/// or idles on the adapter, the IOKit value when it is valid, and otherwise the
/// SMC value in the actual charging direction.
pub open spec fn spec_time_remain_from(io: IORegistry, smc_charging: bool) -> TimeRemainSource {
    if io.fully_charged || (io.external_connected && !spec_is_charging_local(io, smc_charging)) {
        TimeRemainSource::Unknown
    } else if iokit_minutes_valid(io.time_remaining) {
        TimeRemainSource::Known((io.time_remaining * 60) as u64)
    } else {
        TimeRemainSource::Smc { to_full: spec_is_charging_local(io, smc_charging) }
    }
}

/// Chooses the remaining-time source for a local sample.
pub fn time_remain_from(io: &IORegistry, smc_charging: bool) -> (r: TimeRemainSource)
    ensures
        r == spec_time_remain_from(*io, smc_charging),
{
    let charging = is_charging_local(io, smc_charging);
    if io.fully_charged || (io.external_connected && !charging) {
        return TimeRemainSource::Unknown;
    }
    match time_remain_iokit(io.time_remaining) {
        Some(secs) => TimeRemainSource::Known(secs),
        None => TimeRemainSource::Smc { to_full: charging },
    }
}


#[verifier::external_type_specification]
#[verifier::external_body]
pub struct ExSystemTime(SystemTime);

/// Calls `std::time::SystemTime::now`. The reading depends on the clock, so
/// nothing is promised of it.
#[verifier::external_body]
fn system_now() -> (t: SystemTime) {
    SystemTime::now()
}

/// Calls `SystemTime::duration_since` with `UNIX_EPOCH`, giving `None` where std
/// reports the clock to be before the epoch. Nothing is promised of the
/// duration, which depends on the clock.
#[verifier::external_body]
fn since_unix_epoch(t: SystemTime) -> (d: Option<Duration>) {
    t.duration_since(std::time::UNIX_EPOCH).ok()
}

/// Calls `Duration::as_secs`. `Duration` is opaque here, so nothing is stated of
/// the count.
#[verifier::external_body]
fn whole_seconds(d: &Duration) -> (s: u64) {
    d.as_secs()
}

/// The update time of a sample: a positive `value` is kept; otherwise the
/// clock's reading (`since_epoch_secs`, whole seconds since the Unix epoch, or
/// `None` when the clock is before the epoch) stands in for it, 0 without a
/// reading, and readings past `i64::MAX` seconds are held at `i64::MAX`.
pub open spec fn spec_update_time(value: i64, since_epoch_secs: Option<u64>) -> i64 {
    if value > 0 {
        value
    } else {
        match since_epoch_secs {
            Some(secs) => if secs <= i64::MAX { secs as i64 } else { i64::MAX },
            None => 0,
        }
    }
}

/// Computes the update time of a sample from `value` and a clock reading (see
/// `spec_update_time`).
pub fn update_time_from_clock(value: i64, since_epoch_secs: Option<u64>) -> (r: i64)
    ensures
        r == spec_update_time(value, since_epoch_secs),
{
    if value > 0 {
        return value;
    }
    match since_epoch_secs {
        Some(secs) => if secs <= 0x7fff_ffff_ffff_ffffu64 { secs as i64 } else { 0x7fff_ffff_ffff_ffffi64 },
        None => 0,
    }
}

/// A positive update time is kept; otherwise the current Unix time in whole
/// seconds (0 when the clock is before the epoch) stands in for it, which is
/// never negative.
pub fn normalized_update_time(value: i64) -> (r: i64)
    ensures
        value > 0 ==> r == value,
        value <= 0 ==> r >= 0,
{
    if value > 0 {
        return value;
    }
    let reading = match since_unix_epoch(system_now()) {
        Some(d) => Some(whole_seconds(&d)),
        None => None,
    };
    update_time_from_clock(value, reading)
}

pub open spec fn spec_abs(x: int) -> int {
    if x < 0 { -x } else { x }
}

/// The amperage used for estimates: the instantaneous reading when non-zero,
/// else the averaged one (mA).
pub open spec fn effective_amperage(io: IORegistry) -> i32 {
    if io.instant_amperage != 0 { io.instant_amperage } else { io.amperage }
}

/// Estimated battery power in microwatts: |amperage (mA) * voltage (mV)|.
pub open spec fn spec_battery_power_uw(io: IORegistry) -> int {
    spec_abs(effective_amperage(io) * io.voltage)
}

/// Battery power estimated from amperage and voltage, in microwatts.
pub fn battery_power_from_ioreg(io: &IORegistry) -> (r: i64)
    ensures
        r == spec_battery_power_uw(*io),
{
    let amperage: i64 = if io.instant_amperage != 0 { io.instant_amperage as i64 } else { io.amperage as i64 };
    let voltage: i64 = io.voltage as i64;
    assert(-0x8000_0000 <= amperage <= 0x7fff_ffff && -0x8000_0000 <= voltage <= 0x7fff_ffff);
    assert(-0x4000_0000_0000_0000 <= amperage * voltage <= 0x4000_0000_0000_0000) by (nonlinear_arith)
        requires
            -0x8000_0000 <= amperage <= 0x7fff_ffff,
            -0x8000_0000 <= voltage <= 0x7fff_ffff,
    ;
    let product: i64 = amperage * voltage;
    if product < 0 { -product } else { product }
}

/// Power figures of a sample, in microwatts.
#[derive(PartialEq, Eq, Structural, Debug, Clone, Copy)]
pub struct PowerFigures {
    pub system_in: i128,
    pub system_load: i128,
    pub battery_power: i128,
    pub adapter_power: i128,
    pub efficiency_loss: i128,
}

/// Power figures from the registry: the telemetry block scaled from mW when it
/// is present; otherwise an estimate in which the input is the larger of the
/// adapter rating and the battery power while charging (0 otherwise), and the
/// load is what the input leaves after the battery (never negative) while
/// charging, else the battery power.
pub open spec fn spec_ioreg_power(io: IORegistry) -> PowerFigures {
    match io.power_telemetry_data {
        Some(d) => PowerFigures {
            system_in: (d.system_power_in * 1000) as i128,
            system_load: (d.system_load * 1000) as i128,
            battery_power: (spec_abs(d.battery_power as int) * 1000) as i128,
            adapter_power: ((d.system_power_in + d.adapter_efficiency_loss) * 1000) as i128,
            efficiency_loss: (d.adapter_efficiency_loss * 1000) as i128,
        },
        None => {
            let battery = spec_battery_power_uw(io);
            let rating = match io.adapter_details.watts { Some(w) => w * 1_000_000, None => 0 };
            let input = if io.is_charging { if rating >= battery { rating } else { battery } } else { 0 };
            let load = if io.is_charging { if input - battery >= 0 { input - battery } else { 0 } } else { battery };
            PowerFigures {
                system_in: input as i128,
                system_load: load as i128,
                battery_power: battery as i128,
                adapter_power: input as i128,
                efficiency_loss: 0,
            }
        },
    }
}

/// Computes the power figures of a registry sample in microwatts.
pub fn ioreg_power(io: &IORegistry) -> (r: PowerFigures)
    ensures
        r == spec_ioreg_power(*io),
        r.battery_power >= 0,
{
    match &io.power_telemetry_data {
        Some(d) => {
            let spi: i128 = d.system_power_in as i128;
            let loss: i128 = d.adapter_efficiency_loss as i128;
            let load: i128 = d.system_load as i128;
            let bp: i128 = d.battery_power as i128;
            let bp_abs: i128 = if bp < 0 { -bp } else { bp };
            PowerFigures {
                system_in: spi * 1000,
                system_load: load * 1000,
                battery_power: bp_abs * 1000,
                adapter_power: (spi + loss) * 1000,
                efficiency_loss: loss * 1000,
            }
        },
        None => {
            let battery: i128 = battery_power_from_ioreg(io) as i128;
            let rating: i128 = match io.adapter_details.watts {
                Some(w) => (w as i128) * 1_000_000,
                None => 0,
            };
            let input: i128 = if io.is_charging { if rating >= battery { rating } else { battery } } else { 0 };
            let load: i128 = if io.is_charging { if input - battery >= 0 { input - battery } else { 0 } } else { battery };
            PowerFigures {
                system_in: input,
                system_load: load,
                battery_power: battery,
                adapter_power: input,
                efficiency_loss: 0,
            }
        },
    }
}

/// How the absolute battery level, a percentage from 0 to 100, is obtained.
#[derive(PartialEq, Eq, Structural, Debug, Clone, Copy)]
pub enum AbsoluteLevel {
    /// `current / max * 100`, with `0 <= current <= max` and `max > 0`.
    Ratio { current: i32, max: i32 },
    /// No usable capacity pair: the level is 0.
    Unavailable,
}

/// `v` held within `0..=max`.
pub open spec fn spec_clamp_to(v: i32, max: i32) -> i32 {
    if v < 0 { 0 } else if v > max { max } else { v }
}

/// The raw mAh pair when the raw maximum is positive, else the percentage pair
/// when the maximum percentage is positive, the current value held within
/// `0..=max` so that the ratio is a percentage; no level when neither pair is
/// usable.
pub open spec fn spec_absolute_battery_level(io: IORegistry) -> AbsoluteLevel {
    if io.apple_raw_max_capacity > 0 {
        AbsoluteLevel::Ratio {
            current: spec_clamp_to(io.apple_raw_current_capacity, io.apple_raw_max_capacity),
            max: io.apple_raw_max_capacity,
        }
    } else if io.max_capacity > 0 {
        AbsoluteLevel::Ratio { current: spec_clamp_to(io.current_capacity, io.max_capacity), max: io.max_capacity }
    } else {
        AbsoluteLevel::Unavailable
    }
}

fn clamp_to(v: i32, max: i32) -> (r: i32)
    ensures
        r == spec_clamp_to(v, max),
{
    if v < 0 { 0 } else if v > max { max } else { v }
}

/// Chooses the inputs of the absolute battery level.
pub fn absolute_battery_level(io: &IORegistry) -> (r: AbsoluteLevel)
    ensures
        r == spec_absolute_battery_level(*io),
        r matches AbsoluteLevel::Ratio { current, max } ==> 0 < max && 0 <= current <= max,
{
    if io.apple_raw_max_capacity > 0 {
        AbsoluteLevel::Ratio {
            current: clamp_to(io.apple_raw_current_capacity, io.apple_raw_max_capacity),
            max: io.apple_raw_max_capacity,
        }
    } else if io.max_capacity > 0 {
        AbsoluteLevel::Ratio { current: clamp_to(io.current_capacity, io.max_capacity), max: io.max_capacity }
    } else {
        AbsoluteLevel::Unavailable
    }
}

/// The discrete part of a normalized power sample: flags, timestamps, adapter
/// identity, capacities and the battery level. The measured power figures travel
/// beside it.
pub struct NormalizedResource {
    pub is_local: bool,
    pub power_estimated: bool,
    pub is_charging: bool,
    /// True when the pack is full. Distinct from `is_charging`, which is false
    /// while resting on the adapter at 100%.
    pub fully_charged: bool,
    /// True when an adapter is plugged in, whether or not it is charging.
    pub external_connected: bool,
    pub last_update: i64,
    pub adapter_name: Option<String>,
    pub adapter_description: Option<String>,
    pub adapter_power_tier: i32,
    pub adapter_is_wireless: bool,
    pub cycle_count: i32,
    pub current_capacity: i32,
    pub max_capacity: i32,
    pub design_capacity: i32,
    /// Battery level in percent.
    pub battery_level: i32,
}

fn clone_opt_string(o: &Option<String>) -> (r: Option<String>)
    ensures
        r == *o,
{
    match o {
        Some(s) => Some(s.clone()),
        None => None,
    }
}

/// The adapter's name, or its description when it has no name.
pub open spec fn adapter_display_name(a: AdapterDetails) -> Option<String> {
    match a.name {
        Some(n) => Some(n),
        None => a.description,
    }
}

/// The fields that every normalized sample takes from the registry alone.
pub open spec fn common_fields(r: NormalizedResource, io: IORegistry) -> bool {
    &&& r.fully_charged == io.fully_charged
    &&& r.external_connected == io.external_connected
    &&& (io.update_time > 0 ==> r.last_update == io.update_time)
    &&& (io.update_time <= 0 ==> r.last_update >= 0)
    &&& r.adapter_name == adapter_display_name(io.adapter_details)
    &&& r.adapter_description == io.adapter_details.description
    &&& r.adapter_power_tier == match io.adapter_details.adapter_power_tier { Some(t) => t, None => 0i32 }
    &&& r.adapter_is_wireless == match io.adapter_details.is_wireless { Some(w) => w, None => false }
    &&& r.cycle_count == io.cycle_count
    &&& (r.max_capacity, r.current_capacity, r.design_capacity) == spec_real_capacity(io)
}

pub open spec fn spec_clamp_level(v: i32) -> i32 {
    if v < 0 { 0 } else if v > 100 { 100 } else { v }
}

impl NormalizedResource {
    fn common(io: &IORegistry, is_local: bool, power_estimated: bool, is_charging: bool, battery_level: i32) -> (r: Self)
        ensures
            common_fields(r, *io),
            r.is_local == is_local,
            r.power_estimated == power_estimated,
            r.is_charging == is_charging,
            r.battery_level == battery_level,
    {
        let (max_cap, cur_cap, design_cap) = real_capacity_from(io);
        let adapter_name = match &io.adapter_details.name {
            Some(n) => Some(n.clone()),
            None => clone_opt_string(&io.adapter_details.description),
        };
        NormalizedResource {
            is_local,
            power_estimated,
            is_charging,
            fully_charged: io.fully_charged,
            external_connected: io.external_connected,
            last_update: normalized_update_time(io.update_time),
            adapter_name,
            adapter_description: clone_opt_string(&io.adapter_details.description),
            adapter_power_tier: match io.adapter_details.adapter_power_tier { Some(t) => t, None => 0 },
            adapter_is_wireless: match io.adapter_details.is_wireless { Some(w) => w, None => false },
            cycle_count: io.cycle_count,
            current_capacity: cur_cap,
            max_capacity: max_cap,
            design_capacity: design_cap,
            battery_level,
        }
    }

    /// A sample built from the registry alone (the path used for remote devices
    /// and for Macs without SMC access): estimated when the telemetry block is
    /// missing, charging only when IOKit says so and the pack is not full, and
    /// the level clamped to 0..=100.
    pub fn from_ioreg(io: &IORegistry) -> (r: Self)
        ensures
            registry_sample(r, *io),
            !r.is_local,
    {
        let level = if io.current_capacity < 0 { 0 } else if io.current_capacity > 100 { 100 } else { io.current_capacity };
        Self::common(io, false, io.ptd().is_none(), io.is_charging && !io.fully_charged, level)
    }

    /// A local sample built from the registry when the SMC is unavailable: the
    /// registry-only sample, marked local.
    pub fn local_from_ioreg(io: &IORegistry) -> (r: Self)
        ensures
            registry_sample(r, *io),
            r.is_local,
    {
        let mut resource = Self::from_ioreg(io);
        resource.is_local = true;
        resource
    }

    /// A local sample that combines the registry with the SMC, whose charging
    /// flag is `smc_charging`: measured, charging per `is_charging_local`, and
    /// the level taken as reported.
    pub fn from_ioreg_and_smc(io: &IORegistry, smc_charging: bool) -> (r: Self)
        ensures
            common_fields(r, *io),
            r.is_local,
            !r.power_estimated,
            r.is_charging == spec_is_charging_local(*io, smc_charging),
            r.battery_level == io.current_capacity,
    {
        let charging = is_charging_local(io, smc_charging);
        Self::common(io, true, false, charging, io.current_capacity)
    }
}

/// A full pack is never reported as charging, on either path, and has no
/// remaining-time estimate.
pub proof fn lemma_full_pack_is_not_charging(io: IORegistry, smc_charging: bool)
    requires
        io.fully_charged,
    ensures
        !spec_is_charging_local(io, smc_charging),
        !(io.is_charging && !io.fully_charged),
        spec_time_remain_from(io, smc_charging) == TimeRemainSource::Unknown,
{
}

/// A remaining time taken from IOKit is a whole number of minutes between one
/// minute and one day.
pub proof fn lemma_iokit_time_is_plausible(io: IORegistry, smc_charging: bool)
    ensures
        spec_time_remain_from(io, smc_charging) matches TimeRemainSource::Known(secs)
            ==> 60 <= secs <= 86_400 && secs % 60 == 0,
{
}

/// The battery level of a registry-only sample is a percentage in 0..=100.
pub proof fn lemma_level_is_a_percentage(v: i32)
    ensures
        0 <= spec_clamp_level(v) <= 100,
        0 <= v <= 100 ==> spec_clamp_level(v) == v,
{
}

/// The absolute battery level is a percentage: a ratio of a current value
/// within `0..=max` to a positive maximum, or no level at all (0).
pub proof fn lemma_absolute_level_is_a_percentage(io: IORegistry)
    ensures
        spec_absolute_battery_level(io) matches AbsoluteLevel::Ratio { current, max }
            ==> 0 < max && 0 <= current <= max,
        io.apple_raw_max_capacity <= 0 && io.max_capacity <= 0
            ==> spec_absolute_battery_level(io) == AbsoluteLevel::Unavailable,
{
}

/// A sample built from the registry alone, as `from_ioreg` and
/// `local_from_ioreg` build it, apart from where it is marked local.
pub open spec fn registry_sample(r: NormalizedResource, io: IORegistry) -> bool {
    &&& common_fields(r, io)
    &&& r.power_estimated == (io.power_telemetry_data is None)
    &&& r.is_charging == (io.is_charging && !io.fully_charged)
    &&& r.battery_level == spec_clamp_level(io.current_capacity)
}

/// All fields but `is_local` agree.
pub open spec fn same_but_locality(a: NormalizedResource, b: NormalizedResource) -> bool {
    &&& a.power_estimated == b.power_estimated
    &&& a.is_charging == b.is_charging
    &&& a.battery_level == b.battery_level
    &&& same_registry_fields(a, b)
}

/// The fields taken from the registry alone agree.
pub open spec fn same_registry_fields(a: NormalizedResource, b: NormalizedResource) -> bool {
    &&& a.fully_charged == b.fully_charged
    &&& a.external_connected == b.external_connected
    &&& a.last_update == b.last_update
    &&& a.adapter_name == b.adapter_name
    &&& a.adapter_description == b.adapter_description
    &&& a.adapter_power_tier == b.adapter_power_tier
    &&& a.adapter_is_wireless == b.adapter_is_wireless
    &&& a.cycle_count == b.cycle_count
    &&& a.current_capacity == b.current_capacity
    &&& a.max_capacity == b.max_capacity
    &&& a.design_capacity == b.design_capacity
}

/// The local sample of a registry is its registry-only sample marked local:
/// two registry-only samples of a registry with a positive update time differ
/// at most in `is_local`. (With no update time, each takes its own clock
/// reading.)
pub proof fn lemma_local_sample_is_the_registry_sample(a: NormalizedResource, b: NormalizedResource, io: IORegistry)
    requires
        registry_sample(a, io),
        registry_sample(b, io),
        io.update_time > 0,
    ensures
        same_but_locality(a, b),
{
}

/// A sample that combines the registry with the SMC agrees with the
/// registry-only sample of the same registry on every field taken from the
/// registry alone (given a positive update time), and differs from it only in
/// being measured, in the charging direction and in the unclamped level.
pub proof fn lemma_smc_sample_agrees_with_the_registry(a: NormalizedResource, b: NormalizedResource, io: IORegistry)
    requires
        common_fields(a, io),
        common_fields(b, io),
        io.update_time > 0,
    ensures
        same_registry_fields(a, b),
{
}

/// Where the capacities come from: with the nested `BatteryData` block, each
/// positive (for the remaining capacity: non-negative) nested value wins and the
/// top-level key stands in for the others; without it, the top-level keys.
pub proof fn lemma_real_capacity_sources(io: IORegistry)
    ensures
        io.battery_data matches Some(b) ==> {
            &&& (b.full_charge_capacity > 0 ==> spec_real_capacity(io).0 == b.full_charge_capacity)
            &&& (b.full_charge_capacity <= 0 ==> spec_real_capacity(io).0 == io.apple_raw_max_capacity)
            &&& (b.remaining_capacity is Some && b.remaining_capacity->0 >= 0
                ==> spec_real_capacity(io).1 == b.remaining_capacity->0)
            &&& (!(b.remaining_capacity is Some && b.remaining_capacity->0 >= 0)
                ==> spec_real_capacity(io).1 == io.apple_raw_current_capacity)
            &&& (b.design_capacity > 0 ==> spec_real_capacity(io).2 == b.design_capacity)
            &&& (b.design_capacity <= 0 ==> spec_real_capacity(io).2 == io.design_capacity)
        },
        io.battery_data is None ==> spec_real_capacity(io)
            == (io.apple_raw_max_capacity, io.apple_raw_current_capacity, io.design_capacity),
{
}

/// Which signal decides the charging direction: a full pack is not charging;
/// otherwise the sign of a non-zero instantaneous amperage decides, whatever
/// the averaged amperage and the flags; then the sign of a non-zero averaged
/// amperage, whatever the flags; and with no current at all, either flag.
pub proof fn lemma_charging_signal_order(io: IORegistry, smc_charging: bool)
    ensures
        io.fully_charged ==> !spec_is_charging_local(io, smc_charging),
        !io.fully_charged && io.instant_amperage != 0
            ==> spec_is_charging_local(io, smc_charging) == (io.instant_amperage > 0),
        !io.fully_charged && io.instant_amperage == 0 && io.amperage != 0
            ==> spec_is_charging_local(io, smc_charging) == (io.amperage > 0),
        !io.fully_charged && io.instant_amperage == 0 && io.amperage == 0
            ==> spec_is_charging_local(io, smc_charging) == (io.is_charging || smc_charging),
        forall|other: bool| io.instant_amperage != 0 || io.amperage != 0
            ==> spec_is_charging_local(io, smc_charging) == spec_is_charging_local(io, other),
{
}

/// The remaining-time source: none for a full pack or one resting on the
/// adapter without charging; otherwise IOKit's minutes whenever they are between
/// 1 and 1440, in either direction; otherwise the SMC estimate in the direction
/// the pack is going.
pub proof fn lemma_remaining_time_prefers_iokit(io: IORegistry, smc_charging: bool)
    ensures
        io.fully_charged ==> spec_time_remain_from(io, smc_charging) == TimeRemainSource::Unknown,
        io.external_connected && !spec_is_charging_local(io, smc_charging)
            ==> spec_time_remain_from(io, smc_charging) == TimeRemainSource::Unknown,
        !io.fully_charged && (!io.external_connected || spec_is_charging_local(io, smc_charging))
            && 1 <= io.time_remaining <= 1440
            ==> spec_time_remain_from(io, smc_charging) == TimeRemainSource::Known((io.time_remaining * 60) as u64),
        !io.fully_charged && (!io.external_connected || spec_is_charging_local(io, smc_charging))
            && !(1 <= io.time_remaining <= 1440)
            ==> spec_time_remain_from(io, smc_charging)
                == (TimeRemainSource::Smc { to_full: spec_is_charging_local(io, smc_charging) }),
{
}

/// How the power figures relate: the adapter's power is always the system
/// input plus the adapter's loss. Without telemetry nothing is lost; while
/// charging the input covers both the adapter rating and the battery's power
/// and the load is what the input leaves after the battery; on battery the
/// input is 0 and the load is the battery's power. With telemetry the figures
/// are the block's milliwatts times 1000.
pub proof fn lemma_power_figures_relate(io: IORegistry)
    ensures
        spec_ioreg_power(io).adapter_power == spec_ioreg_power(io).system_in + spec_ioreg_power(io).efficiency_loss,
        spec_ioreg_power(io).battery_power >= 0,
        io.power_telemetry_data is None ==> {
            let r = spec_ioreg_power(io);
            let rating: int = match io.adapter_details.watts { Some(w) => w * 1_000_000, None => 0 };
            &&& r.efficiency_loss == 0
            &&& r.adapter_power == r.system_in
            &&& r.battery_power == spec_abs(effective_amperage(io) * io.voltage)
            &&& (io.is_charging ==> r.system_in >= r.battery_power && r.system_in >= rating
                && (r.system_in == r.battery_power || r.system_in == rating)
                && r.system_load == r.system_in - r.battery_power)
            &&& (!io.is_charging ==> r.system_in == 0 && r.system_load == r.battery_power)
        },
        io.power_telemetry_data matches Some(d) ==> {
            let r = spec_ioreg_power(io);
            &&& r.system_in == d.system_power_in * 1000
            &&& r.system_load == d.system_load * 1000
            &&& r.efficiency_loss == d.adapter_efficiency_loss * 1000
            &&& r.battery_power == spec_abs(d.battery_power as int) * 1000
        },
{
    let a = effective_amperage(io) as int;
    let v = io.voltage as int;
    assert(a * v <= 0x4000_0000_0000_0000) by (nonlinear_arith)
        requires
            -0x8000_0000 <= a <= 0x7fff_ffff,
            -0x8000_0000 <= v <= 0x7fff_ffff,
    ;
    assert(a * v >= -0x4000_0000_0000_0000) by (nonlinear_arith)
        requires
            -0x8000_0000 <= a <= 0x7fff_ffff,
            -0x8000_0000 <= v <= 0x7fff_ffff,
    ;
}

/// Where merged power data was read.
#[derive(PartialEq, Eq, PartialOrd, Ord, Hash, Debug, Clone)]
pub enum PowerDataFrom {
    Local,
    /// A remote device: its UDID, its name and the interface it is reached by.
    Remote(String, String, InterfaceType),
}

/// A registry reading together with the SMC reading (of type `S`) taken beside
/// it, if any, and where both came from.
pub struct MergedPowerData<S> {
    pub from: PowerDataFrom,
    pub smc: Option<S>,
    pub ioreg: IORegistry,
}

} // verus!
