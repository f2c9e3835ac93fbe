use powerflow::history::{
    compact_stages, push_stage, summarize_stages, ChargingHistoryStage, ChargingStages, DeviceType,
    HistoryRecorder,
};
use powerflow::ioreg::IORegistry;
use powerflow::provider::NormalizedResource;

fn sample(level: i32, timestamp: i64) -> NormalizedResource {
    NormalizedResource::local_from_ioreg(&IORegistry {
        current_capacity: level,
        max_capacity: 100,
        update_time: timestamp,
        is_charging: true,
        instant_amperage: 100,
        ..Default::default()
    })
}

fn stage(level: i32, timestamp: i64) -> ChargingHistoryStage<String> {
    ChargingHistoryStage {
        payload: "{}".to_string(),
        data: sample(level, timestamp),
    }
}

#[test]
fn compaction_preserves_session_boundaries() {
    let mut staged = (0..8)
        .map(|index| stage(20 + index, 100 + i64::from(index)))
        .collect::<Vec<_>>();

    compact_stages(&mut staged);

    assert_eq!(staged.first().unwrap().data.last_update, 100);
    assert_eq!(staged.last().unwrap().data.last_update, 107);
    assert!(staged
        .windows(2)
        .all(|window| window[0].data.last_update < window[1].data.last_update));
}

#[test]
fn compaction_keeps_first_odd_interior_and_last() {
    let mut staged = (0..8).map(|index| stage(20 + index, 100 + i64::from(index))).collect::<Vec<_>>();
    compact_stages(&mut staged);
    let times: Vec<i64> = staged.iter().map(|s| s.data.last_update).collect();
    assert_eq!(times, vec![100, 101, 103, 105, 107]);

    let mut short = vec![stage(20, 1), stage(21, 2)];
    compact_stages(&mut short);
    assert_eq!(short.len(), 2);
}

#[test]
fn summary_includes_full_charge_and_handles_clock_rollback() {
    let staged = vec![stage(40, 200), stage(100, 190)];
    let history = summarize_stages(staged, DeviceType::Local, String::new()).unwrap();

    assert_eq!(history.from_level, 40);
    assert_eq!(history.end_level, 100);
    assert_eq!(history.duration, 0);
}

#[test]
fn summary_of_remote_session() {
    let mut staged = vec![stage(40, 200), stage(60, 260), stage(80, 320)];
    staged[0].data.adapter_name = Some("first".to_string());
    staged[1].data.adapter_name = Some("second".to_string());
    let history = summarize_stages(staged, DeviceType::Remote("UDID-1".to_string()), "Phone".to_string()).unwrap();
    assert!(history.is_remote);
    assert_eq!(history.udid, "UDID-1");
    assert_eq!(history.name, "Phone");
    assert_eq!(history.timestamp, 200);
    assert_eq!(history.duration, 120);
    assert_eq!(history.adapter_name, "second");
    assert_eq!(history.curve.len(), 3);

    let local = summarize_stages(vec![stage(40, 200)], DeviceType::Local, String::new()).unwrap();
    assert_eq!(local.udid, "local");
    assert_eq!(local.adapter_name, "Unknown");
    assert!(summarize_stages::<String>(Vec::new(), DeviceType::Local, String::new()).is_none());
}

#[test]
fn push_stage_compacts_a_full_session() {
    let mut staged: Vec<ChargingHistoryStage<()>> = (0..43_200)
        .map(|i| ChargingHistoryStage { data: sample(20, i + 1), payload: () })
        .collect();
    push_stage(&mut staged, ChargingHistoryStage { data: sample(21, 50_000), payload: () });
    assert_eq!(staged.len(), 21_602);
    assert_eq!(staged[0].data.last_update, 1);
    assert_eq!(staged[staged.len() - 2].data.last_update, 43_200);
    assert_eq!(staged.last().unwrap().data.last_update, 50_000);
}

fn with(level: i32, timestamp: i64, charging: bool, full: bool) -> NormalizedResource {
    let mut d = sample(level, timestamp);
    d.is_charging = charging;
    d.fully_charged = full;
    d
}

#[test]
fn recorder_finishes_a_session_on_full_charge() {
    let mut rec: ChargingStages<u32> = ChargingStages::new();
    assert!(rec.record(with(40, 100, true, false), 1).is_none());
    assert!(rec.record(with(50, 110, true, false), 2).is_none());
    assert!(rec.record(with(60, 120, true, false), 3).is_none());
    let done = rec.record(with(100, 130, false, true), 4).expect("session");
    assert_eq!(done.len(), 4);
    assert_eq!(done.last().unwrap().payload, 4);
    assert!(rec.staged().is_empty());
}

#[test]
fn recorder_never_starts_on_a_full_sample_and_drops_short_sessions() {
    let mut rec: ChargingStages<u32> = ChargingStages::new();
    assert!(rec.record(with(100, 100, true, false), 1).is_none());
    assert!(rec.staged().is_empty());
    assert!(rec.record(with(40, 100, true, false), 1).is_none());
    // Unplugged after one sample: the two-sample session is discarded.
    assert!(rec.record(with(41, 110, false, false), 2).is_none());
    assert!(rec.staged().is_empty());
}

#[test]
fn recorder_drops_out_of_order_charging_samples_and_clamps_terminal_ones() {
    let mut rec: ChargingStages<u32> = ChargingStages::new();
    rec.record(with(40, 100, true, false), 1);
    rec.record(with(50, 110, true, false), 2);
    // Earlier timestamp while still charging: dropped.
    assert!(rec.record(with(55, 105, true, false), 3).is_none());
    assert_eq!(rec.staged().len(), 2);
    // Same timestamp while charging: not staged again.
    assert!(rec.record(with(55, 110, true, false), 3).is_none());
    assert_eq!(rec.staged().len(), 2);
    // Unplugged with the clock moved back: kept, at the last timestamp.
    let done = rec.record(with(56, 90, false, false), 4).expect("session");
    assert_eq!(done.len(), 3);
    assert_eq!(done[2].data.last_update, 110);
}

#[test]
fn recorder_keeps_devices_apart_and_records_health_once_a_day() {
    let mut rec: HistoryRecorder<u32> = HistoryRecorder::new();
    let phone = DeviceType::Remote("PHONE".to_string());
    rec.record(&DeviceType::Local, with(40, 100, true, false), 1);
    rec.record(&phone, with(10, 100, true, false), 2);
    rec.record(&DeviceType::Local, with(41, 110, true, false), 3);
    rec.record(&phone, with(11, 110, true, false), 4);
    rec.record(&DeviceType::Local, with(42, 120, true, false), 5);
    let done = rec.record(&DeviceType::Local, with(43, 130, false, false), 6).expect("local session");
    assert_eq!(done.iter().map(|s| s.payload).collect::<Vec<_>>(), vec![1, 3, 5, 6]);
    // The phone's session is untouched by the local unplug.
    assert!(rec.record(&phone, with(12, 120, true, false), 7).is_none());
    let done = rec.record(&phone, with(100, 130, false, true), 8).expect("phone session");
    assert_eq!(done.iter().map(|s| s.payload).collect::<Vec<_>>(), vec![2, 4, 7, 8]);

    let mut sample = with(50, 100, true, false);
    sample.max_capacity = 6000;
    sample.design_capacity = 6249;
    let today = "2025-01-02".to_string();
    assert!(rec.needs_health_snapshot(&DeviceType::Local, &sample, &today));
    assert!(!rec.needs_health_snapshot(&phone, &sample, &today));
    rec.health_snapshot_saved(today.clone());
    assert!(!rec.needs_health_snapshot(&DeviceType::Local, &sample, &today));
    assert!(rec.needs_health_snapshot(&DeviceType::Local, &sample, &"2025-01-03".to_string()));
}
