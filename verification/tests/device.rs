use powerflow::device::{
    Device, DeviceCall, DeviceError, InterfaceType, PrepareNext, PrepareStage, ServiceConnection,
};
use powerflow::registry::{preferred_connection, preferred_interface, AttachDecision, DeviceConnections};

#[test]
fn usb_is_preferred_and_wifi_is_the_fallback() {
    assert_eq!(
        preferred_interface(&vec![InterfaceType::WiFi, InterfaceType::USB]),
        Some(InterfaceType::USB)
    );
    assert_eq!(
        preferred_interface(&vec![InterfaceType::WiFi]),
        Some(InterfaceType::WiFi)
    );
    assert_eq!(preferred_interface(&Vec::new()), None);
}

#[test]
fn preferred_connection_follows_the_interface_order() {
    let conns = vec![(InterfaceType::WiFi, "wifi"), (InterfaceType::USB, "usb")];
    assert_eq!(preferred_connection(&conns), Some(&"usb"));
    let conns = vec![(InterfaceType::Unknown, "other"), (InterfaceType::WiFi, "wifi")];
    assert_eq!(preferred_connection(&conns), Some(&"wifi"));
    let none: Vec<(InterfaceType, &str)> = Vec::new();
    assert_eq!(preferred_connection(&none), None);
}

fn run(device: &mut Device, statuses: &[(PrepareStage, i32)]) -> PrepareNext {
    let mut stage = PrepareStage::Connect;
    for (expected, status) in statuses {
        assert_eq!(stage, *expected);
        match device.prepare_device(stage, *status) {
            PrepareNext::Call(next) => stage = next,
            done => return done,
        }
    }
    panic!("preparation did not finish");
}

#[test]
fn preparation_pairs_when_needed_and_starts_a_session() {
    let mut device = Device::new(7, Some("UDID".to_string()), InterfaceType::USB, true);
    let done = run(&mut device, &[
        (PrepareStage::Connect, 0),
        (PrepareStage::CheckPaired, 0),
        (PrepareStage::Pair, 0),
        (PrepareStage::ValidatePairing, 0),
        (PrepareStage::StartSession, 0),
    ]);
    match done {
        PrepareNext::Done(Ok(()), calls) => assert!(calls.is_empty()),
        other => panic!("unexpected {other:?}"),
    }
    assert!(device.is_connected() && device.is_session_active());
    assert_eq!(device.release(), vec![DeviceCall::StopSession, DeviceCall::Disconnect, DeviceCall::Release]);
    assert!(device.release().is_empty());
}

#[test]
fn failed_preparation_disconnects() {
    let mut device = Device::new(7, None, InterfaceType::WiFi, false);
    assert_eq!(device.udid, "");
    let done = run(&mut device, &[
        (PrepareStage::Connect, 0),
        (PrepareStage::CheckPaired, 1),
        (PrepareStage::ValidatePairing, -402653158),
    ]);
    match done {
        PrepareNext::Done(Err(DeviceError::Validate(-402653158)), calls) => {
            assert_eq!(calls, vec![DeviceCall::Disconnect])
        }
        other => panic!("unexpected {other:?}"),
    }
    assert!(!device.is_connected());

    let mut device = Device::new(7, None, InterfaceType::WiFi, false);
    match device.prepare_device(PrepareStage::Connect, 5) {
        PrepareNext::Done(Err(DeviceError::Connect(5)), calls) => assert!(calls.is_empty()),
        other => panic!("unexpected {other:?}"),
    }
    assert!(device.disconnect().is_empty());
}

#[test]
fn service_start_and_message_statuses() {
    let device = Device::new(7, None, InterfaceType::USB, false);
    assert_eq!(device.start_service(0, 99), Ok(ServiceConnection(99)));
    assert_eq!(device.start_service(3, 99), Err(DeviceError::Service(3)));
    assert_eq!(device.start_service(0, 0), Err(DeviceError::Service(-1)));
    assert_eq!(ServiceConnection::send_status(0), Ok(()));
    assert_eq!(ServiceConnection::send_status(-2), Err(-2));
    assert_eq!(ServiceConnection::receive_status(0, 5), Ok(5));
    assert_eq!(ServiceConnection::receive_status(0, 0), Err(-1));
    assert_eq!(ServiceConnection::receive_status(4, 5), Err(4));
}

#[test]
fn one_poll_target_per_device() {
    let mut conns: DeviceConnections<&str> = DeviceConnections::new();
    let a = "A".to_string();
    assert_eq!(conns.attach_decision(&String::new(), InterfaceType::USB), AttachDecision::EmptyUdid);
    assert_eq!(conns.attach_decision(&a, InterfaceType::WiFi), AttachDecision::Accept);
    assert!(conns.attach(a.clone(), InterfaceType::WiFi, Ok("a-wifi")));
    assert_eq!(conns.attach_decision(&a, InterfaceType::WiFi), AttachDecision::Duplicate);
    assert!(conns.attach(a.clone(), InterfaceType::USB, Ok("a-usb")));
    assert!(conns.attach("B".to_string(), InterfaceType::WiFi, Ok("b-wifi")));
    let targets: Vec<&str> = conns.tick_targets().iter().map(|c| c.conn).collect();
    assert_eq!(targets, vec!["a-usb", "b-wifi"]);
    assert_eq!(conns.remove(&a, InterfaceType::USB), Some("a-usb"));
    let targets: Vec<&str> = conns.tick_targets().iter().map(|c| c.conn).collect();
    assert_eq!(targets, vec!["a-wifi", "b-wifi"]);
    assert_eq!(conns.remove(&a, InterfaceType::USB), None);
}

#[test]
fn connections_are_kept_only_after_a_successful_preparation() {
    let mut conns: DeviceConnections<&str> = DeviceConnections::new();
    let a = "A".to_string();
    assert!(!conns.attach(String::new(), InterfaceType::USB, Ok("nameless")));
    assert!(!conns.attach(a.clone(), InterfaceType::USB, Err(DeviceError::Pair(-3))));
    assert!(conns.tick_targets().is_empty());
    assert!(conns.attach(a.clone(), InterfaceType::USB, Ok("a-usb")));
    assert!(!conns.attach(a.clone(), InterfaceType::USB, Ok("again")));
    let targets: Vec<&str> = conns.tick_targets().iter().map(|c| c.conn).collect();
    assert_eq!(targets, vec!["a-usb"]);
}
