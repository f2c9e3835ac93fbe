use std::collections::HashSet;

use powerflow::device::{Action, InterfaceType};
use powerflow::event::DeviceEvent;
use powerflow::registry::DeviceState;

fn event(udid: &str, name: &str, interface: InterfaceType, action: Action) -> DeviceEvent {
    DeviceEvent { udid: udid.to_string(), name: name.to_string(), interface, action }
}

#[test]
fn device_names_and_interfaces_are_tracked() {
    let mut state = DeviceState::new();
    assert!(!state.apply(&event("U1", "Phone", InterfaceType::USB, Action::Attached)));
    assert!(!state.apply(&event("U1", "", InterfaceType::WiFi, Action::Attached)));
    let (name, ifaces) = state.get(&"U1".to_string()).unwrap();
    assert_eq!(name, "Phone");
    assert_eq!(ifaces.into_iter().collect::<HashSet<_>>(), HashSet::from([InterfaceType::USB, InterfaceType::WiFi]));

    assert!(!state.apply(&event("U1", "", InterfaceType::USB, Action::Detached)));
    assert!(state.apply(&event("U1", "", InterfaceType::WiFi, Action::Detached)));
    // Kept for name lookups until cleaned up.
    assert_eq!(state.get(&"U1".to_string()).unwrap().0, "Phone");
    state.apply(&event("U1", "", InterfaceType::USB, Action::Attached));
    state.cleanup(&"U1".to_string());
    assert!(state.get(&"U1".to_string()).is_some());
    state.apply(&event("U1", "", InterfaceType::USB, Action::Detached));
    state.cleanup(&"U1".to_string());
    assert!(state.get(&"U1".to_string()).is_none());
}
