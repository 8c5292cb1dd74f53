use mc_sync::power::{InstanceStatus, PowerController, PowerState, RUNNING, STOPPED};

fn status(id: &str, code: i64) -> InstanceStatus {
    InstanceStatus { instance_id: Some(id.to_string()), code: Some(code) }
}

#[test]
fn start_polls_until_running_code() {
    let mut c = PowerController::new("i-0abc".to_string());
    assert_eq!(c.state(), PowerState::Stopped);
    assert!(c.activate());
    assert_eq!(c.state(), PowerState::Starting);
    // pending
    assert!(c.observe_status(Some(&vec![status("i-0abc", 0)])));
    assert_eq!(c.state(), PowerState::Starting);
    // running, but for another instance
    assert!(c.observe_status(Some(&vec![status("i-other", RUNNING)])));
    assert_eq!(c.state(), PowerState::Starting);
    // a failed query is retried
    assert!(c.observe_status(None));
    assert_eq!(c.state(), PowerState::Starting);
    // no code given
    let partial = InstanceStatus { instance_id: Some("i-0abc".to_string()), code: None };
    assert!(c.observe_status(Some(&vec![partial])));
    assert_eq!(c.state(), PowerState::Starting);
    assert!(!c.observe_status(Some(&vec![status("i-other", 0), status("i-0abc", RUNNING)])));
    assert_eq!(c.state(), PowerState::Running);
    // polling is over
    assert!(!c.observe_status(Some(&vec![status("i-0abc", 0)])));
    assert_eq!(c.state(), PowerState::Running);
}

#[test]
fn status_code_is_masked_to_its_low_byte() {
    let mut c = PowerController::new("i-1".to_string());
    assert!(c.activate());
    assert!(!c.observe_status(Some(&vec![status("i-1", 0x1100 | RUNNING)])));
    assert_eq!(c.state(), PowerState::Running);
}

#[test]
fn stop_polls_until_stopped_code() {
    let mut c = PowerController::new("i-1".to_string());
    assert!(c.activate());
    assert!(!c.observe_status(Some(&vec![status("i-1", RUNNING)])));
    assert!(c.deactivate());
    assert_eq!(c.state(), PowerState::Stopping);
    assert!(c.observe_status(Some(&vec![status("i-1", 64)])));
    assert_eq!(c.state(), PowerState::Stopping);
    assert!(!c.observe_status(Some(&vec![status("i-1", STOPPED)])));
    assert_eq!(c.state(), PowerState::Stopped);
}

#[test]
fn repeated_calls_are_no_ops() {
    let mut c = PowerController::new("i-1".to_string());
    assert!(!c.deactivate());
    assert_eq!(c.state(), PowerState::Stopped);
    assert!(c.activate());
    assert!(!c.activate());
    assert!(!c.deactivate());
    assert_eq!(c.state(), PowerState::Starting);
    assert_eq!(c.instance_id(), "i-1");
}
