use usbipd_manager::command::elevated_outcome;
use usbipd_manager::device::DeviceState;
use usbipd_manager::device::DeviceState::{Attached, NotShared, Shared, Unknown};
use usbipd_manager::manager::{permitted, Manager, RenderRow, Rejection, Request};
use usbipd_manager::parser::{parse_device_list, PollError};
use usbipd_manager::supervisor::{AutoAttachConfig, StartPlan};

fn listing(state: &str) -> String {
    format!(
        "Connected:\nBUSID  VID:PID    DEVICE  STATE\n1-6    046d:c52b  USB Input Device  {}\n\n",
        state
    )
}

fn manager() -> Manager<u32> {
    Manager::new(&AutoAttachConfig::empty(), "Ubuntu-24.04")
}

fn find<'a>(rows: &'a [RenderRow], id: &str) -> &'a RenderRow {
    rows.iter().find(|r| r.bus_id == id).unwrap()
}

#[test]
fn policy_table() {
    for s in [NotShared, Shared, Attached, Unknown] {
        assert_eq!(permitted(Request::Bind, s), s == NotShared || s == Unknown);
        assert_eq!(permitted(Request::Unbind, s), s == Shared || s == Attached);
        assert_eq!(permitted(Request::Attach, s), s == Shared);
        assert_eq!(permitted(Request::StartAutoAttach, s), s == Shared);
        assert!(permitted(Request::Detach, s));
        assert!(permitted(Request::StopAutoAttach, s));
    }
}

#[test]
fn bind_of_shared_device_is_rejected() {
    let mut m = manager();
    m.refresh(Ok(parse_device_list(&listing("Shared")))).unwrap();
    assert_eq!(
        m.plan_bind(Some("1-6")),
        Err(Rejection::NotPermitted(Request::Bind, DeviceState::Shared))
    );
}

#[test]
fn nothing_selected_is_rejected() {
    let mut m = manager();
    assert_eq!(m.plan_bind(None), Err(Rejection::NoDeviceSelected));
    assert_eq!(m.plan_detach(None), Err(Rejection::NoDeviceSelected));
    assert_eq!(m.stop_auto_attach(None), Err(Rejection::NoDeviceSelected));
}

#[test]
fn unknown_device_counts_as_unknown_state() {
    let m = manager();
    assert_eq!(m.state_of("5-5"), DeviceState::Unknown);
    assert!(m.plan_bind(Some("5-5")).is_ok());
    assert_eq!(
        m.plan_attach(Some("5-5")),
        Err(Rejection::NotPermitted(Request::Attach, DeviceState::Unknown))
    );
    assert_eq!(m.plan_detach(Some("5-5")).unwrap(), vec!["detach", "--busid", "5-5"]);
}

#[test]
fn bind_share_auto_attach_end_to_end() {
    let mut m = manager();
    let rows = m.refresh(Ok(parse_device_list(&listing("Not shared")))).unwrap();
    assert_eq!(find(&rows, "1-6").state, DeviceState::NotShared);
    let args = m.plan_bind(Some("1-6")).unwrap();
    assert_eq!(args, vec!["bind", "--busid", "1-6", "--force"]);
    assert_eq!(elevated_outcome(42), Ok(()));
    let rows = m.refresh(Ok(parse_device_list(&listing("Shared")))).unwrap();
    assert_eq!(find(&rows, "1-6").state, DeviceState::Shared);
    assert!(!find(&rows, "1-6").auto_attach_active);
    match m.plan_auto_attach(Some("1-6")).unwrap() {
        StartPlan::Spawn(args) => assert_eq!(
            args,
            vec!["attach", "--wsl", "Ubuntu-24.04", "--busid", "1-6", "--auto-attach"]
        ),
        StartPlan::AlreadyRunning => panic!("nothing runs yet"),
    }
    assert_eq!(m.record_auto_attach("1-6", 11), None);
    assert_eq!(m.config().auto_attach_devices, vec!["1-6"]);
    let rows = m.render();
    assert_eq!(rows.len(), 1);
    assert!(find(&rows, "1-6").auto_attach_active);
    assert_eq!(find(&rows, "1-6").description, "USB Input Device");
}

#[test]
fn failed_poll_keeps_last_listing() {
    let mut m = manager();
    m.refresh(Ok(parse_device_list(&listing("Shared")))).unwrap();
    assert_eq!(m.refresh(Err(PollError::Undecodable)).unwrap_err(), PollError::Undecodable);
    assert_eq!(m.state_of("1-6"), DeviceState::Shared);
    assert_eq!(m.render().len(), 1);
}

#[test]
fn unbind_stops_auto_attach_first() {
    let mut m = manager();
    m.refresh(Ok(parse_device_list(&listing("Shared")))).unwrap();
    m.record_auto_attach("1-6", 5);
    let (handle, args) = m.plan_unbind(Some("1-6")).unwrap();
    assert_eq!(handle, Some(5));
    assert_eq!(args, vec!["unbind", "--busid", "1-6"]);
    assert!(m.config().auto_attach_devices.is_empty());
}

#[test]
fn unbind_of_unshared_device_is_rejected_and_keeps_process() {
    let mut m = manager();
    m.refresh(Ok(parse_device_list(&listing("Not shared")))).unwrap();
    m.record_auto_attach("1-6", 5);
    assert_eq!(
        m.plan_unbind(Some("1-6")).unwrap_err(),
        Rejection::NotPermitted(Request::Unbind, DeviceState::NotShared)
    );
    assert_eq!(m.config().auto_attach_devices, vec!["1-6"]);
}

#[test]
fn auto_attach_needs_shared_state() {
    let mut m = manager();
    m.refresh(Ok(parse_device_list(&listing("Attached")))).unwrap();
    assert!(m.plan_auto_attach(Some("1-6")).is_err());
    assert!(m.plan_attach(Some("1-6")).is_err());
    m.refresh(Ok(parse_device_list(&listing("Shared (forced)")))).unwrap();
    assert!(m.plan_auto_attach(Some("1-6")).is_ok());
    assert_eq!(
        m.plan_attach(Some("1-6")).unwrap(),
        vec!["attach", "--wsl", "Ubuntu-24.04", "--busid", "1-6"]
    );
}

#[test]
fn stop_and_shutdown_through_manager() {
    let mut m = manager();
    m.record_auto_attach("a", 1);
    m.record_auto_attach("b", 2);
    assert_eq!(m.stop_auto_attach(Some("a")), Ok(Some(1)));
    assert_eq!(m.stop_auto_attach(Some("a")), Ok(None));
    assert_eq!(m.shutdown_all(), vec![2]);
    assert!(m.config().auto_attach_devices.is_empty());
}
