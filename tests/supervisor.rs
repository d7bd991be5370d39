use usbipd_manager::supervisor::{AutoAttachConfig, StartPlan, Supervisor};

fn ids(sup: &Supervisor<u32>) -> Vec<String> {
    sup.config().auto_attach_devices.clone()
}

#[test]
fn startup_drops_stale_record() {
    let loaded = AutoAttachConfig {
        auto_attach_devices: vec![String::from("A"), String::from("B")],
    };
    let sup: Supervisor<u32> = Supervisor::new(&loaded);
    assert!(!sup.is_running("A"));
    assert!(!sup.is_running("B"));
    assert!(ids(&sup).is_empty());
}

#[test]
fn start_twice_keeps_one_process() {
    let mut sup: Supervisor<u32> = Supervisor::new(&AutoAttachConfig::empty());
    match sup.plan_start("1-6", "Ubuntu-24.04") {
        StartPlan::Spawn(args) => assert_eq!(
            args,
            vec!["attach", "--wsl", "Ubuntu-24.04", "--busid", "1-6", "--auto-attach"]
        ),
        StartPlan::AlreadyRunning => panic!("nothing runs yet"),
    }
    assert_eq!(sup.record_start("1-6", 7), None);
    assert!(matches!(sup.plan_start("1-6", "Ubuntu-24.04"), StartPlan::AlreadyRunning));
    assert_eq!(sup.record_start("1-6", 8), Some(8));
    assert_eq!(ids(&sup), vec!["1-6"]);
    assert_eq!(sup.shutdown_all(), vec![7]);
}

#[test]
fn start_then_stop_leaves_nothing() {
    let mut sup: Supervisor<u32> = Supervisor::new(&AutoAttachConfig::empty());
    sup.record_start("2-1", 1);
    sup.record_start("1-6", 2);
    assert_eq!(sup.stop_auto_attach("1-6"), Some(2));
    assert!(!sup.is_running("1-6"));
    assert!(!sup.is_desired("1-6"));
    assert_eq!(ids(&sup), vec!["2-1"]);
    assert!(sup.is_running("2-1"));
}

#[test]
fn stop_of_absent_device_is_a_no_op() {
    let mut sup: Supervisor<u32> = Supervisor::new(&AutoAttachConfig::empty());
    sup.record_start("2-1", 1);
    assert_eq!(sup.stop_auto_attach("9-9"), None);
    assert_eq!(ids(&sup), vec!["2-1"]);
}

#[test]
fn shutdown_is_idempotent() {
    let mut sup: Supervisor<u32> = Supervisor::new(&AutoAttachConfig::empty());
    sup.record_start("a", 1);
    sup.record_start("b", 2);
    sup.record_start("c", 3);
    assert_eq!(sup.shutdown_all(), vec![1, 2, 3]);
    assert!(ids(&sup).is_empty());
    assert_eq!(sup.shutdown_all(), Vec::<u32>::new());
}

#[test]
fn stop_in_the_middle_keeps_order() {
    let mut sup: Supervisor<u32> = Supervisor::new(&AutoAttachConfig::empty());
    sup.record_start("a", 1);
    sup.record_start("b", 2);
    sup.record_start("c", 3);
    assert_eq!(sup.stop_auto_attach("b"), Some(2));
    assert_eq!(ids(&sup), vec!["a", "c"]);
    assert_eq!(sup.shutdown_all(), vec![1, 3]);
}
