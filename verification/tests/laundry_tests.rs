use http_server::laundry_view::{LaundryMachine, LaundryStatus, LaundryView, MachineType};

fn machine(a: Option<&str>, b: Option<&str>, kind: Option<&str>) -> LaundryMachine {
    LaundryMachine {
        time_left_lite: a.map(String::from),
        time_left_lite2: b.map(String::from),
        appliance_type: kind.map(String::from),
    }
}

#[test]
fn which_type_reads_code() {
    assert_eq!(machine(None, None, Some("W")).which_type(), Some(MachineType::Washer));
    assert_eq!(machine(None, None, Some("D")).which_type(), Some(MachineType::Dryer));
    assert_eq!(machine(None, None, Some("WD")).which_type(), None);
    assert_eq!(machine(None, None, Some("w")).which_type(), None);
    assert_eq!(machine(None, None, None).which_type(), None);
}

#[test]
fn availability_counts_free_slots() {
    assert_eq!(machine(Some("Available"), Some("Available"), None).get_availability(), 2);
    assert_eq!(machine(Some("Available"), Some("12 min"), None).get_availability(), 1);
    assert_eq!(machine(None, Some("Available"), None).get_availability(), 1);
    assert_eq!(machine(Some("available"), None, None).get_availability(), 0);
}

#[test]
fn status_sums_by_kind() {
    let view = LaundryView {
        machines: vec![
            machine(Some("Available"), Some("Available"), Some("W")),
            machine(Some("Available"), None, Some("D")),
            machine(Some("Available"), Some("Available"), Some("X")),
            machine(Some("Out of order"), Some("Available"), Some("W")),
        ],
    };
    assert_eq!(view.get_status(), LaundryStatus { washers: 3, dryers: 1 });
    let empty = LaundryView { machines: vec![] };
    assert_eq!(empty.get_status(), LaundryStatus::new(0, 0));
}

#[test]
fn status_new_keeps_counts() {
    let s = LaundryStatus::new(4, 9);
    assert_eq!(s.washers, 4);
    assert_eq!(s.dryers, 9);
}

#[test]
fn new_passes_view_or_explains_error() {
    let ok = LaundryView::new(Ok(LaundryView { machines: vec![machine(None, None, Some("W"))] }));
    assert_eq!(ok.unwrap().machines.len(), 1);
    let err = LaundryView::new(Err(String::from("EOF")));
    assert_eq!(
        err.err().unwrap(),
        "Error creating Laundry View: couldn't parse jsoni EOF"
    );
}

#[test]
fn update_replaces_or_keeps_machines() {
    let mut view = LaundryView { machines: vec![machine(Some("Available"), None, Some("W"))] };
    let r = view.update(Err(String::from("bad")));
    assert_eq!(r, Err(String::from("Error updating Laundry View: couldn't parse json bad")));
    assert_eq!(view.get_status(), LaundryStatus::new(1, 0));
    let fresh = LaundryView {
        machines: vec![
            machine(Some("Available"), None, Some("D")),
            machine(Some("Available"), Some("Available"), Some("D")),
        ],
    };
    assert_eq!(view.update(Ok(fresh)), Ok(()));
    assert_eq!(view.get_status(), LaundryStatus::new(0, 3));
}

#[test]
fn status_ignores_order_and_other_kinds() {
    let v1 = LaundryView {
        machines: vec![
            machine(Some("Available"), Some("Available"), Some("W")),
            machine(Some("Available"), None, Some("D")),
            machine(None, Some("Available"), Some("W")),
        ],
    };
    let v2 = LaundryView {
        machines: vec![
            machine(Some("Available"), Some("Available"), Some("X")),
            machine(None, Some("Available"), Some("W")),
            machine(Some("Available"), None, None),
            machine(Some("Available"), None, Some("D")),
            machine(Some("Available"), Some("Available"), Some("W")),
        ],
    };
    assert_eq!(v1.get_status(), v2.get_status());
    assert_eq!(v2.get_status(), LaundryStatus::new(3, 1));
}
