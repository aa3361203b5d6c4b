use freedsp::discovery::{find_candidates, find_open_order, DeviceEntry, Largest};
use freedsp::opening::{permission_hint, OpenAction, OpenEvent, Opening};

fn entry(vendor_id: u16, product_id: u16, usage_page: u16, path: &str) -> DeviceEntry {
    DeviceEntry { vendor_id, product_id, usage_page, path: path.as_bytes().to_vec() }
}

const V: u16 = 0x35D8;

#[test]
fn only_cables_with_a_path_are_candidates() {
    let list = vec![
        entry(0x1234, 0x1499, 1, "a"),
        entry(V, 0x1499, 1, ""),
        entry(V, 0x1499, 1, "b"),
        entry(V, 0x1497, 1, "c"),
    ];
    assert_eq!(find_candidates(&list, None), [2, 3]);
    assert_eq!(find_candidates(&vec![], None), []);
}

#[test]
fn preferred_cable_is_chosen_if_it_is_there() {
    let list = vec![
        entry(V, 0x1499, 1, "a"),
        entry(V, 0x1497, 1, "b"),
        entry(V, 0x1499, 2, "c"),
        entry(1, 0x1496, 1, "d"),
    ];
    assert_eq!(find_candidates(&list, Some(0x1497)), [1]);
    assert_eq!(find_candidates(&list, Some(0x1499)), [0, 2]);
    assert_eq!(find_candidates(&list, Some(0x1496)), [0, 1, 2]);
}

#[test]
fn vendor_pages_come_first_and_each_path_once() {
    let list = vec![
        entry(V, 1, 0x0c, "a"),
        entry(V, 1, 0xFF00, "b"),
        entry(V, 1, 0xFEFF, "c"),
        entry(V, 1, 0xFFFF, "d"),
        entry(V, 1, 0xFF00, "b"),
        entry(V, 1, 0x0c, "d"),
        entry(V, 1, 0x0c, "a"),
    ];
    assert_eq!(find_open_order(&list, None), [1, 3, 0, 2]);
    assert_eq!(find_open_order(&list, Some(1)), [1, 3, 0, 2]);
}

fn is_try(a: &OpenAction, place: usize) -> bool {
    matches!(a, OpenAction::TryOpen(i) if *i == place)
}

fn failure(a: OpenAction) -> String {
    match a {
        OpenAction::Fail(reason) => reason,
        _ => panic!("no failure"),
    }
}

/// The place that is opened, where the paths of `opens` open.
fn run(list: &[(u16, &str)], opens: &[&str]) -> Option<usize> {
    let entries = || list.iter().map(|(page, path)| entry(V, 1, *page, path)).collect();
    let mut o = Opening::new(None, true, false);
    let mut action = o.step(OpenEvent::Listed(entries()));
    loop {
        let event = match action {
            OpenAction::TryOpen(i) if opens.contains(&list[i].1) => OpenEvent::Opened,
            OpenAction::TryOpen(_) => OpenEvent::OpenFailed("busy".to_string()),
            OpenAction::Opened(i) => return Some(i),
            OpenAction::Fail(_) => return None,
            _ => panic!("a fresh list is not made anew"),
        };
        action = o.step(event);
    }
}

#[test]
fn repeated_paths_do_not_change_the_choice() {
    let list = [(1, "a"), (0xFF00, "b"), (1, "b"), (0xFF00, "c"), (1, "a"), (0xFF00, "b")];
    // All candidates, those on a vendor's own page first.
    let all = [1, 3, 5, 0, 2, 4];
    for opens in [vec![], vec!["a"], vec!["b"], vec!["c"], vec!["a", "c"], vec!["a", "b", "c"]] {
        let want = all.iter().copied().find(|i| opens.contains(&list[*i].1));
        assert_eq!(run(&list, &opens), want);
    }
}

fn two_cables() -> Vec<DeviceEntry> {
    vec![entry(V, 1, 1, "a"), entry(V, 1, 0xFF00, "b")]
}

#[test]
fn the_first_device_that_opens_is_the_cable() {
    let mut o = Opening::new(None, true, false);
    assert!(is_try(&o.step(OpenEvent::Listed(two_cables())), 1));
    assert!(is_try(&o.step(OpenEvent::OpenFailed("busy".to_string())), 0));
    assert!(matches!(o.step(OpenEvent::Opened), OpenAction::Opened(0)));
}

#[test]
fn a_fresh_list_is_not_made_anew() {
    let mut o = Opening::new(None, true, false);
    assert_eq!(failure(o.step(OpenEvent::Listed(vec![]))), "no Moondrop cable found");
    let mut o = Opening::new(None, true, false);
    o.step(OpenEvent::Listed(two_cables()));
    o.step(OpenEvent::OpenFailed("first".to_string()));
    assert_eq!(
        failure(o.step(OpenEvent::OpenFailed("second".to_string()))),
        "could not open the Moondrop cable: second\n\nIf the cable is plugged in, you may not \
         have permission to open the hidraw device. A udev rule granting access to VID 35d8 is \
         needed."
    );
}

#[test]
fn an_old_list_is_made_anew_once() {
    let mut o = Opening::new(Some(7), false, true);
    assert!(matches!(o.step(OpenEvent::Listed(vec![])), OpenAction::Refresh));
    assert!(matches!(o.step(OpenEvent::Refreshed), OpenAction::List));
    assert!(is_try(&o.step(OpenEvent::Listed(two_cables())), 1));
    assert!(is_try(&o.step(OpenEvent::OpenFailed("x".to_string())), 0));
    assert_eq!(
        failure(o.step(OpenEvent::OpenFailed("y".to_string()))),
        "could not open the Moondrop cable: y\n\nmacOS is most likely blocking HID access. Open \
         System Settings > Privacy & Security > Input Monitoring, allow FreeDSP Studio, then try \
         again."
    );
}

#[test]
fn an_old_list_whose_devices_do_not_open_is_made_anew() {
    let mut o = Opening::new(None, false, false);
    o.step(OpenEvent::Listed(vec![entry(V, 1, 1, "a")]));
    assert!(matches!(o.step(OpenEvent::OpenFailed("gone".to_string())), OpenAction::Refresh));
    assert_eq!(failure(o.step(OpenEvent::RefreshFailed("bus".to_string()))), "bus");
}

#[test]
fn hints_name_the_platform() {
    assert!(permission_hint(true).contains("macOS"));
    assert!(permission_hint(false).contains("udev"));
}

#[test]
fn the_first_longest_report_wins() {
    let mut l = Largest::new();
    assert_eq!(l.finish(), Err("no Moondrop cable found".to_string()));
    assert!(!l.offer(0, None));
    assert!(l.finish().is_err());
    assert!(l.offer(1, Some(8)));
    assert!(l.offer(2, Some(62)));
    assert!(!l.offer(3, Some(62)));
    assert!(!l.offer(4, Some(9)));
    assert!(!l.offer(5, None));
    assert_eq!(l.finish(), Ok(2));
}
