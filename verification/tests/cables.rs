use freedsp::profile::cable_profile;
use freedsp::text::{hex, same_text};

fn names(pid: u16) -> Vec<(u8, String)> {
    cable_profile(pid, "whatever").2.into_iter().collect()
}

fn table(want: &[(u8, &str)]) -> Vec<(u8, String)> {
    want.iter().map(|(k, v)| (*k, v.to_string())).collect()
}

#[test]
fn dusk_sp() {
    let (name, has, _) = cable_profile(0x1499, "whatever");
    assert_eq!(name, "DUSK-SP");
    assert_eq!(has, Some(true));
    assert_eq!(
        names(0x1499),
        table(&[
            (0, "Custom EQ"),
            (1, "DUSK-Default"),
            (2, "DUSK-V"),
            (3, "DUSK-Harman"),
            (4, "DUSK-Bass+"),
            (5, "DUSK-Diffuse-Tilted"),
        ])
    );
}

#[test]
fn may() {
    let (name, has, _) = cable_profile(0x1497, "");
    assert_eq!(name, "MAY");
    assert_eq!(has, Some(true));
    assert_eq!(
        names(0x1497),
        table(&[
            (0, "Custom EQ"),
            (1, "Standard"),
            (2, "Bass Head"),
            (3, "Reference"),
            (4, "No Bass"),
            (5, "Harman Style"),
        ])
    );
}

#[test]
fn free_dsp() {
    let (name, has, _) = cable_profile(0x1496, "");
    assert_eq!(name, "FreeDSP");
    assert_eq!(has, Some(false));
    assert_eq!(names(0x1496), table(&[(0, "Custom EQ")]));
}

#[test]
fn unknown_cable_with_a_product_name() {
    let (name, has, presets) = cable_profile(0x1234, "Some Cable");
    assert_eq!(name, "Some Cable");
    assert_eq!(has, None);
    assert_eq!(presets.len(), 1);
    assert_eq!(presets[&0], "Custom EQ");
}

#[test]
fn unknown_cable_without_a_product_name() {
    assert_eq!(cable_profile(0x1498, "").0, "Moondrop 0x1498");
    assert_eq!(cable_profile(0xabcd, "").0, "Moondrop 0xabcd");
    assert_eq!(cable_profile(0, "").0, "Moondrop 0x0");
}

#[test]
fn every_cable_has_the_custom_bank_and_a_name() {
    for pid in 0..=u16::MAX {
        let (name, has, presets) = cable_profile(pid, "");
        assert!(!name.is_empty());
        assert_eq!(presets[&0], "Custom EQ");
        assert_eq!(presets.len(), if has == Some(true) { 6 } else { 1 });
    }
}

#[test]
fn hexadecimal_numbers() {
    for n in [0u16, 9, 10, 15, 16, 0xff, 0x100, 0xdead, u16::MAX] {
        assert_eq!(hex(n), format!("{:x}", n));
    }
}

#[test]
fn texts_compare() {
    assert!(same_text("LSQ", "LSQ"));
    assert!(!same_text("LSQ", "HSQ"));
    assert!(!same_text("LSQ", "LSQ "));
}
