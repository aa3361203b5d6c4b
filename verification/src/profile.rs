//! What is known of each cable from its USB product ID.
use std::collections::BTreeMap;
use vstd::prelude::*;

use crate::text::hex;

verus! {

use crate::text::{digit_value, hex_digits, hex_value, law_hexadecimal_reads_back};

/// What a connected cable is, as the user is told.
pub struct CableInfo {
    pub name: String,
    pub vid: u32,
    pub pid: u32,
    pub has_presets: Option<bool>,
    pub presets: BTreeMap<u8, String>,
}

/// A table of preset names, the names taken as text.
pub open spec fn preset_names(presets: Map<u8, String>) -> Map<u8, Seq<char>> {
    presets.map_values(|s: String| s@)
}

/// The name of the cable with product ID `pid` that calls itself `product`.
pub open spec fn profile_name(pid: u16, product: Seq<char>) -> Seq<char> {
    if pid == 0x1499 {
        "DUSK-SP"@
    } else if pid == 0x1497 {
        "MAY"@
    } else if pid == 0x1496 {
        "FreeDSP"@
    } else if product.len() == 0 {
        "Moondrop 0x"@ + hex_digits(pid as nat)
    } else {
        product
    }
}

/// Whether the cable has firmware presets, where that is known.
pub open spec fn profile_has_presets(pid: u16) -> Option<bool> {
    if pid == 0x1499 || pid == 0x1497 {
        Some(true)
    } else if pid == 0x1496 {
        Some(false)
    } else {
        None
    }
}

/// The profiles that can be made active on the cable, by index.
pub open spec fn profile_presets(pid: u16) -> Map<u8, Seq<char>> {
    if pid == 0x1499 {
        map![
            0u8 => "Custom EQ"@,
            1u8 => "DUSK-Default"@,
            2u8 => "DUSK-V"@,
            3u8 => "DUSK-Harman"@,
            4u8 => "DUSK-Bass+"@,
            5u8 => "DUSK-Diffuse-Tilted"@,
        ]
    } else if pid == 0x1497 {
        map![
            0u8 => "Custom EQ"@,
            1u8 => "Standard"@,
            2u8 => "Bass Head"@,
            3u8 => "Reference"@,
            4u8 => "No Bass"@,
            5u8 => "Harman Style"@,
        ]
    } else {
        map![0u8 => "Custom EQ"@]
    }
}

/// The name, the preset flag and the preset table of a cable.
pub fn cable_profile(pid: u16, product: &str) -> (p: (String, Option<bool>, BTreeMap<u8, String>))
    ensures
        p.0@ == profile_name(pid, product@),
        p.1 == profile_has_presets(pid),
        preset_names(p.2@) == profile_presets(pid),
{
    let mut presets: BTreeMap<u8, String> = BTreeMap::new();
    presets.insert(0u8, "Custom EQ".to_owned());
    if pid == 0x1499 {
        presets.insert(1u8, "DUSK-Default".to_owned());
        presets.insert(2u8, "DUSK-V".to_owned());
        presets.insert(3u8, "DUSK-Harman".to_owned());
        presets.insert(4u8, "DUSK-Bass+".to_owned());
        presets.insert(5u8, "DUSK-Diffuse-Tilted".to_owned());
        assert(preset_names(presets@) =~= profile_presets(pid));
        ("DUSK-SP".to_owned(), Some(true), presets)
    } else if pid == 0x1497 {
        presets.insert(1u8, "Standard".to_owned());
        presets.insert(2u8, "Bass Head".to_owned());
        presets.insert(3u8, "Reference".to_owned());
        presets.insert(4u8, "No Bass".to_owned());
        presets.insert(5u8, "Harman Style".to_owned());
        assert(preset_names(presets@) =~= profile_presets(pid));
        ("MAY".to_owned(), Some(true), presets)
    } else {
        assert(preset_names(presets@) =~= profile_presets(pid));
        if pid == 0x1496 {
            ("FreeDSP".to_owned(), Some(false), presets)
        } else if product.is_empty() {
            let mut name = "Moondrop 0x".to_owned();
            name.append(hex(pid).as_str());
            (name, None, presets)
        } else {
            (product.to_owned(), None, presets)
        }
    }
}

/// Every cable has the custom bank at index 0, and a table of six profiles exactly where firmware
/// presets are known to be there.
pub proof fn law_custom_bank_is_index_zero(pid: u16)
    ensures
        profile_presets(pid).contains_key(0u8),
        profile_presets(pid)[0u8] == "Custom EQ"@,
        forall|k: u8|
            profile_presets(pid).contains_key(k) <==> k == 0 || (k <= 5 && profile_has_presets(pid)
                == Some(true)),
{
}

/// No cable is left without a name.
pub proof fn law_cable_has_a_name(pid: u16, product: Seq<char>)
    ensures
        profile_name(pid, product).len() > 0,
{
    reveal_strlit("DUSK-SP");
    reveal_strlit("MAY");
    reveal_strlit("FreeDSP");
    reveal_strlit("Moondrop 0x");
}

/// A table of names keeps every index and every name.
pub proof fn law_preset_names_keep_all(presets: Map<u8, String>, k: u8)
    ensures
        preset_names(presets).contains_key(k) <==> presets.contains_key(k),
        presets.contains_key(k) ==> preset_names(presets)[k] == presets[k]@,
{
}

/// A cable whose product ID is none of the three known ones goes by what it calls itself, has only
/// the custom bank, and it is not known whether it has presets. Where it calls itself nothing, its
/// name is made of its product ID: behind eleven fixed characters come lower-case hexadecimal
/// digits that read back as it, with no zero in front.
pub proof fn law_unknown_cables(pid: u16, product: Seq<char>)
    requires
        pid != 0x1496,
        pid != 0x1497,
        pid != 0x1499,
    ensures
        product.len() > 0 ==> profile_name(pid, product) == product,
        product.len() == 0 ==> {
            let name = profile_name(pid, product);
            let digits = name.skip(11);
            &&& name.len() > 11
            &&& name.take(11) == "Moondrop 0x"@
            &&& hex_value(digits) == pid
            &&& forall|k: int|
                0 <= k < digits.len() ==> 0 <= digit_value(#[trigger] digits[k]) < 16
            &&& digits[0] == '0' ==> digits.len() == 1
        },
        profile_has_presets(pid) is None,
        forall|k: u8| profile_presets(pid).contains_key(k) <==> k == 0,
        profile_presets(pid)[0u8] == "Custom EQ"@,
{
    reveal_strlit("Moondrop 0x");
    law_hexadecimal_reads_back(pid as nat);
    if product.len() == 0 {
        let name = profile_name(pid, product);
        assert(name.take(11) =~= "Moondrop 0x"@);
        assert(name.skip(11) =~= hex_digits(pid as nat));
    }
}

/// A known cable has its own name, whatever it calls itself. Two of them have five presets each
/// behind the custom bank; the third has none.
pub proof fn law_known_cables(product: Seq<char>, k: u8)
    ensures
        profile_name(0x1496, product) == "FreeDSP"@,
        profile_name(0x1497, product) == "MAY"@,
        profile_name(0x1499, product) == "DUSK-SP"@,
        profile_has_presets(0x1496) == Some(false),
        profile_has_presets(0x1497) == Some(true),
        profile_has_presets(0x1499) == Some(true),
        profile_presets(0x1496).contains_key(k) <==> k == 0,
        profile_presets(0x1497).contains_key(k) <==> k <= 5,
        profile_presets(0x1499).contains_key(k) <==> k <= 5,
        1 <= k <= 5 ==> profile_presets(0x1497)[k] == seq![
            "Standard"@,
            "Bass Head"@,
            "Reference"@,
            "No Bass"@,
            "Harman Style"@,
        ][k - 1],
        1 <= k <= 5 ==> profile_presets(0x1499)[k] == seq![
            "DUSK-Default"@,
            "DUSK-V"@,
            "DUSK-Harman"@,
            "DUSK-Bass+"@,
            "DUSK-Diffuse-Tilted"@,
        ][k - 1],
{
}

} // verus!
