//! The tags whose values identify somebody.
use crate::obfuscator::{AliasModel, Obfuscator, ObfuscatorModel};
use std::collections::BTreeMap;
use vstd::prelude::*;

verus! {

broadcast use vstd::std_specs::btree::group_btree_axioms;

/// The sensitive tags, each with the name of its field.
pub open spec fn sensitive_names() -> Map<u32, Seq<char>> {
    map![
        1u32 => "Account"@,
        49u32 => "SenderCompID"@,
        50u32 => "SenderSubID"@,
        56u32 => "TargetCompID"@,
        57u32 => "TargetSubID"@,
        109u32 => "ClientID"@,
        115u32 => "OnBehalfOfCompID"@,
        116u32 => "OnBehalfOfSubID"@,
        128u32 => "DeliverToCompID"@,
        129u32 => "DeliverToSubID"@,
        142u32 => "SenderLocationID"@,
        143u32 => "TargetLocationID"@,
        448u32 => "PartyID"@,
        553u32 => "Username"@,
        554u32 => "Password"@,
        925u32 => "NewPassword"@,
    ]
}

/// The sensitive tags, each with the name of its field.
pub fn sensitive_tag_names() -> (names: BTreeMap<u32, &'static str>)
    ensures
        names@.map_values(|name: &'static str| name@) == sensitive_names(),
{
    let mut names: BTreeMap<u32, &'static str> = BTreeMap::new();
    names.insert(1, "Account");
    names.insert(49, "SenderCompID");
    names.insert(50, "SenderSubID");
    names.insert(56, "TargetCompID");
    names.insert(57, "TargetSubID");
    names.insert(109, "ClientID");
    names.insert(115, "OnBehalfOfCompID");
    names.insert(116, "OnBehalfOfSubID");
    names.insert(128, "DeliverToCompID");
    names.insert(129, "DeliverToSubID");
    names.insert(142, "SenderLocationID");
    names.insert(143, "TargetLocationID");
    names.insert(448, "PartyID");
    names.insert(553, "Username");
    names.insert(554, "Password");
    names.insert(925, "NewPassword");
    assert(names@.map_values(|name: &'static str| name@) =~= sensitive_names());
    names
}

/// An obfuscator for the sensitive tags.
pub fn create_obfuscator(enabled: bool) -> (obfuscator: Obfuscator)
    ensures
        obfuscator.model() == (ObfuscatorModel {
            enabled,
            tags: sensitive_names(),
            state: AliasModel::fresh(),
        }),
{
    Obfuscator::from_sensitive_tags(&sensitive_tag_names(), enabled)
}

} // verus!
