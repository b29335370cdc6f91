//! What a message is faulted for, and what not.
use crate::fixparser::{fields_of, FieldPair};
use crate::groups::has_group;
use crate::integrity::{
    body_length, byte_sum, checksum, last_mark, length_field, mark_at, next_delimiter,
};
use crate::message_laws::{digits, spells};
use crate::report::Finding;
use crate::tag_lookup::{LookupModel, MessageModel};
use crate::text::decimal;
use crate::validator::{
    all_field_findings, checksum_findings, field_findings, findings, grouping_findings, has_field,
    layout, layout_findings, length_findings, message_duplicates, missing_findings, order_findings,
    outside_groups, places, plain_duplicates, type_findings, value_of,
};
use vstd::prelude::*;
use vstd::utf8::encode_utf8;

verus! {

proof fn lemma_in_sum(a: Seq<Finding>, b: Seq<Finding>, f: Finding)
    ensures
        (a + b).contains(f) <==> a.contains(f) || b.contains(f),
{
    let all = a + b;
    if a.contains(f) {
        let i = a.index_of(f);
        assert(all[i] == f);
    }
    if b.contains(f) {
        let i = b.index_of(f);
        assert(all[a.len() + i] == f);
    }
    if all.contains(f) {
        let i = all.index_of(f);
        if i < a.len() {
            assert(a[i] == f);
        } else {
            assert(b[i - a.len()] == f);
        }
    }
}

/// The duplicates of a message.
pub open spec fn duplicates(msg: Seq<char>, dict: LookupModel) -> Seq<Finding> {
    match layout(fields_of(msg), dict) {
        Some(def) => message_duplicates(fields_of(msg), 0, def.groups, Set::empty()),
        None => plain_duplicates(fields_of(msg), dict),
    }
}

/// What is found in a part of a message is found in the message.
proof fn lemma_parts(msg: Seq<char>, dict: LookupModel, f: Finding)
    ensures
        ({
            let fields = fields_of(msg);
            findings(msg, dict).contains(f) <==> {
                ||| type_findings(fields, dict).contains(f)
                ||| duplicates(msg, dict).contains(f)
                ||| length_findings(msg, fields).contains(f)
                ||| all_field_findings(fields, dict).contains(f)
                ||| checksum_findings(msg, fields).contains(f)
                ||| (layout(fields, dict) matches Some(def) && {
                    ||| missing_findings(def.required, fields, dict).contains(f)
                    ||| order_findings(
                        outside_groups(fields, 0, def.groups),
                        places(def.field_order),
                    ).contains(f)
                    ||| grouping_findings(fields, 0, def, dict).contains(f)
                })
            }
        }),
{
    let fields = fields_of(msg);
    let a = type_findings(fields, dict);
    let b = duplicates(msg, dict);
    let c = length_findings(msg, fields);
    let d = all_field_findings(fields, dict);
    let g = checksum_findings(msg, fields);
    let e = match layout(fields, dict) {
        Some(def) => layout_findings(fields, def, dict),
        None => seq![],
    };
    lemma_in_sum(a + b + c + d + e, g, f);
    lemma_in_sum(a + b + c + d, e, f);
    lemma_in_sum(a + b + c, d, f);
    lemma_in_sum(a + b, c, f);
    lemma_in_sum(a, b, f);
    if let Some(def) = layout(fields, dict) {
        let x = missing_findings(def.required, fields, dict);
        let y = order_findings(outside_groups(fields, 0, def.groups), places(def.field_order));
        let z = grouping_findings(fields, 0, def, dict);
        lemma_in_sum(x + y, z, f);
        lemma_in_sum(x, y, f);
    }
}

/// The finding that a tag is missing.
pub open spec fn missing(tag: u32, dict: LookupModel) -> Finding {
    Finding {
        tag: Some(tag),
        text: "Missing required tag "@ + decimal(tag as nat) + " ("@ + dict.field_name(tag) + ")"@,
    }
}

proof fn lemma_missing(required: Seq<u32>, fields: Seq<FieldPair>, dict: LookupModel, i: int)
    requires
        0 <= i < required.len(),
        forall|k: int| 0 <= k < fields.len() ==> (#[trigger] fields[k]).0 != required[i],
    ensures
        missing_findings(required, fields, dict).contains(missing(required[i], dict)),
    decreases required.len(),
{
    let shorter = required.drop_last();
    let before = missing_findings(shorter, fields, dict);
    let all = missing_findings(required, fields, dict);
    if i == shorter.len() {
        assert(!has_field(fields, required[i]));
        assert(all[before.len() as int] == missing(required[i], dict));
    } else {
        assert(shorter[i] == required[i]);
        lemma_missing(shorter, fields, dict, i);
        let k = before.index_of(missing(required[i], dict));
        assert(all[k] == before[k]);
    }
}

proof fn lemma_none_missing(required: Seq<u32>, fields: Seq<FieldPair>, dict: LookupModel)
    requires
        forall|i: int|
            0 <= i < required.len() ==> exists|k: int|
                0 <= k < fields.len() && (#[trigger] fields[k]).0 == #[trigger] required[i],
    ensures
        missing_findings(required, fields, dict).len() == 0,
    decreases required.len(),
{
    if required.len() > 0 {
        let shorter = required.drop_last();
        assert forall|i: int| 0 <= i < shorter.len() implies exists|k: int|
            0 <= k < fields.len() && (#[trigger] fields[k]).0 == #[trigger] shorter[i] by {
            assert(shorter[i] == required[i]);
        }
        lemma_none_missing(shorter, fields, dict);
        assert(required[required.len() - 1] == required.last());
        assert(has_field(fields, required.last()));
    }
}

/// A required tag that no field has is reported as missing, under its tag and with its name.
/// Where every required tag is there, none is.
pub proof fn law_missing_tags_are_reported(
    msg: Seq<char>,
    dict: LookupModel,
    def: MessageModel,
    i: int,
)
    requires
        layout(fields_of(msg), dict) == Some(def),
    ensures
        0 <= i < def.required.len() && (forall|k: int|
            0 <= k < fields_of(msg).len() ==> (#[trigger] fields_of(msg)[k]).0 != def.required[i])
            ==> findings(msg, dict).contains(missing(def.required[i], dict)),
        (forall|j: int|
            0 <= j < def.required.len() ==> exists|k: int|
                0 <= k < fields_of(msg).len() && (#[trigger] fields_of(msg)[k]).0
                    == #[trigger] def.required[j]) ==> missing_findings(
            def.required,
            fields_of(msg),
            dict,
        ).len() == 0,
{
    let fields = fields_of(msg);
    if 0 <= i < def.required.len() && forall|k: int|
        0 <= k < fields.len() ==> (#[trigger] fields[k]).0 != def.required[i] {
        lemma_missing(def.required, fields, dict, i);
        lemma_parts(msg, dict, missing(def.required[i], dict));
    }
    if forall|j: int|
        0 <= j < def.required.len() ==> exists|k: int|
            0 <= k < fields.len() && (#[trigger] fields[k]).0 == #[trigger] def.required[j] {
        lemma_none_missing(def.required, fields, dict);
    }
}

proof fn lemma_field_found(fields: Seq<FieldPair>, dict: LookupModel, i: int, f: Finding)
    requires
        0 <= i < fields.len(),
        field_findings(dict, fields[i]).contains(f),
    ensures
        all_field_findings(fields, dict).contains(f),
    decreases fields.len(),
{
    let shorter = fields.drop_last();
    lemma_in_sum(all_field_findings(shorter, dict), field_findings(dict, fields.last()), f);
    if i < shorter.len() {
        assert(shorter[i] == fields[i]);
        lemma_field_found(shorter, dict, i, f);
    }
}

proof fn lemma_fields_clean(fields: Seq<FieldPair>, dict: LookupModel)
    requires
        forall|i: int|
            0 <= i < fields.len() ==> field_findings(dict, #[trigger] fields[i]).len() == 0,
    ensures
        all_field_findings(fields, dict).len() == 0,
    decreases fields.len(),
{
    if fields.len() > 0 {
        let shorter = fields.drop_last();
        assert forall|i: int| 0 <= i < shorter.len() implies field_findings(
            dict,
            #[trigger] shorter[i],
        ).len() == 0 by {
            assert(shorter[i] == fields[i]);
        }
        lemma_fields_clean(shorter, dict);
        assert(fields[fields.len() - 1] == fields.last());
    }
}

/// The tag is known to the dictionary or to one behind it.
pub open spec fn is_known(dict: LookupModel, tag: u32) -> bool {
    dict.names.contains_key(tag) || (dict.fallback matches Some(next) && next.has_tag(tag))
}

/// A field is faulted for its value: where the allowed values are listed and it is none of
/// them, and where it does not fit the type of the field. A tag that no dictionary knows is
/// faulted for itself alone.
pub proof fn law_values_are_checked(msg: Seq<char>, dict: LookupModel, i: int)
    requires
        0 <= i < fields_of(msg).len(),
    ensures
        ({
            let field = fields_of(msg)[i];
            let found = findings(msg, dict);
            &&& !is_known(dict, field.0) ==> found.contains(
                Finding {
                    tag: Some(field.0),
                    text: "Unknown tag "@ + decimal(field.0 as nat) + " in FIX "@ + dict.key + (
                    match dict.fallback {
                        Some(next) => " and FIX "@ + next.key,
                        None => seq![],
                    }),
                },
            )
            &&& is_known(dict, field.0) && (dict.enums_for(field.0) matches Some(enums)
                && !enums.contains_key(field.1)) ==> found.contains(
                Finding {
                    tag: Some(field.0),
                    text: "Invalid enum value '"@ + field.1 + "'"@,
                },
            )
            &&& is_known(dict, field.0) && (dict.field_type(field.0) matches Some(kind)
                && !crate::field_types::fits_type(field.1, kind)) ==> found.contains(
                Finding {
                    tag: Some(field.0),
                    text: "Invalid type: expected "@ + dict.field_type(field.0)->0 + ", got '"@
                        + field.1 + "'"@,
                },
            )
        }),
{
    let fields = fields_of(msg);
    let field = fields[i];
    let list = field_findings(dict, field);
    let unknown = Finding {
        tag: Some(field.0),
        text: "Unknown tag "@ + decimal(field.0 as nat) + " in FIX "@ + dict.key + (
        match dict.fallback {
            Some(next) => " and FIX "@ + next.key,
            None => seq![],
        }),
    };
    let enumerated = Finding {
        tag: Some(field.0),
        text: "Invalid enum value '"@ + field.1 + "'"@,
    };
    let typed = Finding {
        tag: Some(field.0),
        text: "Invalid type: expected "@ + dict.field_type(field.0)->0 + ", got '"@ + field.1
            + "'"@,
    };
    if !is_known(dict, field.0) {
        assert(unknown.text =~= crate::validator::unknown_text(dict, field.0));
        assert(list[0] == unknown);
        lemma_field_found(fields, dict, i, unknown);
        lemma_parts(msg, dict, unknown);
    } else {
        let a = crate::validator::override_findings(dict, field.0);
        let b = crate::validator::enum_findings(dict, field);
        let c = crate::validator::value_findings(dict, field);
        lemma_in_sum(a + b, c, enumerated);
        lemma_in_sum(a, b, enumerated);
        lemma_in_sum(a + b, c, typed);
        if dict.enums_for(field.0) matches Some(enums) && !enums.contains_key(field.1) {
            assert(b[0] == enumerated);
            lemma_field_found(fields, dict, i, enumerated);
            lemma_parts(msg, dict, enumerated);
        }
        if dict.field_type(field.0) matches Some(kind) && !crate::field_types::fits_type(
            field.1,
            kind,
        ) {
            assert(c[0] == typed);
            lemma_field_found(fields, dict, i, typed);
            lemma_parts(msg, dict, typed);
        }
    }
}

/// A tag that the dictionary asked for knows, and the one that the message names does not, is
/// faulted with both named.
pub proof fn law_tags_beyond_the_message_are_told(
    msg: Seq<char>,
    dict: LookupModel,
    next: LookupModel,
    i: int,
)
    requires
        0 <= i < fields_of(msg).len(),
        dict.fallback == Some(Box::new(next)),
        dict.role == Some(crate::tag_lookup::FallbackKind::DetectedOverride),
        dict.names.contains_key(fields_of(msg)[i].0),
        !next.has_tag(fields_of(msg)[i].0),
    ensures
        findings(msg, dict).contains(
            Finding {
                tag: Some(fields_of(msg)[i].0),
                text: "Tag "@ + decimal(fields_of(msg)[i].0 as nat)
                    + " is defined in override FIX "@ + dict.key
                    + " but unknown in detected FIX "@ + next.key,
            },
        ),
{
    let fields = fields_of(msg);
    let field = fields[i];
    let told = Finding {
        tag: Some(field.0),
        text: "Tag "@ + decimal(field.0 as nat) + " is defined in override FIX "@ + dict.key
            + " but unknown in detected FIX "@ + next.key,
    };
    let a = crate::validator::override_findings(dict, field.0);
    let b = crate::validator::enum_findings(dict, field);
    let c = crate::validator::value_findings(dict, field);
    assert(a[0] == told);
    lemma_in_sum(a, b, told);
    lemma_in_sum(a + b, c, told);
    lemma_field_found(fields, dict, i, told);
    lemma_parts(msg, dict, told);
}

/// A field whose tag is known, and whose value is one of those listed and fits its type, is
/// not faulted, unless only the dictionary that was asked for knows the tag and not the one
/// that the message names.
pub proof fn law_good_values_are_not_faulted(fields: Seq<FieldPair>, dict: LookupModel)
    requires
        forall|i: int|
            0 <= i < fields.len() ==> {
                let field = #[trigger] fields[i];
                &&& is_known(dict, field.0)
                &&& dict.enums_for(field.0) matches Some(enums) ==> enums.contains_key(field.1)
                &&& dict.field_type(field.0) matches Some(kind) ==> crate::field_types::fits_type(
                    field.1,
                    kind,
                )
                &&& dict.fallback matches Some(next) ==> next.has_tag(field.0)
            },
    ensures
        all_field_findings(fields, dict).len() == 0,
{
    lemma_fields_clean(fields, dict);
}

/// The value of the last field with a tag.
pub open spec fn is_last_value(fields: Seq<FieldPair>, i: int, tag: u32) -> bool {
    &&& 0 <= i < fields.len()
    &&& fields[i].0 == tag
    &&& forall|j: int| i < j < fields.len() ==> (#[trigger] fields[j]).0 != tag
}

proof fn lemma_value_of(fields: Seq<FieldPair>, tag: u32)
    ensures
        (forall|j: int| 0 <= j < fields.len() ==> (#[trigger] fields[j]).0 != tag) <==> value_of(
            fields,
            tag,
        ) is None,
        forall|i: int| #[trigger]
            is_last_value(fields, i, tag) ==> value_of(fields, tag) == Some(fields[i].1),
    decreases fields.len(),
{
    if fields.len() > 0 {
        let shorter = fields.drop_last();
        let n = fields.len() - 1;
        lemma_value_of(shorter, tag);
        assert(forall|j: int| 0 <= j < n ==> #[trigger] fields[j] == shorter[j]);
        if fields[n].0 == tag {
            assert forall|i: int| #[trigger] is_last_value(fields, i, tag) implies i == n by {
                if i < n {
                    assert(fields[n].0 != tag);
                }
            }
        } else {
            assert forall|i: int| #[trigger]
                is_last_value(fields, i, tag) implies is_last_value(shorter, i, tag) by {}
            if forall|j: int| 0 <= j < shorter.len() ==> (#[trigger] shorter[j]).0 != tag {
                assert forall|j: int| 0 <= j < fields.len() implies (#[trigger] fields[j]).0
                    != tag by {
                    if j < n {
                        assert(shorter[j].0 != tag);
                    }
                }
            }
            if forall|j: int| 0 <= j < fields.len() ==> (#[trigger] fields[j]).0 != tag {
                assert forall|j: int| 0 <= j < shorter.len() implies (#[trigger] shorter[j]).0
                    != tag by {
                    assert(fields[j].0 != tag);
                }
            }
        }
    }
}

/// A message without a type is reported, and so is one whose type no dictionary knows; of one
/// whose type is known the type is no fault, and its layout is that of the type.
pub proof fn law_message_type_is_checked(msg: Seq<char>, dict: LookupModel, i: int)
    ensures
        (forall|j: int|
            0 <= j < fields_of(msg).len() ==> (#[trigger] fields_of(msg)[j]).0 != 35)
            ==> findings(msg, dict).contains(
            Finding { tag: Some(35), text: "Missing required tag 35 (MsgType)"@ },
        ) && layout(fields_of(msg), dict) is None,
        is_last_value(fields_of(msg), i, 35) && dict.message_def(fields_of(msg)[i].1) is None
            ==> findings(msg, dict).contains(
            Finding { tag: Some(35), text: "Unknown MsgType: "@ + fields_of(msg)[i].1 },
        ) && layout(fields_of(msg), dict) is None,
        is_last_value(fields_of(msg), i, 35) && dict.message_def(fields_of(msg)[i].1) is Some
            ==> type_findings(fields_of(msg), dict).len() == 0 && layout(fields_of(msg), dict)
            == dict.message_def(fields_of(msg)[i].1),
{
    let fields = fields_of(msg);
    let absent = Finding { tag: Some(35), text: "Missing required tag 35 (MsgType)"@ };
    lemma_value_of(fields, 35);
    lemma_parts(msg, dict, absent);
    if value_of(fields, 35) is None {
        assert(type_findings(fields, dict)[0] == absent);
    }
    if is_last_value(fields, i, 35) && dict.message_def(fields[i].1) is None {
        let unknown = Finding { tag: Some(35), text: "Unknown MsgType: "@ + fields[i].1 };
        assert(type_findings(fields, dict)[0] == unknown);
        lemma_parts(msg, dict, unknown);
    }
}

proof fn lemma_plain_repeat(
    fields: Seq<FieldPair>,
    dict: LookupModel,
    i: int,
    j: int,
    f: Finding,
)
    requires
        0 <= i < j < fields.len(),
        fields[i].0 == fields[j].0,
        !dict.is_repeatable(fields[j].0),
        f == repeated_tag(fields[j].0),
    ensures
        plain_duplicates(fields, dict).contains(f),
    decreases fields.len(),
{
    let shorter = fields.drop_last();
    let before = plain_duplicates(shorter, dict);
    let all = plain_duplicates(fields, dict);
    if j == shorter.len() {
        assert(shorter[i].0 == fields[j].0);
        assert(has_field(shorter, fields[j].0));
        assert(all[before.len() as int] == f);
    } else {
        assert(shorter[i] == fields[i] && shorter[j] == fields[j]);
        lemma_plain_repeat(shorter, dict, i, j, f);
        let k = before.index_of(f);
        assert(all[k] == before[k]);
    }
}

/// The finding that a tag comes twice.
pub open spec fn repeated_tag(tag: u32) -> Finding {
    Finding { tag: Some(tag), text: "Duplicate tag "@ + decimal(tag as nat) + " encountered"@ }
}

proof fn lemma_repeat(
    fields: Seq<FieldPair>,
    idx: int,
    j: int,
    def: MessageModel,
    seen: Set<u32>,
)
    requires
        0 <= idx <= j < fields.len(),
        forall|k: int| idx <= k < fields.len() ==> !has_group(
            def.groups,
            (#[trigger] fields[k]).0,
        ),
        seen.contains(fields[j].0) || exists|i: int| idx <= i < j && fields[i].0 == fields[j].0,
    ensures
        message_duplicates(fields, idx, def.groups, seen).contains(repeated_tag(fields[j].0)),
    decreases j - idx,
{
    let f = repeated_tag(fields[j].0);
    let tag = fields[idx].0;
    let here = crate::validator::repeat_found(seen, tag);
    let later = message_duplicates(fields, idx + 1, def.groups, seen.insert(tag));
    assert(message_duplicates(fields, idx, def.groups, seen) == here + later);
    lemma_in_sum(here, later, f);
    if idx == j {
        assert(seen.contains(tag));
        assert(here[0] == f);
    } else {
        lemma_repeat(fields, idx + 1, j, def, seen.insert(tag));
    }
}

proof fn lemma_no_repeat(fields: Seq<FieldPair>, idx: int, def: MessageModel, seen: Set<u32>)
    requires
        0 <= idx <= fields.len(),
        forall|k: int| idx <= k < fields.len() ==> !has_group(
            def.groups,
            (#[trigger] fields[k]).0,
        ),
        forall|k: int| idx <= k < fields.len() ==> !seen.contains((#[trigger] fields[k]).0),
        forall|i: int, j: int|
            idx <= i < j < fields.len() ==> (#[trigger] fields[i]).0 != (#[trigger] fields[j]).0,
    ensures
        message_duplicates(fields, idx, def.groups, seen).len() == 0,
    decreases fields.len() - idx,
{
    if idx < fields.len() {
        lemma_no_repeat(fields, idx + 1, def, seen.insert(fields[idx].0));
    }
}

/// A tag that comes twice is reported: in a message without groups every such tag, and in one
/// whose layout is not known every such tag that no group repeats. Where no tag comes twice,
/// none is reported.
pub proof fn law_repeated_tags_are_reported(msg: Seq<char>, dict: LookupModel, i: int, j: int)
    ensures
        ({
            let fields = fields_of(msg);
            let twice = 0 <= i < j < fields.len() && fields[i].0 == fields[j].0;
            let once = forall|a: int, b: int|
                0 <= a < b < fields.len() ==> (#[trigger] fields[a]).0 != (#[trigger] fields[b]).0;
            match layout(fields, dict) {
                Some(def) => {
                    let plain = forall|k: int|
                        0 <= k < fields.len() ==> !has_group(def.groups, (#[trigger] fields[k]).0);
                    &&& twice && plain ==> findings(msg, dict).contains(repeated_tag(fields[j].0))
                    &&& once && plain ==> duplicates(msg, dict).len() == 0
                },
                None => twice && !dict.is_repeatable(fields[j].0) ==> findings(
                    msg,
                    dict,
                ).contains(repeated_tag(fields[j].0)),
            }
        }),
{
    let fields = fields_of(msg);
    let f = repeated_tag(fields[j].0);
    lemma_parts(msg, dict, f);
    let twice = 0 <= i < j < fields.len() && fields[i].0 == fields[j].0;
    match layout(fields, dict) {
        Some(def) => {
            let plain = forall|k: int|
                0 <= k < fields.len() ==> !has_group(def.groups, (#[trigger] fields[k]).0);
            if plain && twice {
                lemma_repeat(fields, 0, j, def, Set::empty());
            }
            if plain && forall|a: int, b: int|
                0 <= a < b < fields.len() ==> (#[trigger] fields[a]).0 != (#[trigger] fields[b]).0 {
                lemma_no_repeat(fields, 0, def, Set::empty());
            }
        },
        None => {
            if twice && !dict.is_repeatable(fields[j].0) {
                lemma_plain_repeat(fields, dict, i, j, f);
            }
        },
    }
}

/// The sum of bytes.
pub open spec fn total(bytes: Seq<u8>) -> int
    decreases bytes.len(),
{
    if bytes.len() == 0 {
        0
    } else {
        bytes[0] + total(bytes.skip(1))
    }
}

pub proof fn lemma_total(bytes: Seq<u8>)
    ensures
        total(bytes) == byte_sum(bytes),
    decreases bytes.len(),
{
    if bytes.len() > 0 {
        let head = seq![bytes[0]];
        lemma_total(bytes.skip(1));
        crate::integrity::lemma_byte_sum_add(head, bytes.skip(1));
        assert(head + bytes.skip(1) =~= bytes);
        assert(head.drop_last() =~= seq![]);
        assert(byte_sum(head.drop_last()) == 0);
    }
}

/// The delimiter and then `10=`.
pub open spec fn closing() -> Seq<u8> {
    seq![1u8, 0x31u8, 0x30u8, 0x3du8]
}

/// The bytes stand at a place.
pub open spec fn stand_at(bytes: Seq<u8>, at: int, part: Seq<u8>) -> bool {
    0 <= at && at + part.len() <= bytes.len() && bytes.subrange(at, at + part.len()) == part
}

proof fn lemma_mark(bytes: Seq<u8>, at: int)
    ensures
        mark_at(bytes, at) <==> stand_at(bytes, at, closing()),
{
    if stand_at(bytes, at, closing()) {
        let part = bytes.subrange(at, at + 4);
        assert(part[0] == closing()[0] && part[1] == closing()[1] && part[2] == closing()[2]
            && part[3] == closing()[3]);
    }
    if mark_at(bytes, at) {
        assert(bytes.subrange(at, at + 4) =~= closing());
    }
}

proof fn lemma_last_mark(bytes: Seq<u8>, n: int, at: int)
    requires
        0 <= at < n,
        stand_at(bytes, at, closing()),
        forall|i: int| at < i < n ==> !stand_at(bytes, i, closing()),
    ensures
        last_mark(bytes, n) == Some(at),
    decreases n,
{
    lemma_mark(bytes, n - 1);
    if at < n - 1 {
        lemma_last_mark(bytes, n - 1, at);
    }
}

proof fn lemma_no_mark(bytes: Seq<u8>, n: int)
    requires
        forall|i: int| 0 <= i < n ==> !stand_at(bytes, i, closing()),
    ensures
        last_mark(bytes, n) is None,
    decreases n,
{
    if n > 0 {
        lemma_mark(bytes, n - 1);
        lemma_no_mark(bytes, n - 1);
    }
}

/// The checksum is the sum of all bytes ahead of the last checksum field, its delimiter
/// included, modulo 256; without such a field there is none.
pub proof fn law_checksum_is_the_sum(bytes: Seq<u8>, at: int)
    ensures
        stand_at(bytes, at, closing()) && (forall|i: int|
            at < i < bytes.len() ==> !#[trigger] stand_at(bytes, i, closing())) ==> checksum(bytes)
            == total(bytes.take(at + 1)) % 256,
        (forall|i: int| 0 <= i < bytes.len() ==> !#[trigger] stand_at(bytes, i, closing()))
            ==> checksum(bytes) == -1,
{
    if stand_at(bytes, at, closing()) && forall|i: int|
        at < i < bytes.len() ==> !#[trigger] stand_at(bytes, i, closing()) {
        lemma_last_mark(bytes, bytes.len() as int, at);
        lemma_total(bytes.take(at + 1));
    }
    if forall|i: int| 0 <= i < bytes.len() ==> !#[trigger] stand_at(bytes, i, closing()) {
        lemma_no_mark(bytes, bytes.len() as int);
    }
}

/// `9=`.
pub open spec fn opening() -> Seq<u8> {
    seq![0x39u8, 0x3du8]
}

proof fn lemma_length_field(bytes: Seq<u8>, from: int, at: int)
    requires
        0 <= from <= at,
        stand_at(bytes, at, opening()),
        forall|i: int| from <= i < at ==> !#[trigger] stand_at(bytes, i, opening()),
    ensures
        length_field(bytes, from) == Some(at),
    decreases at - from,
{
    let part = bytes.subrange(at, at + 2);
    assert(part[0] == opening()[0] && part[1] == opening()[1]);
    if from < at {
        assert(!stand_at(bytes, from, opening()));
        if bytes[from] == 0x39 && bytes[from + 1] == 0x3d {
            assert(bytes.subrange(from, from + 2) =~= opening());
        }
        lemma_length_field(bytes, from + 1, at);
    }
}

proof fn lemma_next_delimiter(bytes: Seq<u8>, from: int, at: int)
    requires
        0 <= from <= at < bytes.len(),
        bytes[at] == 1u8,
        forall|i: int| from <= i < at ==> bytes[i] != 1u8,
    ensures
        next_delimiter(bytes, from) == Some(at),
    decreases at - from,
{
    if from < at {
        lemma_next_delimiter(bytes, from + 1, at);
    }
}

/// The length of the body is the number of bytes from behind the length field, which is the
/// first `9=`, up to and with the delimiter of the last checksum field.
pub proof fn law_body_is_measured(bytes: Seq<u8>, field: int, start: int, end: int)
    requires
        stand_at(bytes, field, opening()),
        forall|i: int| 0 <= i < field ==> !#[trigger] stand_at(bytes, i, opening()),
        field < start <= end,
        bytes[start - 1] == 1u8,
        forall|i: int| field <= i < start - 1 ==> bytes[i] != 1u8,
        stand_at(bytes, end, closing()),
        forall|i: int| end < i < bytes.len() ==> !#[trigger] stand_at(bytes, i, closing()),
    ensures
        body_length(bytes) == Some(end + 1 - start),
{
    lemma_length_field(bytes, 0, field);
    lemma_next_delimiter(bytes, field, start - 1);
    lemma_last_mark(bytes, bytes.len() as int, end);
}

/// A declared length is compared with that of the body, and a checksum with the sum: they
/// are reported where they differ, and only there. A missing length or checksum is reported.
pub proof fn law_length_and_checksum_are_checked(
    msg: Seq<char>,
    dict: LookupModel,
    nine: int,
    ten: int,
    declared: nat,
    sum: Seq<char>,
)
    ensures
        ({
            let fields = fields_of(msg);
            let bytes = encode_utf8(msg);
            &&& (forall|j: int| 0 <= j < fields.len() ==> (#[trigger] fields[j]).0 != 9)
                ==> findings(msg, dict).contains(
                Finding { tag: None, text: "Missing required BodyLength tag 9"@ },
            )
            &&& (forall|j: int| 0 <= j < fields.len() ==> (#[trigger] fields[j]).0 != 10)
                ==> findings(msg, dict).contains(
                Finding { tag: None, text: "Missing required checksum tag 10"@ },
            )
            &&& is_last_value(fields, nine, 9) && spells(fields[nine].1, declared) && declared
                <= usize::MAX ==> (match body_length(bytes) {
                Some(actual) => if declared == actual {
                    length_findings(msg, fields).len() == 0
                } else {
                    findings(msg, dict).contains(
                        Finding {
                            tag: Some(9),
                            text: "BodyLength mismatch: got "@ + decimal(declared) + ", expected "@
                                + decimal(actual as nat),
                        },
                    )
                },
                None => length_findings(msg, fields).len() > 0,
            })
            &&& is_last_value(fields, nine, 9) && (forall|m: nat|
                m <= usize::MAX ==> !spells(fields[nine].1, m)) ==> findings(msg, dict).contains(
                Finding {
                    tag: None,
                    text: "Invalid BodyLength value '"@ + fields[nine].1 + "'"@,
                },
            )
            &&& is_last_value(fields, ten, 10) && checksum(bytes) >= 0 && three_digits(
                sum,
                checksum(bytes),
            ) ==> if fields[ten].1 == sum {
                checksum_findings(msg, fields).len() == 0
            } else {
                findings(msg, dict).contains(
                    Finding {
                        tag: Some(10),
                        text: "Checksum mismatch: got "@ + fields[ten].1 + ", expected "@ + sum,
                    },
                )
            }
        }),
{
    let fields = fields_of(msg);
    let bytes = encode_utf8(msg);
    lemma_value_of(fields, 9);
    lemma_value_of(fields, 10);
    let no_length = Finding { tag: None, text: "Missing required BodyLength tag 9"@ };
    let no_sum = Finding { tag: None, text: "Missing required checksum tag 10"@ };
    lemma_parts(msg, dict, no_length);
    lemma_parts(msg, dict, no_sum);
    if value_of(fields, 9) is None {
        assert(length_findings(msg, fields)[0] == no_length);
    }
    if value_of(fields, 10) is None {
        assert(checksum_findings(msg, fields)[0] == no_sum);
    }
    if is_last_value(fields, nine, 9) {
        let value = fields[nine].1;
        crate::message_laws::law_numbers_are_what_is_spelled(
            value,
            declared,
            usize::MAX as nat,
        );
        let odd = Finding { tag: None, text: "Invalid BodyLength value '"@ + value + "'"@ };
        lemma_parts(msg, dict, odd);
        if crate::text::parsed_unsigned(value, usize::MAX as nat) is None {
            assert(length_findings(msg, fields)[0] == odd);
        }
        if let Some(actual) = body_length(bytes) {
            let wrong = Finding {
                tag: Some(9),
                text: "BodyLength mismatch: got "@ + decimal(declared) + ", expected "@ + decimal(
                    actual as nat,
                ),
            };
            lemma_parts(msg, dict, wrong);
            if spells(value, declared) && declared <= usize::MAX && declared != actual {
                assert(length_findings(msg, fields)[0] == wrong);
            }
        }
    }
    if is_last_value(fields, ten, 10) && checksum(bytes) >= 0 && three_digits(
        sum,
        checksum(bytes),
    ) {
        lemma_three_digits(sum, checksum(bytes));
        let wrong = Finding {
            tag: Some(10),
            text: "Checksum mismatch: got "@ + fields[ten].1 + ", expected "@ + sum,
        };
        lemma_parts(msg, dict, wrong);
        if fields[ten].1 != sum {
            assert(checksum_findings(msg, fields)[0] == wrong);
        }
    }
}

/// The text is the number in three digits.
pub open spec fn three_digits(text: Seq<char>, n: int) -> bool {
    &&& 0 <= n < 1000
    &&& text == seq![
        ('0' as int + n / 100) as char,
        ('0' as int + n / 10 % 10) as char,
        ('0' as int + n % 10) as char,
    ]
}

proof fn lemma_three_digits(text: Seq<char>, n: int)
    requires
        three_digits(text, n),
    ensures
        crate::validator::checksum_text(n) == text,
{
    reveal_with_fuel(crate::text::decimal, 4);
    let shown = crate::validator::checksum_text(n);
    assert(shown =~= text);
}

/// What a message is faulted for, and nothing else: a message has no finding exactly where
/// none of its parts has one.
pub proof fn law_clean_messages_are_clean_in_all_parts(
    msg: Seq<char>,
    dict: LookupModel,
)
    ensures
        ({
            let fields = fields_of(msg);
            findings(msg, dict).len() == 0 <==> {
                &&& type_findings(fields, dict).len() == 0
                &&& duplicates(msg, dict).len() == 0
                &&& length_findings(msg, fields).len() == 0
                &&& all_field_findings(fields, dict).len() == 0
                &&& checksum_findings(msg, fields).len() == 0
                &&& layout(fields, dict) matches Some(def) ==> {
                    &&& missing_findings(def.required, fields, dict).len() == 0
                    &&& order_findings(
                        outside_groups(fields, 0, def.groups),
                        places(def.field_order),
                    ).len() == 0
                    &&& grouping_findings(fields, 0, def, dict).len() == 0
                }
            }
        }),
{
}

/// A dictionary goes before the one behind it: names, values, types and layouts that it has
/// are taken from it, and only what it lacks from the other. A tag that neither knows is shown
/// by its number.
pub proof fn law_own_dictionary_goes_first(dict: LookupModel, tag: u32, msg_type: Seq<char>)
    ensures
        dict.names.contains_key(tag) ==> dict.field_name(tag) == dict.names[tag],
        dict.enums.contains_key(tag) ==> dict.enums_for(tag) == Some(dict.enums[tag]),
        dict.types.contains_key(tag) ==> dict.field_type(tag) == Some(dict.types[tag]),
        dict.messages.contains_key(msg_type) ==> dict.message_def(msg_type) == Some(
            dict.messages[msg_type],
        ),
        dict.fallback matches Some(next) ==> {
            &&& !dict.names.contains_key(tag) ==> dict.field_name(tag) == next.field_name(tag)
            &&& !dict.enums.contains_key(tag) ==> dict.enums_for(tag) == next.enums_for(tag)
            &&& !dict.types.contains_key(tag) ==> dict.field_type(tag) == next.field_type(tag)
            &&& !dict.messages.contains_key(msg_type) ==> dict.message_def(msg_type)
                == next.message_def(msg_type)
        },
        dict.fallback is None ==> {
            &&& !dict.names.contains_key(tag) && tag > 0 ==> dict.field_name(tag) == digits(
                tag as nat,
            )
            &&& !dict.enums.contains_key(tag) ==> dict.enums_for(tag) is None
            &&& !dict.types.contains_key(tag) ==> dict.field_type(tag) is None
            &&& !dict.messages.contains_key(msg_type) ==> dict.message_def(msg_type) is None
        },
{
    crate::message_laws::law_numbers_are_written(tag as nat);
}

} // verus!
