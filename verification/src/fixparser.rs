//! Splitting a FIX message into its fields.
use crate::text::{
    parse_u32, parsed_unsigned, split, split_once_at, split_once_text, split_text, texts, SOH,
};
use vstd::prelude::*;

verus! {

/// One field of a message.
#[derive(Debug)]
pub struct FieldValue {
    pub tag: u32,
    pub value: String,
}

/// A field as the contracts see it.
pub type FieldPair = (u32, Seq<char>);

impl View for FieldValue {
    type V = FieldPair;

    open spec fn view(&self) -> FieldPair {
        (self.tag, self.value@)
    }
}

pub open spec fn field_pairs(fields: Seq<FieldValue>) -> Seq<FieldPair> {
    fields.map_values(|f: FieldValue| f@)
}

/// The field that a piece of a message spells, if it is `number=value`.
pub open spec fn field_in(piece: Seq<char>) -> Option<FieldPair> {
    match split_once_at(piece, '=') {
        None => None,
        Some((tag, value)) => match parsed_unsigned(tag, u32::MAX as nat) {
            None => None,
            Some(number) => Some((number as u32, value)),
        },
    }
}

/// The fields that the pieces spell; a piece that spells none is left out.
pub open spec fn fields_in(pieces: Seq<Seq<char>>) -> Seq<FieldPair>
    decreases pieces.len(),
{
    if pieces.len() == 0 {
        seq![]
    } else {
        match field_in(pieces.last()) {
            Some(field) => fields_in(pieces.drop_last()).push(field),
            None => fields_in(pieces.drop_last()),
        }
    }
}

/// The fields of a message, in order.
pub open spec fn fields_of(msg: Seq<char>) -> Seq<FieldPair> {
    fields_in(split(msg, SOH))
}

/// Splits a message into its fields; pieces that are no `number=value` are left out.
pub fn parse_fix(msg: &str) -> (fields: Vec<FieldValue>)
    ensures
        field_pairs(fields@) == fields_of(msg@),
{
    let pieces = split_text(msg, SOH);
    let ghost all = texts(pieces@);
    let mut fields: Vec<FieldValue> = Vec::new();
    let mut i: usize = 0;
    assert(field_pairs(fields@) =~= fields_in(all.take(0)));
    while i < pieces.len()
        invariant
            0 <= i <= pieces@.len(),
            all == texts(pieces@),
            field_pairs(fields@) == fields_in(all.take(i as int)),
        decreases pieces@.len() - i,
    {
        assert(all.take(i + 1).drop_last() =~= all.take(i as int));
        assert(all.take(i + 1).last() == pieces@[i as int]@);
        let ghost before = fields@;
        if let Some((tag, value)) = split_once_text(pieces[i].as_str(), '=') {
            if let Some(number) = parse_u32(tag.as_str()) {
                let ghost pair = (number, value@);
                fields.push(FieldValue { tag: number, value });
                assert(field_pairs(fields@) =~= field_pairs(before).push(pair));
            }
        }
        i += 1;
    }
    assert(all.take(all.len() as int) =~= all);
    fields
}

} // verus!
