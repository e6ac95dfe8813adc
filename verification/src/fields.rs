//! The field registry.
//!
//! An archive carries one ordered list of annotation fields, parsed once
//! from its configuration when the store is opened and immutable after
//! that. The list's order is the order of every returned value vector.
//! `config_fields` says, of the configuration text, exactly which
//! registry it describes; `longs_positions` says, of a window's
//! overflow bytes, exactly which record positions they carry.

use vstd::prelude::*;

use crate::EchtError;
use crate::jsonval;
use crate::var32::LongVariant;

verus! {

/// A field's declared value type. `Category` is reserved and carries no
/// behaviour here: values are always returned as signed integers.
#[derive(Clone, Copy, Debug, PartialEq, Eq, Structural)]
pub enum FieldType {
    Integer,
    Float,
    Category,
}

/// One configured annotation field.
#[derive(Clone, Debug, PartialEq)]
pub struct EchtVar {
    /// The field's name; also the file-name stem of its per-window
    /// value blocks.
    pub name: String,
    /// The value substituted when the field has no annotation for a
    /// variant.
    pub missing: i32,
    /// The field's index into the per-window value arrays.
    pub values_i: usize,
    /// The declared value type.
    pub etype: FieldType,
}

/// A field descriptor's type tag is absent (defaulting to integer) or
/// one of the three declared tags.
pub open spec fn type_tag_valid(o: Option<Seq<char>>) -> bool {
    match o {
        None => true,
        Some(t) => t == "Integer"@ || t == "Float"@ || t == "Category"@,
    }
}

/// The declared type a tag names.
pub open spec fn type_of_tag(o: Option<Seq<char>>) -> FieldType {
    match o {
        None => FieldType::Integer,
        Some(t) => if t == "Float"@ {
            FieldType::Float
        } else if t == "Category"@ {
            FieldType::Category
        } else {
            FieldType::Integer
        },
    }
}

/// The field list a configuration text describes: one (alias, missing
/// value, type) triple per descriptor, in order. `None` when the text
/// is not a JSON5 array, a descriptor lacks a string `alias` or an
/// integer `missing_value` that fits the sentinel's 32 bits, or a
/// `type` tag is unknown.
pub open spec fn config_fields(s: Seq<char>) -> Option<Seq<(Seq<char>, int, FieldType)>> {
    match (
        jsonval::json5_str_members(s, "alias"@),
        jsonval::json5_i64_members(s, "missing_value"@),
        jsonval::json5_str_members(s, "type"@),
    ) {
        (Some(a), Some(m), Some(t)) => if a.len() == m.len() && a.len() == t.len() && (forall|
            i: int,
        |
            0 <= i < a.len() ==> (#[trigger] a[i]) is Some) && (forall|i: int|
            0 <= i < m.len() ==> ((#[trigger] m[i]) matches Some(x) && i32::MIN <= x
                <= i32::MAX)) && (forall|i: int|
            0 <= i < t.len() ==> type_tag_valid(#[trigger] t[i])) {
            Some(Seq::new(a.len(), |i: int| (a[i].unwrap(), m[i].unwrap(), type_of_tag(t[i]))))
        } else {
            None
        },
        _ => None,
    }
}

/// The overflow-record positions a window's overflow bytes carry, in
/// order. `None` when the bytes are not a JSON array or any record
/// lacks an integer `position` that fits 32 bits.
pub open spec fn longs_positions(b: Seq<u8>) -> Option<Seq<int>> {
    match jsonval::json_u64_members(b, "position"@) {
        None => None,
        Some(ms) => if forall|i: int|
            0 <= i < ms.len() ==> ((#[trigger] ms[i]) matches Some(p) && 0 <= p <= u32::MAX) {
            Some(Seq::new(ms.len(), |i: int| ms[i].unwrap()))
        } else {
            None
        },
    }
}

/// Parse a window's overflow list: a JSON array of records, each with
/// at least an integer `position`. Any malformed record makes the whole
/// list corrupt.
pub fn parse_longs(bytes: &[u8]) -> (r: Result<Vec<LongVariant>, EchtError>)
    ensures
        r is Ok <==> longs_positions(bytes@) is Some,
        r matches Ok(l) ==> l@.len() == longs_positions(bytes@).unwrap().len() && forall|i: int|
            0 <= i < l@.len() ==> (#[trigger] l@[i]).position == longs_positions(
                bytes@,
            ).unwrap()[i],
        r matches Err(e) ==> e == EchtError::CorruptBlock,
{
    let ms: Vec<Option<u64>> = match jsonval::json_u64_members_exec(bytes, "position") {
        Some(v) => v,
        None => {
            return Err(EchtError::CorruptBlock);
        },
    };
    let ghost q = jsonval::json_u64_members(bytes@, "position"@).unwrap();
    let mut out: Vec<LongVariant> = Vec::new();
    let mut i: usize = 0;
    while i < ms.len()
        invariant
            i <= ms@.len(),
            q == jsonval::json_u64_members(bytes@, "position"@).unwrap(),
            jsonval::json_u64_members(bytes@, "position"@) is Some,
            ms@.len() == q.len(),
            forall|k: int|
                0 <= k < ms@.len() ==> jsonval::opt_u64_view(#[trigger] ms@[k]) == q[k],
            forall|k: int|
                0 <= k < i ==> ((#[trigger] q[k]) matches Some(p) && 0 <= p <= u32::MAX),
            out@.len() == i,
            forall|k: int| 0 <= k < i ==> (#[trigger] out@[k]).position == q[k]->0,
        decreases ms@.len() - i,
    {
        let p64: u64 = match ms[i] {
            Some(p) => p,
            None => {
                return Err(EchtError::CorruptBlock);
            },
        };
        if p64 > 0xFFFFFFFF {
            return Err(EchtError::CorruptBlock);
        }
        out.push(LongVariant { position: p64 as u32 });
        i = i + 1;
    }
    proof {
        assert(longs_positions(bytes@) is Some);
    }
    Ok(out)
}

} // verus!
