//! What is taken on trust of the formatting of structures for debugging.
use crate::noise_transform::NoiseProtocolStep;
use std::fmt::{DebugStruct, Formatter};
use vstd::prelude::*;

verus! {

#[verifier::external_type_specification]
#[verifier::external_body]
pub struct ExFormatter<'a>(std::fmt::Formatter<'a>);

#[verifier::external_type_specification]
#[verifier::external_body]
pub struct ExDebugStruct<'a, 'b: 'a>(std::fmt::DebugStruct<'a, 'b>);

#[verifier::external_type_specification]
#[verifier::external_body]
pub struct ExFmtError(std::fmt::Error);

/// A value that is shown.
pub enum ShownValue {
    Step(NoiseProtocolStep),
    Bytes(Option<Seq<u8>>),
}

/// A structure that is shown: its name, and its fields in order, each with its name.
pub struct Shown {
    pub name: Seq<char>,
    pub fields: Seq<(Seq<char>, ShownValue)>,
}

/// What a formatter has been given: the structures, one after the other, and whether
/// there was an error.
pub struct Written {
    pub shown: Seq<Shown>,
    pub failed: bool,
}

/// What has been written with a formatter.
pub uninterp spec fn formatter_written(f: Formatter<'_>) -> Written;

/// What had been written when a structure was begun, and the structure so far.
pub uninterp spec fn debug_struct_begun(d: DebugStruct<'_, '_>) -> (Written, Shown);

/// What will have been written with the formatter that a structure is written with,
/// once that is finished.
pub uninterp spec fn debug_struct_end(d: DebugStruct<'_, '_>) -> Written;

/// A structure with one more field.
pub open spec fn with_field(begun: (Written, Shown), name: Seq<char>, value: ShownValue) -> (
    Written,
    Shown,
) {
    (
        begun.0,
        Shown { name: begun.1.name, fields: begun.1.fields.push((name, value)) },
    )
}

/// Calls `Formatter::debug_struct`. The claim: a structure of that name is begun,
/// without fields, and what is then written goes to the formatter.
#[verifier::external_body]
pub(crate) fn debug_struct<'a, 'b>(f: &'a mut Formatter<'b>, name: &str) -> (d: DebugStruct<'a, 'b>)
    ensures
        debug_struct_begun(d) == (
            formatter_written(*old(f)),
            Shown { name: name@, fields: Seq::<(Seq<char>, ShownValue)>::empty() },
        ),
        debug_struct_end(d) == formatter_written(*final(f)),
{
    f.debug_struct(name)
}

/// Calls `DebugStruct::field` with a handshake step. The claim: the field is added.
#[verifier::external_body]
pub(crate) fn debug_field_step(d: &mut DebugStruct<'_, '_>, name: &str, value: &NoiseProtocolStep)
    ensures
        debug_struct_begun(*final(d)) == with_field(
            debug_struct_begun(*old(d)),
            name@,
            ShownValue::Step(*value),
        ),
        debug_struct_end(*final(d)) == debug_struct_end(*old(d)),
{
    d.field(name, value);
}

/// Calls `DebugStruct::field` with bytes, if there are any. The claim: the field is
/// added.
#[verifier::external_body]
pub(crate) fn debug_field_bytes(d: &mut DebugStruct<'_, '_>, name: &str, value: &Option<Vec<u8>>)
    ensures
        debug_struct_begun(*final(d)) == with_field(
            debug_struct_begun(*old(d)),
            name@,
            ShownValue::Bytes(
                match *value {
                    Some(bytes) => Some(bytes@),
                    None => None,
                },
            ),
        ),
        debug_struct_end(*final(d)) == debug_struct_end(*old(d)),
{
    d.field(name, value);
}

/// Calls `DebugStruct::finish`. The claim: the structure has been written, with its
/// fields in order, or there was an error in writing.
#[verifier::external_body]
pub(crate) fn debug_finish(d: DebugStruct<'_, '_>) -> (r: Result<(), std::fmt::Error>)
    ensures
        r is Ok ==> debug_struct_end(d).shown == debug_struct_begun(d).0.shown.push(
            debug_struct_begun(d).1,
        ),
        r is Err ==> debug_struct_end(d).failed,
{
    let mut d = d;
    d.finish()
}

/// Makes a `std::fmt::Error`, which says that a value cannot be shown.
#[verifier::external_body]
pub(crate) fn cannot_show() -> (r: Result<(), std::fmt::Error>)
    ensures
        r is Err,
{
    Err(std::fmt::Error)
}

/// The structure has been written, or there was an error in writing.
pub open spec fn showed(
    f: Written,
    post: Written,
    shown: Shown,
    r: Result<(), std::fmt::Error>,
) -> bool {
    &&& r is Ok ==> post.shown == f.shown.push(shown)
    &&& r is Err ==> post.failed
}

} // verus!
