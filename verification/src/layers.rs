//! Layers on top of layers.
//!
//! Of two layers, the lower takes what the upper writes as its data, and what the
//! lower hands out is what the upper receives. What is on the wire of the upper
//! layer is then what the lower layer owes.
use crate::delivery::{
    law_read_is_in_order, law_sent_is_on_the_wire, law_write_is_owed, Link,
};
use crate::flow::{read_filled, write_begun, Flow};
use crate::frame::joined;
use crate::sessions::all_sent;
use crate::step::{ReadStepView, WriteActionView};
use crate::transform::PacketDataTransform;
use vstd::prelude::*;

verus! {

/// When the lower layer takes what the upper layer has queued, the upper layer owes
/// what it owed before, and the lower layer carries it.
pub proof fn law_upper_writes_through<U: PacketDataTransform, K, V: PacketDataTransform, L>(
    upper: Link<U, K>,
    upper_w: Flow<U>,
    upper_r: Flow<U>,
    owed: Seq<u8>,
    lower: Link<V, L>,
    lower_w: Flow<V>,
    lower_r: Flow<V>,
    wire: Seq<u8>,
    between: Seq<u8>,
    lower_after: Flow<V>,
    wake: bool,
    action: WriteActionView,
)
    requires
        lower.holds(),
        upper.owes(upper_w, upper_r, between, owed),
        lower.owes(lower_w, lower_r, wire, between),
        write_begun(lower_w, joined(upper_w.outgoing), lower_after, wake, action),
        action is Write || action is Ready,
    ensures
        upper.owes(
            all_sent(upper_w),
            upper_r,
            between + joined(upper_w.outgoing),
            owed,
        ),
        lower.owes(lower_after, lower_r, wire, between + joined(upper_w.outgoing)),
{
    let bytes = joined(upper_w.outgoing);
    law_write_is_owed(
        lower,
        lower_w,
        lower_r,
        wire,
        between,
        bytes,
        lower_after,
        wake,
        action,
    );
    law_sent_is_on_the_wire(upper, upper_w, upper_r, between, owed, bytes.len());
    assert(bytes.take(bytes.len() as int) =~= bytes);
}

/// When the upper layer reads through the lower layer, neither fails, and the upper
/// hands out what comes next in what it owes.
pub proof fn law_upper_reads_through<U: PacketDataTransform, K, V: PacketDataTransform, L>(
    upper: Link<U, K>,
    upper_w: Flow<U>,
    upper_r: Flow<U>,
    owed: Seq<u8>,
    lower: Link<V, L>,
    lower_w: Flow<V>,
    lower_r: Flow<V>,
    filled: Seq<u8>,
    wire: Seq<u8>,
    between: Seq<u8>,
    lower_room: nat,
    lower_after: Flow<V>,
    lower_step: ReadStepView,
    upper_room: nat,
    upper_after: Flow<U>,
    upper_step: ReadStepView,
)
    requires
        upper.holds(),
        lower.holds(),
        upper.owes(upper_w, upper_r, between, owed),
        lower.owes(lower_w, lower_r, filled + wire, between),
        read_filled(lower_r, filled, lower_room, lower_after, lower_step),
        read_filled(upper_r, lower_step.output, upper_room, upper_after, upper_step),
    ensures
        lower_step.action is Ready || lower_step.action is Wait,
        upper_step.action is Ready || upper_step.action is Wait,
        upper_step.output.len() <= owed.len(),
        upper_step.output == owed.take(upper_step.output.len() as int),
        ({
            let n = lower_step.output.len() as int;
            &&& lower.owes(lower_w, lower_after, wire, between.skip(n))
            &&& upper.owes(
                upper_w,
                upper_after,
                between.skip(n),
                owed.skip(upper_step.output.len() as int),
            )
        }),
{
    law_read_is_in_order(
        lower,
        lower_w,
        lower_r,
        filled,
        wire,
        between,
        lower_room,
        lower_after,
        lower_step,
    );
    let n = lower_step.output.len() as int;
    assert(between =~= lower_step.output + between.skip(n));
    law_read_is_in_order(
        upper,
        upper_w,
        upper_r,
        lower_step.output,
        between.skip(n),
        owed,
        upper_room,
        upper_after,
        upper_step,
    );
}

} // verus!
