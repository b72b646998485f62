//! The queue of packets that wait to be written.
use crate::frame::{
    drop_bytes, joined, metadata, packet, packets, views, CONTINUATION_FLAG, HANDSHAKE_FLAG,
    MAX_DATA_LEN,
};
use vstd::prelude::*;
use vstd::slice::{slice_subrange, slice_to_vec};

verus! {

/// The packet that carries one chunk of a message.
fn make_packet(chunk: &[u8], on: bool, handshake: bool) -> (p: Vec<u8>)
    requires
        chunk@.len() <= MAX_DATA_LEN,
    ensures
        p@ == packet(chunk@, on, handshake),
{
    let len: usize = chunk.len();
    let mut flags: u8 = 0;
    if on {
        flags = flags | CONTINUATION_FLAG;
    }
    if handshake {
        flags = flags | HANDSHAKE_FLAG;
    }
    assert(flags == metadata(on, handshake)) by {
        assert(0u8 | 1u8 == 1u8) by (bit_vector);
        assert(0u8 | 2u8 == 2u8) by (bit_vector);
        assert(1u8 | 2u8 == 3u8) by (bit_vector);
    }
    let mut p: Vec<u8> = Vec::new();
    p.push((len / 256) as u8);
    p.push((len % 256) as u8);
    p.push(flags);
    p.extend_from_slice(chunk);
    assert(p@ =~= packet(chunk@, on, handshake));
    p
}

/// Cuts `data` into packets and puts them at the end of the queue.
pub fn push_packets(queue: &mut Vec<Vec<u8>>, data: &[u8], handshake: bool)
    ensures
        views(final(queue)@) == views(old(queue)@) + packets(data@, handshake),
{
    let mut at: usize = 0;
    proof {
        assert(data@.skip(0) =~= data@);
        assert(views(queue@) + packets(data@, handshake) =~= views(old(queue)@) + packets(
            data@,
            handshake,
        ));
    }
    while at < data.len()
        invariant
            at <= data@.len(),
            views(queue@) + packets(data@.skip(at as int), handshake) == views(old(queue)@)
                + packets(data@, handshake),
        decreases data@.len() - at,
    {
        let left: usize = data.len() - at;
        let on: bool = left > MAX_DATA_LEN;
        let size: usize = if on {
            MAX_DATA_LEN
        } else {
            left
        };
        let chunk = slice_subrange(data, at, at + size);
        let p = make_packet(chunk, on, handshake);
        let ghost before = queue@;
        let ghost rest = data@.skip(at as int);
        let ghost bytes = p@;
        queue.push(p);
        at = at + size;
        proof {
            let after = data@.skip(at as int);
            assert(after =~= rest.skip(size as int));
            assert(chunk@ =~= rest.take(size as int));
            assert(views(queue@) =~= views(before) + seq![bytes]);
            if !on {
                assert(chunk@ =~= rest);
                assert(packets(after, handshake) =~= seq![]);
            }
            assert(packets(rest, handshake) =~= seq![bytes] + packets(after, handshake));
            assert(views(queue@) + packets(after, handshake) =~= views(before) + packets(
                rest,
                handshake,
            ));
        }
    }
    proof {
        assert(data@.skip(at as int) =~= seq![]);
        assert(packets(data@.skip(at as int), handshake) =~= seq![]);
        assert(views(queue@) + Seq::<Seq<u8>>::empty() =~= views(queue@));
    }
}

/// All the bytes of the queue, for one big write.
pub fn big_write(queue: &Vec<Vec<u8>>) -> (bytes: Vec<u8>)
    ensures
        bytes@ == joined(views(queue@)),
{
    let mut bytes: Vec<u8> = Vec::new();
    let mut i: usize = 0;
    let ghost all = views(queue@);
    assert(all.skip(0) =~= all);
    while i < queue.len()
        invariant
            all == views(queue@),
            i <= queue@.len(),
            bytes@ + joined(all.skip(i as int)) == joined(all),
        decreases queue@.len() - i,
    {
        let ghost before = bytes@;
        bytes.extend_from_slice(queue[i].as_slice());
        proof {
            let rest = all.skip(i as int);
            assert(rest.drop_first() =~= all.skip(i + 1));
            assert(bytes@ =~= before + all[i as int]);
            assert(bytes@ + joined(all.skip(i + 1)) =~= before + joined(rest));
        }
        i = i + 1;
    }
    proof {
        assert(all.skip(i as int) =~= seq![]);
        assert(bytes@ + joined(all.skip(i as int)) =~= bytes@);
    }
    bytes
}

/// Takes `n` written bytes off the front of the queue.
pub fn drop_written(queue: &mut Vec<Vec<u8>>, n: usize)
    ensures
        views(final(queue)@) == drop_bytes(views(old(queue)@), n as nat),
{
    let mut left: usize = n;
    while queue.len() > 0 && left >= queue[0].len()
        invariant
            drop_bytes(views(queue@), left as nat) == drop_bytes(views(old(queue)@), n as nat),
        decreases queue@.len(),
    {
        let ghost before = queue@;
        let gone = queue.remove(0);
        left = left - gone.len();
        proof {
            assert(views(queue@) =~= views(before).drop_first());
        }
    }
    if queue.len() > 0 && left > 0 {
        let ghost before = queue@;
        let first = queue.remove(0);
        let rest = slice_to_vec(slice_subrange(first.as_slice(), left, first.len()));
        queue.insert(0, rest);
        proof {
            assert(rest@ =~= before[0]@.skip(left as int));
            assert(views(queue@) =~= drop_bytes(views(before), left as nat));
        }
    } else if queue.len() > 0 {
        proof {
            assert(views(queue@)[0].skip(0) =~= views(queue@)[0]);
            assert(views(queue@) =~= drop_bytes(views(queue@), 0));
        }
    }
}

} // verus!
