//! The byte stream under a connection, with the bytes that were read from it too
//! early put back in front.

use bytes::Bytes;
use vstd::prelude::*;

use crate::buf::{as_slice, bytes_of};

verus! {

/// A stream of which some bytes were read before it was handed over.
pub struct IoWrapper<T> {
    /// The bytes that were read too early and not yet handed out. `None` once
    /// there are no more of them.
    pub unread: Option<Bytes>,
    /// The stream itself.
    pub inner: T,
}

/// The bytes that are handed out before the stream is asked again.
pub open spec fn put_back(unread: Option<Bytes>) -> Seq<u8> {
    match unread {
        Some(b) => bytes_of(b),
        None => Seq::empty(),
    }
}

/// The smaller of two lengths.
pub open spec fn shorter(a: nat, b: nat) -> nat {
    if a <= b {
        a
    } else {
        b
    }
}

/// What a read into `room` bytes hands out of the bytes `held`.
pub open spec fn handed_out(held: Seq<u8>, room: nat) -> Seq<u8> {
    held.take(shorter(room, held.len()) as int)
}

/// What a read into `room` bytes leaves of the bytes `held`.
pub open spec fn kept_back(held: Seq<u8>, room: nat) -> Seq<u8> {
    held.skip(shorter(room, held.len()) as int)
}

/// No byte that was put back is lost, repeated or moved: two reads hand out what
/// one read into the room of both would, and leave the same behind.
pub proof fn law_reads_follow_on(held: Seq<u8>, first: nat, second: nat)
    ensures
        handed_out(held, first) + kept_back(held, first) == held,
        handed_out(held, first) + handed_out(kept_back(held, first), second) == handed_out(
            held,
            first + second,
        ),
        kept_back(kept_back(held, first), second) == kept_back(held, first + second),
{
    let rest = kept_back(held, first);
    assert(handed_out(held, first) + rest =~= held);
    assert(handed_out(held, first) + handed_out(rest, second) =~= handed_out(held, first + second));
    assert(kept_back(rest, second) =~= kept_back(held, first + second));
}

/// A read hands out as many of the bytes held as there is room for, from the first one
/// on, and leaves all the others, in order.
pub proof fn law_read_hands_out_all_it_can(held: Seq<u8>, room: nat)
    ensures
        handed_out(held, room).len() <= room,
        handed_out(held, room).len() <= held.len(),
        handed_out(held, room).len() == room || handed_out(held, room).len() == held.len(),
        kept_back(held, room).len() == held.len() - handed_out(held, room).len(),
        forall|i: int|
            0 <= i < handed_out(held, room).len() ==> #[trigger] handed_out(held, room)[i]
                == held[i],
        forall|i: int|
            0 <= i < kept_back(held, room).len() ==> #[trigger] kept_back(held, room)[i]
                == held[handed_out(held, room).len() + i],
{
}

/// What is put back in front of a stream are the bytes that it holds, and nothing where
/// it holds none.
pub proof fn law_put_back_is_what_is_held(held: Bytes)
    ensures
        put_back(Some(held)) == bytes_of(held),
        put_back(None).len() == 0,
{
}

impl<T> IoWrapper<T> {
    /// Puts `buf` in front of `inner`.
    pub fn new(buf: Bytes, inner: T) -> (io: IoWrapper<T>)
        ensures
            io.inner == inner,
            io.unread == (if bytes_of(buf).len() == 0 {
                None
            } else {
                Some(buf)
            }),
    {
        IoWrapper { unread: if buf.is_empty() { None } else { Some(buf) }, inner }
    }

    /// Fills `buf` from the bytes that were put back, as far as they go, and says
    /// how many were copied. `None` says that there are none: the stream is to be
    /// read instead.
    pub fn read(&mut self, buf: &mut [u8]) -> (r: Option<usize>)
        ensures
            final(self).inner == old(self).inner,
            final(buf)@.len() == old(buf)@.len(),
            old(self).unread is None ==> r is None && final(self).unread is None && final(buf)@
                == old(buf)@,
            old(self).unread matches Some(held) ==> {
                let room = old(buf)@.len();
                let out = handed_out(bytes_of(held), room);
                &&& r == Some(out.len() as usize)
                &&& final(buf)@ == out + old(buf)@.skip(out.len() as int)
                &&& put_back(final(self).unread) == kept_back(bytes_of(held), room)
                &&& final(self).unread is None <==> kept_back(bytes_of(held), room).len() == 0
            },
            old(self).unread matches Some(held) ==> {
                let size = if old(buf)@.len() <= bytes_of(held).len() {
                    old(buf)@.len()
                } else {
                    bytes_of(held).len()
                };
                &&& r == Some(size as usize)
                &&& forall|i: int| 0 <= i < size ==> #[trigger] final(buf)@[i] == bytes_of(held)[i]
                &&& forall|i: int|
                    size <= i < old(buf)@.len() ==> #[trigger] final(buf)@[i] == old(buf)@[i]
                &&& match final(self).unread {
                    Some(rest) => size < bytes_of(held).len() && bytes_of(rest) == bytes_of(
                        held,
                    ).skip(size as int),
                    None => size == bytes_of(held).len(),
                }
            },
    {
        match self.unread.take() {
            None => None,
            Some(mut held) => {
                let have: usize = held.len();
                let room: usize = buf.len();
                let size: usize = if room <= have { room } else { have };
                let mut i: usize = 0;
                while i < size
                    invariant
                        i <= size <= old(buf)@.len(),
                        size <= bytes_of(held).len(),
                        buf@ == bytes_of(held).take(i as int) + old(buf)@.skip(i as int),
                    decreases size - i,
                {
                    buf[i] = as_slice(&held)[i];
                    i = i + 1;
                    assert(buf@ =~= bytes_of(held).take(i as int) + old(buf)@.skip(i as int));
                }
                if have > size {
                    let _ = held.split_to(size);
                    self.unread = Some(held);
                }
                Some(size)
            },
        }
    }
}

} // verus!
