//! Cutting a byte stream into packets.
use tokio_core::io::EasyBuf;
use vstd::prelude::*;

use crate::buffer;
use crate::codec;
use crate::wire;
use crate::wire::{FixedHeader, NextFrame};

verus! {

/// What the buffer holds at its front.
pub enum NextPacket {
    /// A packet: its first byte and its body.
    Packet(u8, Vec<u8>),
    NeedMore,
    /// A length of more than four bytes.
    BadLength,
    /// A first byte that no packet can have.
    BadHeader,
}

impl View for NextPacket {
    type V = NextFrame;

    open spec fn view(&self) -> NextFrame {
        match self {
            NextPacket::Packet(first, body) => NextFrame::Packet(*first, body@),
            NextPacket::NeedMore => NextFrame::NeedMore,
            NextPacket::BadLength => NextFrame::BadLength,
            NextPacket::BadHeader => NextFrame::BadHeader,
        }
    }
}

/// The bytes that have come from a peer and that no packet has been made of yet.
pub struct PacketReader {
    buf: EasyBuf,
    fixed_header: Option<FixedHeader>,
}

impl PacketReader {
    /// The header that waits for its body is one that a packet can have.
    pub open spec fn wf(&self) -> bool {
        self.header() matches Some(h) ==> wire::valid_first(h.packet_type) && h.remaining_length
            <= wire::MAX_REMAINING_LENGTH
    }

    /// The bytes that have come and belong to no whole packet yet.
    pub closed spec fn bytes(&self) -> Seq<u8> {
        buffer::easy_buf_bytes(self.buf)
    }

    /// The header of the packet whose body has not come yet.
    pub closed spec fn header(&self) -> Option<FixedHeader> {
        self.fixed_header
    }

    pub fn new() -> (r: PacketReader)
        ensures
            r.bytes() == Seq::<u8>::empty(),
            r.header() is None,
    {
        PacketReader { buf: buffer::easy_buf_new(), fixed_header: None }
    }

    /// More bytes have come.
    pub fn append(&mut self, data: &[u8])
        ensures
            final(self).bytes() == old(self).bytes() + data@,
            final(self).header() == old(self).header(),
    {
        buffer::easy_buf_append(&mut self.buf, data);
    }

    /// Where the fixed header at the front of the buffer ends.
    fn header_len(&self) -> (r: Option<usize>)
        ensures
            wire::header_end(self.bytes()) == (match r {
                Some(n) => Some(n as int),
                None => None,
            }),
    {
        let slice = buffer::easy_buf_as_slice(&self.buf);
        let mut i: usize = 1;
        while i < 6
            invariant
                1 <= i <= 6,
                slice@ == self.bytes(),
                i <= slice@.len() || i == 1,
                forall|j: int| 1 <= j < i ==> slice@[j] >= 128,
            decreases 6 - i,
        {
            if slice.len() < i + 1 {
                return None;
            }
            if slice[i] < 0x80 {
                return Some(i + 1);
            }
            i = i + 1;
        }
        Some(6)
    }

    /// Cuts the next packet off the buffer.
    pub fn next_packet(&mut self) -> (r: NextPacket)
        requires
            old(self).wf(),
        ensures
            final(self).wf(),
            wire::next_frame(old(self).bytes(), old(self).header()) == (
                r@,
                final(self).bytes(),
                final(self).header(),
            ),
            ({
                let before = wire::frames(old(self).bytes(), old(self).header());
                let after = wire::frames(final(self).bytes(), final(self).header());
                match r {
                    NextPacket::Packet(first, body) => {
                        &&& wire::valid_first(first)
                        &&& body@.len() <= wire::MAX_REMAINING_LENGTH
                        &&& final(self).header() is None
                        &&& final(self).bytes().len() < old(self).bytes().len() || (
                        final(self).bytes().len() == old(self).bytes().len() && old(
                            self,
                        ).header() is Some)
                        &&& before == (wire::Frames {
                            packets: seq![(first, body@)] + after.packets,
                            ..after
                        })
                    },
                    NextPacket::NeedMore => before == (wire::Frames {
                        packets: Seq::empty(),
                        rest: final(self).bytes(),
                        header: final(self).header(),
                        end: wire::FramesEnd::NeedMore,
                    }),
                    NextPacket::BadLength => before == (wire::Frames {
                        packets: Seq::empty(),
                        rest: final(self).bytes(),
                        header: final(self).header(),
                        end: wire::FramesEnd::BadLength,
                    }),
                    NextPacket::BadHeader => before.packets.len() == 0 && before.end
                        is BadHeader,
                }
            }),
    {
        proof {
            reveal_with_fuel(wire::frames, 2);
        }
        let ghost before = wire::frames(self.bytes(), self.header());
        if self.fixed_header.is_none() {
            let header_len: usize = match self.header_len() {
                Some(n) => n,
                None => return NextPacket::NeedMore,
            };
            if header_len >= 6 {
                return NextPacket::BadLength;
            }
            let header_bytes = buffer::easy_buf_drain_to(&mut self.buf, header_len);
            match codec::decode_fixed_header(header_bytes.as_slice()) {
                Some(header) => {
                    proof {
                        wire::lemma_header_length(header_bytes@);
                    }
                    self.fixed_header = Some(header);
                },
                None => return NextPacket::BadHeader,
            }
        }
        assert(before == wire::frames(self.bytes(), self.header()));
        match self.fixed_header {
            Some(header) => {
                let remaining_length: usize = header.remaining_length as usize;
                if remaining_length <= buffer::easy_buf_as_slice(&self.buf).len() {
                    let body = buffer::easy_buf_drain_to(&mut self.buf, remaining_length);
                    self.fixed_header = None;
                    NextPacket::Packet(header.packet_type, body)
                } else {
                    NextPacket::NeedMore
                }
            },
            None => NextPacket::NeedMore,
        }
    }
}

} // verus!
