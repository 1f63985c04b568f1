//! The frame envelope on the byte stream: a little-endian length, a
//! compression byte, an inflated size when compressed, then the body.

use crate::bytes::{from_le32, le32, push_le32};
use crate::compress::Mode;
use vstd::prelude::*;

verus! {

broadcast use vstd::std_specs::vec::group_vec_axioms;

/// What the first bytes of an incoming frame say.
#[derive(Debug, PartialEq)]
pub enum FrameHeader {
    /// Too few bytes have arrived to decide anything.
    NeedMore,
    /// The declared body length exceeds the configured cap; the body must
    /// not be read.
    TooLarge,
    /// The compression byte names no single codec.
    BadMode,
    /// An uncompressed body of the given length follows the five-byte
    /// header.
    Plain { body_len: u32 },
    /// A compressed body follows the nine-byte header; inflating it must
    /// give exactly `full_len` bytes.
    Compressed { body_len: u32, mode: Mode, full_len: u32 },
}

/// Reads the envelope from the bytes that have arrived so far. The length
/// cap is enforced on the declared sizes alone, before any body byte is
/// looked at.
pub fn parse_frame_header(buf: &Vec<u8>, max_message_size: usize) -> (r: FrameHeader)
    ensures
        buf@.len() < 5 ==> r == FrameHeader::NeedMore,
        buf@.len() >= 5 ==> {
            let blen = from_le32(buf@[0], buf@[1], buf@[2], buf@[3]);
            if blen > max_message_size {
                r == FrameHeader::TooLarge
            } else if buf@[4] == 0 {
                r == (FrameHeader::Plain { body_len: blen })
            } else {
                match Mode::spec_of_byte(buf@[4]) {
                    Option::None => r == FrameHeader::BadMode,
                    Option::Some(m) => if buf@.len() < 9 {
                        r == FrameHeader::NeedMore
                    } else {
                        let flen = from_le32(buf@[5], buf@[6], buf@[7], buf@[8]);
                        if flen > max_message_size {
                            r == FrameHeader::TooLarge
                        } else {
                            r == (FrameHeader::Compressed {
                                body_len: blen,
                                mode: m,
                                full_len: flen,
                            })
                        }
                    },
                }
            }
        },
{
    if buf.len() < 5 {
        return FrameHeader::NeedMore;
    }
    let blen = crate::bytes::read_le32(buf, 0);
    if blen as usize > max_message_size {
        return FrameHeader::TooLarge;
    }
    let comp = buf[4];
    if comp == 0 {
        return FrameHeader::Plain { body_len: blen };
    }
    let mode = match Mode::try_from(comp) {
        Option::None => {
            return FrameHeader::BadMode;
        },
        Option::Some(m) => m,
    };
    if buf.len() < 9 {
        return FrameHeader::NeedMore;
    }
    let flen = crate::bytes::read_le32(buf, 5);
    if flen as usize > max_message_size {
        return FrameHeader::TooLarge;
    }
    FrameHeader::Compressed { body_len: blen, mode, full_len: flen }
}

/// Builds the envelope for an uncompressed body, or reports that the body
/// exceeds the configured cap and must not be sent.
pub fn build_frame(body: &Vec<u8>, max_message_size: usize) -> (r: Option<Vec<u8>>)
    ensures
        r is Some <==> body@.len() <= max_message_size && body@.len() <= u32::MAX,
        r matches Option::Some(f) ==> f@ == le32(body@.len() as u32) + seq![0u8] + body@,
{
    if body.len() > max_message_size {
        return Option::None;
    }
    if body.len() > u32::MAX as usize {
        return Option::None;
    }
    let mut out: Vec<u8> = Vec::new();
    push_le32(&mut out, body.len() as u32);
    out.push(0u8);
    crate::bytes::push_bytes(&mut out, body);
    proof {
        assert(out@ =~= le32(body@.len() as u32) + seq![0u8] + body@);
    }
    Option::Some(out)
}

} // verus!
