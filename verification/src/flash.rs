//! Requests to a flash partition, and what such a partition does with them.
use vstd::prelude::*;

verus! {

/// Erase granularity of the flash chip, in bytes.
pub const SECTOR: u32 = 4096;

/// Whether a sector starts at `offset`, which is then a multiple of
/// [`SECTOR`].
pub open spec fn sector_start(offset: int) -> bool {
    offset % 4096 == 0
}

/// Whether a sector starts at `offset`.
pub fn starts_sector(offset: u32) -> (starts: bool)
    ensures
        starts == sector_start(offset as int),
        starts <==> offset % 4096 == 0,
{
    offset % 4096 == 0
}

/// What every byte of erased flash reads as.
pub const ERASED: u8 = 0xFF;

/// An operation on the bytes of one partition; offsets count from its start.
#[derive(Debug)]
pub enum FlashRequest {
    Read { offset: u32, len: u32 },
    Erase { offset: u32, len: u32 },
    Write { offset: u32, bytes: Vec<u8> },
}

/// How the partition answered a request.
#[derive(Debug)]
pub enum FlashReply {
    /// The bytes that a read asked for.
    Bytes(Vec<u8>),
    /// An erase or a write went through.
    Done,
    /// The driver reported an error.
    Failed,
}

/// A [`FlashRequest`] as a mathematical value.
#[verifier::ext_equal]
pub enum FlashOp {
    Read { offset: int, len: int },
    Erase { offset: int, len: int },
    Write { offset: int, bytes: Seq<u8> },
}

/// A [`FlashReply`] as a mathematical value.
#[verifier::ext_equal]
pub enum FlashAnswer {
    Bytes(Seq<u8>),
    Done,
    Failed,
}

impl View for FlashRequest {
    type V = FlashOp;

    open spec fn view(&self) -> FlashOp {
        match *self {
            FlashRequest::Read { offset, len } => FlashOp::Read {
                offset: offset as int,
                len: len as int,
            },
            FlashRequest::Erase { offset, len } => FlashOp::Erase {
                offset: offset as int,
                len: len as int,
            },
            FlashRequest::Write { offset, bytes } => FlashOp::Write {
                offset: offset as int,
                bytes: bytes@,
            },
        }
    }
}

impl View for FlashReply {
    type V = FlashAnswer;

    open spec fn view(&self) -> FlashAnswer {
        match *self {
            FlashReply::Bytes(bytes) => FlashAnswer::Bytes(bytes@),
            FlashReply::Done => FlashAnswer::Done,
            FlashReply::Failed => FlashAnswer::Failed,
        }
    }
}

/// What a request for `op` asks for: the view of an optional request.
pub open spec fn requested(request: Option<FlashRequest>) -> Option<FlashOp> {
    match request {
        Some(r) => Some(r@),
        None => None,
    }
}

/// Whether `op` stays within a partition of `size` bytes and, for an erase,
/// covers whole sectors.
pub open spec fn admissible(op: FlashOp, size: int) -> bool {
    match op {
        FlashOp::Read { offset, len } => 0 <= offset && 0 <= len && offset + len <= size,
        FlashOp::Erase { offset, len } => {
            &&& 0 <= offset
            &&& 0 <= len
            &&& offset + len <= size
            &&& sector_start(offset)
            &&& sector_start(len)
        },
        FlashOp::Write { offset, bytes } => 0 <= offset && offset + bytes.len() <= size,
    }
}

/// The partition's contents after `len` bytes from `offset` on were erased.
pub open spec fn erased(image: Seq<u8>, offset: int, len: int) -> Seq<u8> {
    Seq::new(
        image.len(),
        |i: int|
            if offset <= i < offset + len {
                ERASED
            } else {
                image[i]
            },
    )
}

/// The partition's contents after `bytes` were programmed at `offset`.
/// Programming NOR flash clears bits and never sets one.
pub open spec fn programmed(image: Seq<u8>, offset: int, bytes: Seq<u8>) -> Seq<u8> {
    Seq::new(
        image.len(),
        |i: int|
            if offset <= i < offset + bytes.len() {
                image[i] & bytes[i - offset]
            } else {
                image[i]
            },
    )
}

/// How a working partition with contents `image` answers `op`.
pub open spec fn answer(image: Seq<u8>, op: FlashOp) -> FlashAnswer {
    if !admissible(op, image.len() as int) {
        FlashAnswer::Failed
    } else {
        match op {
            FlashOp::Read { offset, len } => FlashAnswer::Bytes(
                image.subrange(offset, offset + len),
            ),
            _ => FlashAnswer::Done,
        }
    }
}

/// The contents of a working partition after it served `op`.
pub open spec fn after(image: Seq<u8>, op: FlashOp) -> Seq<u8> {
    if !admissible(op, image.len() as int) {
        image
    } else {
        match op {
            FlashOp::Read { .. } => image,
            FlashOp::Erase { offset, len } => erased(image, offset, len),
            FlashOp::Write { offset, bytes } => programmed(image, offset, bytes),
        }
    }
}

/// A request and a reply mean what they say: nothing is left out of them and
/// nothing is changed.
pub proof fn requests_and_replies_are_literal(request: FlashRequest, reply: FlashReply)
    ensures
        match request {
            FlashRequest::Read { offset, len } => request@ == (FlashOp::Read {
                offset: offset as int,
                len: len as int,
            }),
            FlashRequest::Erase { offset, len } => request@ == (FlashOp::Erase {
                offset: offset as int,
                len: len as int,
            }),
            FlashRequest::Write { offset, bytes } => request@ == (FlashOp::Write {
                offset: offset as int,
                bytes: bytes@,
            }),
        },
        requested(Some(request)) == Some(request@),
        requested(None) is None,
        match reply {
            FlashReply::Bytes(bytes) => reply@ == FlashAnswer::Bytes(bytes@),
            FlashReply::Done => reply@ == FlashAnswer::Done,
            FlashReply::Failed => reply@ == FlashAnswer::Failed,
        },
{
}

/// What a partition does with a request inside it: a read hands out the bytes
/// and changes nothing, an erase of whole sectors sets every bit of them, and
/// a write clears just the bits that are 0 in what is written. Bytes outside
/// the request stay as they are.
pub proof fn partition_serves(image: Seq<u8>, offset: int, len: int, bytes: Seq<u8>, i: int)
    requires
        0 <= offset,
        0 <= len,
        offset + len <= image.len(),
        bytes.len() == len,
        0 <= i < image.len(),
    ensures
        ({
            let op = FlashOp::Read { offset, len };
            &&& after(image, op) == image
            &&& answer(image, op) matches FlashAnswer::Bytes(b) && b.len() == len && (offset <= i
                < offset + len ==> b[i - offset] == image[i])
        }),
        offset % 4096 == 0 && len % 4096 == 0 ==> {
            let op = FlashOp::Erase { offset, len };
            &&& answer(image, op) == FlashAnswer::Done
            &&& after(image, op).len() == image.len()
            &&& after(image, op)[i] == if offset <= i < offset + len {
                0xFF
            } else {
                image[i]
            }
        },
        ({
            let op = FlashOp::Write { offset, bytes };
            &&& answer(image, op) == FlashAnswer::Done
            &&& after(image, op).len() == image.len()
            &&& after(image, op)[i] == if offset <= i < offset + len {
                image[i] & bytes[i - offset]
            } else {
                image[i]
            }
        }),
{
}

/// A request that reaches beyond the partition, or an erase of parts of
/// sectors, fails and changes nothing.
pub proof fn partition_refuses(image: Seq<u8>, op: FlashOp)
    requires
        match op {
            FlashOp::Read { offset, len } => offset < 0 || len < 0 || offset + len > image.len(),
            FlashOp::Erase { offset, len } => offset < 0 || len < 0 || offset + len > image.len()
                || offset % 4096 != 0 || len % 4096 != 0,
            FlashOp::Write { offset, bytes } => offset < 0 || offset + bytes.len() > image.len(),
        },
    ensures
        answer(image, op) == FlashAnswer::Failed,
        after(image, op) == image,
{
}

/// Bytes programmed onto erased flash are stored as they are.
pub proof fn programming_erased_flash_is_exact(image: Seq<u8>, offset: int, bytes: Seq<u8>)
    requires
        0 <= offset,
        offset + bytes.len() <= image.len(),
        forall|i: int| offset <= i < offset + bytes.len() ==> image[i] == ERASED,
    ensures
        programmed(image, offset, bytes).subrange(offset, offset + bytes.len()) == bytes,
{
    let after = programmed(image, offset, bytes);
    assert forall|k: int| 0 <= k < bytes.len() implies after.subrange(
        offset,
        offset + bytes.len(),
    )[k] == bytes[k] by {
        let b = bytes[k];
        assert(image[offset + k] == ERASED);
        assert(0xFFu8 & b == b) by (bit_vector);
    }
    assert(after.subrange(offset, offset + bytes.len()) =~= bytes);
}

} // verus!
