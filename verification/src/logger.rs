//! # Offline CO2 history logger
//!
//! Writes one record per minute into the dedicated `co2_log` flash partition,
//! independent of Zigbee connectivity.
//!
//! ## Storage layout
//!
//! - Sector 0: header, with magic bytes that identify an initialized log. If
//!   the magic is missing at boot, the whole partition is erased and
//!   initialized again.
//! - Sectors 1..: a ring of fixed 8-byte records, written append-only.
//!
//! Erased flash reads 0xFF, and a record of a real reading never does, so the
//! first all-0xFF record marks the write position at boot. Before it writes
//! into a new sector the ring erases that sector, which after a wrap-around
//! drops the 512 oldest records.
//!
//! If no record is blank, the ring stands between two sectors and goes on at
//! the oldest one. Going round, the first records of the sectors are in time
//! order but for one place, from the newest sector to the oldest. If the
//! records tell of exactly one such place and it is inside the partition, the
//! ring goes on there; otherwise it goes on at the first sector, where a ring
//! that has just filled the partition goes on. A boot count of 0 tells no
//! order against other counts, and a place where time goes on from the record
//! right before does not count.
//!
//! ## Timestamps
//!
//! There is no clock to ask offline, so a record carries the boot count and
//! the seconds since that boot. The boot count is 0 if the counter is not
//! available.
//!
//! The flash driver is not called from here. Opening the log and appending to
//! it are state machines: each names the request it waits for, and moves on
//! with the driver's reply.
use crate::flash::{starts_sector, FlashReply, FlashRequest, ERASED, SECTOR};
use crate::record::{Record, RECORD};
use vstd::prelude::*;

verus! {

use crate::flash::{requested, sector_start, FlashAnswer, FlashOp};
use crate::record::{
    blank_at, encoded, falls, older, record_at, record_layout, record_start, slot_layout,
};

/// Magic bytes in the header sector marking an initialized log partition:
/// `C2LOG`, a version byte and two zeros.
pub const MAGIC: [u8; 8] = [0x43, 0x32, 0x4C, 0x4F, 0x47, 0x01, 0x00, 0x00];

/// Records start after the header sector.
pub const HEADER_SIZE: u32 = 4096;

/// Bytes read at a time while looking for the write position.
pub const CHUNK: u32 = 256;

/// The largest partition whose offsets the scan can count in 32 bits.
pub const MAX_PARTITION: u32 = 0xFFFF_FF00;

/// Seconds between log records.
pub const LOG_INTERVAL_S: u64 = 60;

/// The offset of the first record of `s` between `from` and `to`, in steps of
/// one record, that reads as erased flash.
pub open spec fn first_blank(s: Seq<u8>, from: int, to: int) -> Option<int>
    decreases to - from,
{
    if from + RECORD > to {
        None
    } else if blank_at(s, from) {
        Some(from)
    } else {
        first_blank(s, from + RECORD, to)
    }
}

/// Whether the record of `chunk` at `at` reads as erased flash.
fn is_blank(chunk: &[u8], at: usize) -> (blank: bool)
    requires
        at + RECORD <= chunk.len(),
    ensures
        blank == blank_at(chunk@, at as int),
{
    let end: usize = at + RECORD as usize;
    let mut i: usize = at;
    while i < end
        invariant
            at <= i <= end,
            end == at + RECORD,
            end <= chunk@.len(),
            forall|k: int| at <= k < i ==> chunk@[k] == ERASED,
        decreases end - i,
    {
        if chunk[i] != ERASED {
            return false;
        }
        i += 1;
    }
    true
}

/// The offset in `chunk` of its first record that reads as erased flash.
pub fn find_first_empty(chunk: &[u8]) -> (found: Option<u32>)
    requires
        chunk@.len() == CHUNK,
    ensures
        match found {
            Some(rec) => first_blank(chunk@, 0, CHUNK as int) == Some(rec as int),
            None => first_blank(chunk@, 0, CHUNK as int) is None,
        },
        found matches Some(rec) ==> record_start(rec as int) && rec + RECORD <= CHUNK,
        found matches Some(rec) ==> {
            &&& rec % 8 == 0 && rec <= 248
            &&& chunk@[rec as int] == 0xFF && chunk@[rec + 1] == 0xFF && chunk@[rec + 2] == 0xFF
                && chunk@[rec + 3] == 0xFF && chunk@[rec + 4] == 0xFF && chunk@[rec + 5] == 0xFF
                && chunk@[rec + 6] == 0xFF && chunk@[rec + 7] == 0xFF
        },
        forall|q: int|
            #![trigger chunk@[q]]
            0 <= q < 256 && q % 8 == 0 && (found matches Some(rec) ==> q < rec)
                ==> (chunk@[q] != 0xFF || chunk@[q + 1] != 0xFF || chunk@[q + 2] != 0xFF
                || chunk@[q + 3] != 0xFF || chunk@[q + 4] != 0xFF || chunk@[q + 5] != 0xFF
                || chunk@[q + 6] != 0xFF || chunk@[q + 7] != 0xFF),
{
    let mut rec: u32 = 0;
    while rec < CHUNK
        invariant
            chunk@.len() == CHUNK,
            rec <= CHUNK,
            record_start(rec as int),
            first_blank(chunk@, 0, CHUNK as int) == first_blank(chunk@, rec as int, CHUNK as int),
            forall|q: int| 0 <= q < rec && q % 8 == 0 ==> !#[trigger] blank_at(chunk@, q),
        decreases CHUNK - rec,
    {
        if is_blank(chunk, rec as usize) {
            proof {
                none_blank(chunk@, rec as int);
                slot_layout(chunk@, rec as int);
            }
            return Some(rec);
        }
        rec += RECORD;
    }
    proof {
        none_blank(chunk@, 256);
    }
    None
}

/// Slots that are not blank have a byte other than 0xFF.
proof fn none_blank(s: Seq<u8>, to: int)
    requires
        forall|q: int| 0 <= q < to && q % 8 == 0 ==> !#[trigger] blank_at(s, q),
    ensures
        forall|q: int|
            #![trigger s[q]]
            0 <= q < to && q % 8 == 0 ==> (s[q] != 0xFF || s[q + 1] != 0xFF || s[q + 2] != 0xFF
                || s[q + 3] != 0xFF || s[q + 4] != 0xFF || s[q + 5] != 0xFF || s[q + 6] != 0xFF
                || s[q + 7] != 0xFF),
{
    assert forall|q: int|
        #![trigger s[q]]
        0 <= q < to && q % 8 == 0 implies (s[q] != 0xFF || s[q + 1] != 0xFF || s[q + 2] != 0xFF
            || s[q + 3] != 0xFF || s[q + 4] != 0xFF || s[q + 5] != 0xFF || s[q + 6] != 0xFF
            || s[q + 7] != 0xFF) by {
        assert(!blank_at(s, q));
        slot_layout(s, q);
    }
}

/// What a search for the oldest sector has seen so far.
#[derive(Clone, Copy, Debug, PartialEq, Eq, Structural)]
pub struct Walk {
    /// The first record of all.
    pub first: Record,
    /// The first record of the sector before.
    pub before: Record,
    /// The one sector so far at which the order of time breaks.
    pub turn: Option<u32>,
}

/// Whether the ring may have turned at a sector that starts with the record
/// `here`: the sector before it starts with a record that is not older, and
/// the record right before it is not older either.
pub open spec fn turns(before: Record, prior: Record, here: Record) -> bool {
    falls(before, here) && !older(prior, here)
}

/// How far the opening of the log has come.
#[derive(Clone, Copy, Debug, PartialEq, Eq, Structural)]
pub enum OpenStage {
    /// The magic bytes are being read.
    ReadHeader,
    /// Fresh or foreign contents are being erased.
    EraseAll,
    /// The magic bytes are being written.
    StampHeader,
    /// Records before `offset` are in use; the chunk there is being read.
    Scan { offset: u32 },
    /// Every record is in use; the first record of the sector at `offset` is
    /// being read, together with the one before it. There is a walk from the
    /// second sector on.
    Seek { offset: u32, walk: Option<Walk> },
    /// The next record goes to `write_pos`.
    Ready { write_pos: u32 },
    /// A request failed.
    Failed,
}

/// A log partition that is being opened.
#[derive(Clone, Copy, Debug, PartialEq, Eq, Structural)]
pub struct Opening {
    pub size: u32,
    pub boot_count: u16,
    pub stage: OpenStage,
}

/// The partition table has no `co2_log` entry.
#[derive(Clone, Copy, Debug, PartialEq, Eq, Structural)]
pub struct PartitionNotFound;

/// The stage at which the scan of a partition of `size` bytes goes on at
/// `offset`. At the end of a full partition the search for the oldest sector
/// begins.
pub open spec fn scanning(size: u32, offset: int) -> OpenStage {
    if offset < size {
        OpenStage::Scan { offset: offset as u32 }
    } else if HEADER_SIZE < size {
        OpenStage::Seek { offset: HEADER_SIZE, walk: None }
    } else {
        OpenStage::Ready { write_pos: HEADER_SIZE }
    }
}

/// The stage that follows when the sector at `offset` starts with the record
/// `here`, and `prior` is the record right before it. At the end the ring goes
/// on at the one sector where it turned, if there is just one and the order of
/// time holds from the last sector to the first.
pub open spec fn seeking(
    size: u32,
    offset: u32,
    walk: Option<Walk>,
    prior: Record,
    here: Record,
) -> OpenStage {
    let first = match walk {
        Some(w) => w.first,
        None => here,
    };
    let before_turn = match walk {
        Some(w) => w.turn,
        None => None,
    };
    let turning = walk is Some && turns(walk.unwrap().before, prior, here);
    let turn = if turning {
        Some(offset)
    } else {
        before_turn
    };
    if turning && before_turn is Some {
        OpenStage::Ready { write_pos: HEADER_SIZE }
    } else if offset + SECTOR < size {
        OpenStage::Seek {
            offset: (offset + SECTOR) as u32,
            walk: Some(Walk { first, before: here, turn }),
        }
    } else {
        OpenStage::Ready {
            write_pos: match turn {
                Some(at) => if falls(here, first) {
                    HEADER_SIZE
                } else {
                    at
                },
                None => HEADER_SIZE,
            },
        }
    }
}

impl Opening {
    /// What every opening keeps: the scan stands on a chunk of the partition,
    /// and the search for the oldest sector on a sector.
    pub open spec fn wf(self) -> bool {
        &&& self.size <= MAX_PARTITION
        &&& self.stage matches OpenStage::Scan { offset } ==> {
            &&& HEADER_SIZE <= offset < self.size
            &&& offset % 256 == 0
        }
        &&& self.stage matches OpenStage::Seek { offset, walk } ==> {
            &&& HEADER_SIZE <= offset < self.size
            &&& sector_start(offset as int)
            &&& walk is Some && walk.unwrap().turn is Some ==> {
                let turn = walk.unwrap().turn.unwrap();
                HEADER_SIZE <= turn < self.size && sector_start(turn as int)
            }
        }
        &&& self.stage matches OpenStage::Ready { write_pos } ==> {
            &&& HEADER_SIZE <= write_pos
            &&& record_start(write_pos as int)
            &&& write_pos <= MAX_PARTITION
        }
    }

    /// The flash operation this opening waits for.
    pub open spec fn op(self) -> Option<FlashOp> {
        match self.stage {
            OpenStage::ReadHeader => Some(FlashOp::Read { offset: 0, len: MAGIC@.len() as int }),
            OpenStage::EraseAll => Some(FlashOp::Erase { offset: 0, len: self.size as int }),
            OpenStage::StampHeader => Some(FlashOp::Write { offset: 0, bytes: MAGIC@ }),
            OpenStage::Scan { offset } => Some(
                FlashOp::Read { offset: offset as int, len: CHUNK as int },
            ),
            OpenStage::Seek { offset, .. } => Some(
                FlashOp::Read { offset: offset - RECORD, len: 2 * RECORD },
            ),
            OpenStage::Ready { .. } => None,
            OpenStage::Failed => None,
        }
    }

    /// The stage that follows when the flash answers `a`.
    pub open spec fn stage_after(self, a: FlashAnswer) -> OpenStage {
        match (self.stage, a) {
            (OpenStage::ReadHeader, FlashAnswer::Bytes(b)) if b.len() == MAGIC@.len() => {
                if b == MAGIC@ {
                    scanning(self.size, HEADER_SIZE as int)
                } else {
                    OpenStage::EraseAll
                }
            },
            (OpenStage::EraseAll, FlashAnswer::Done) => OpenStage::StampHeader,
            (OpenStage::StampHeader, FlashAnswer::Done) => scanning(self.size, HEADER_SIZE as int),
            (OpenStage::Scan { offset }, FlashAnswer::Bytes(b)) if b.len() == CHUNK => {
                match first_blank(b, 0, CHUNK as int) {
                    Some(rec) => OpenStage::Ready { write_pos: (offset + rec) as u32 },
                    None => scanning(self.size, offset + CHUNK),
                }
            },
            (OpenStage::Seek { offset, walk }, FlashAnswer::Bytes(b)) if b.len() == 2 * RECORD => {
                seeking(self.size, offset, walk, record_at(b, 0), record_at(b, RECORD as int))
            },
            (OpenStage::Ready { .. }, _) => self.stage,
            _ => OpenStage::Failed,
        }
    }

    /// This opening once the flash has answered `a`.
    pub open spec fn served(self, a: FlashAnswer) -> Opening {
        Opening { stage: self.stage_after(a), ..self }
    }

    fn scan_from(size: u32, offset: u32) -> (stage: OpenStage)
        ensures
            stage == scanning(size, offset as int),
    {
        if offset < size {
            OpenStage::Scan { offset }
        } else if HEADER_SIZE < size {
            OpenStage::Seek { offset: HEADER_SIZE, walk: None }
        } else {
            OpenStage::Ready { write_pos: HEADER_SIZE }
        }
    }

    fn seek_sector(
        size: u32,
        offset: u32,
        walk: Option<Walk>,
        prior: Record,
        here: Record,
    ) -> (stage: OpenStage)
        requires
            (Opening { size, boot_count: 0, stage: OpenStage::Seek { offset, walk } }).wf(),
        ensures
            stage == seeking(size, offset, walk, prior, here),
            (Opening { size, boot_count: 0, stage }).wf(),
    {
        let mut first = here;
        let mut turn: Option<u32> = None;
        if let Some(w) = walk {
            first = w.first;
            turn = w.turn;
            if w.before.falls_to(&here) && !prior.is_older(&here) {
                if turn.is_some() {
                    return OpenStage::Ready { write_pos: HEADER_SIZE };
                }
                turn = Some(offset);
            }
        }
        if size - offset > SECTOR {
            let walk = Some(Walk { first, before: here, turn });
            return OpenStage::Seek { offset: offset + SECTOR, walk };
        }
        match turn {
            Some(at) if !here.falls_to(&first) => OpenStage::Ready { write_pos: at },
            _ => OpenStage::Ready { write_pos: HEADER_SIZE },
        }
    }

    fn scan_chunk(size: u32, offset: u32, chunk: &[u8]) -> (stage: OpenStage)
        requires
            size <= MAX_PARTITION,
            HEADER_SIZE <= offset < size,
            offset % 256 == 0,
            chunk@.len() == CHUNK,
        ensures
            stage == match first_blank(chunk@, 0, CHUNK as int) {
                Some(rec) => OpenStage::Ready { write_pos: (offset + rec) as u32 },
                None => scanning(size, offset + CHUNK),
            },
            (Opening { size, boot_count: 0, stage }).wf(),
    {
        match find_first_empty(chunk) {
            Some(rec) => OpenStage::Ready { write_pos: offset + rec },
            None => Self::scan_from(size, offset + CHUNK),
        }
    }

    /// The request whose reply this opening waits for, if it is not done.
    pub fn request(&self) -> (request: Option<FlashRequest>)
        requires
            self.wf(),
        ensures
            requested(request) == self.op(),
            match self.stage {
                OpenStage::ReadHeader => request matches Some(FlashRequest::Read { offset, len })
                    && offset == 0 && len == 8,
                OpenStage::EraseAll => request matches Some(FlashRequest::Erase { offset, len })
                    && offset == 0 && len == self.size,
                OpenStage::StampHeader => request matches Some(FlashRequest::Write { offset,
                    bytes })
                    && offset == 0 && bytes@ == seq![0x43u8, 0x32, 0x4C, 0x4F, 0x47, 0x01, 0x00,
                        0x00],
                OpenStage::Scan { offset: at } => request matches Some(
                    FlashRequest::Read { offset, len },
                ) && offset == at && len == 256,
                OpenStage::Seek { offset: at, .. } => request matches Some(
                    FlashRequest::Read { offset, len },
                ) && offset == at - 8 && len == 16,
                OpenStage::Ready { .. } | OpenStage::Failed => request is None,
            },
    {
        match self.stage {
            OpenStage::ReadHeader => Some(FlashRequest::Read { offset: 0, len: 8 }),
            OpenStage::EraseAll => Some(FlashRequest::Erase { offset: 0, len: self.size }),
            OpenStage::StampHeader => Some(
                FlashRequest::Write { offset: 0, bytes: vstd::slice::slice_to_vec(&MAGIC) },
            ),
            OpenStage::Scan { offset } => Some(FlashRequest::Read { offset, len: CHUNK }),
            OpenStage::Seek { offset, .. } => Some(
                FlashRequest::Read { offset: offset - RECORD, len: 2 * RECORD },
            ),
            OpenStage::Ready { .. } => None,
            OpenStage::Failed => None,
        }
    }

    /// Goes on with the flash driver's reply to [`Opening::request`].
    pub fn resume(&mut self, reply: &FlashReply)
        requires
            old(self).wf(),
        ensures
            final(self).wf(),
            *final(self) == old(self).served(reply@),
            final(self).size == old(self).size,
            final(self).boot_count == old(self).boot_count,
    {
        let stage = match (self.stage, reply) {
            (OpenStage::ReadHeader, FlashReply::Bytes(bytes)) if bytes.len() == 8 => {
                if same_bytes(bytes.as_slice(), &MAGIC) {
                    Self::scan_from(self.size, HEADER_SIZE)
                } else {
                    OpenStage::EraseAll
                }
            },
            (OpenStage::EraseAll, FlashReply::Done) => OpenStage::StampHeader,
            (OpenStage::StampHeader, FlashReply::Done) => Self::scan_from(self.size, HEADER_SIZE),
            (OpenStage::Scan { offset }, FlashReply::Bytes(bytes)) if bytes.len()
                == CHUNK as usize => {
                Self::scan_chunk(self.size, offset, bytes.as_slice())
            },
            (OpenStage::Seek { offset, walk }, FlashReply::Bytes(bytes)) if bytes.len()
                == 2 * RECORD as usize => {
                let prior = Record::decode(bytes.as_slice(), 0);
                let here = Record::decode(bytes.as_slice(), RECORD as usize);
                Self::seek_sector(self.size, offset, walk, prior, here)
            },
            (OpenStage::Ready { .. }, _) => self.stage,
            _ => OpenStage::Failed,
        };
        self.stage = stage;
    }

    /// The open log, once its write position is known.
    pub fn finish(&self) -> (log: Option<LogPartition>)
        requires
            self.wf(),
        ensures
            log == self.opened(),
            log matches Some(l) ==> l.wf(),
            match self.stage {
                OpenStage::Ready { write_pos } => log == Some(
                    LogPartition {
                        size: self.size,
                        write_pos,
                        boot_count: self.boot_count,
                        pending: Pending::Idle,
                    },
                ),
                _ => log is None,
            },
    {
        match self.stage {
            OpenStage::Ready { write_pos } => Some(
                LogPartition {
                    size: self.size,
                    write_pos,
                    boot_count: self.boot_count,
                    pending: Pending::Idle,
                },
            ),
            _ => None,
        }
    }

    /// The log that this opening leads to, if it is done.
    pub open spec fn opened(self) -> Option<LogPartition> {
        match self.stage {
            OpenStage::Ready { write_pos } => Some(
                LogPartition {
                    size: self.size,
                    write_pos,
                    boot_count: self.boot_count,
                    pending: Pending::Idle,
                },
            ),
            _ => None,
        }
    }
}

/// A first blank record is found.
proof fn blank_is_found(s: Seq<u8>, from: int, to: int, rec: int)
    requires
        from <= rec,
        rec + 8 <= to,
        from % 8 == 0,
        rec % 8 == 0,
        blank_at(s, rec),
        forall|q: int| #![trigger blank_at(s, q)] from <= q < rec && q % 8 == 0 ==> !blank_at(s, q),
    ensures
        first_blank(s, from, to) == Some(rec),
    decreases rec - from,
{
    if from < rec {
        assert(!blank_at(s, from));
        blank_is_found(s, from + 8, to, rec);
    }
}

/// Without a blank record none is found.
proof fn no_blank_is_found(s: Seq<u8>, from: int, to: int)
    requires
        from % 8 == 0,
        forall|q: int|
            #![trigger blank_at(s, q)]
            from <= q && q + 8 <= to && q % 8 == 0 ==> !blank_at(s, q),
    ensures
        first_blank(s, from, to) is None,
    decreases to - from,
{
    if from + 8 <= to {
        assert(!blank_at(s, from));
        no_blank_is_found(s, from + 8, to);
    }
}

/// Whether a log is there is told by its first eight bytes, `C2LOG`, 1, 0, 0:
/// with them the scan begins at offset 4096, with any others the whole
/// partition is erased, the eight bytes are written, and the scan begins then.
/// An answer that does not fit fails the opening.
pub proof fn opening_reads_the_magic(o: Opening, bytes: Seq<u8>)
    requires
        4096 < o.size,
        bytes.len() == 8,
    ensures
        ({
            let magic = seq![0x43u8, 0x32, 0x4C, 0x4F, 0x47, 0x01, 0x00, 0x00];
            let read = Opening { stage: OpenStage::ReadHeader, ..o };
            let erase = Opening { stage: OpenStage::EraseAll, ..o };
            let stamp = Opening { stage: OpenStage::StampHeader, ..o };
            let scan = Opening { stage: OpenStage::Scan { offset: 4096 }, ..o };
            let failed = Opening { stage: OpenStage::Failed, ..o };
            &&& read.op() == Some(FlashOp::Read { offset: 0, len: 8 })
            &&& read.served(FlashAnswer::Bytes(bytes)) == if bytes == magic {
                scan
            } else {
                erase
            }
            &&& erase.op() == Some(FlashOp::Erase { offset: 0, len: o.size as int })
            &&& erase.served(FlashAnswer::Done) == stamp
            &&& stamp.op() == Some(FlashOp::Write { offset: 0, bytes: magic })
            &&& stamp.served(FlashAnswer::Done) == scan
            &&& scan.op() == Some(FlashOp::Read { offset: 4096, len: 256 })
            &&& read.served(FlashAnswer::Failed) == failed && erase.served(FlashAnswer::Failed)
                == failed && stamp.served(FlashAnswer::Failed) == failed && scan.served(
                FlashAnswer::Failed,
            ) == failed
            &&& failed.op() is None && failed.opened() is None
        }),
{
    assert(MAGIC@ =~= seq![0x43u8, 0x32, 0x4C, 0x4F, 0x47, 0x01, 0x00, 0x00]);
}

/// Any answer that a stage does not wait for fails the opening, an opening
/// that is over stays as it is, and no answer changes the partition's size or
/// the boot count. A partition with no room for a record is open at once.
pub proof fn unfit_answers_fail_the_opening(o: Opening, a: FlashAnswer)
    ensures
        o.served(a).size == o.size && o.served(a).boot_count == o.boot_count,
        o.stage is Ready || o.stage is Failed ==> o.served(a) == o && o.op() is None,
        o.stage is ReadHeader && !(a matches FlashAnswer::Bytes(b) && b.len() == 8) ==> o.served(
            a,
        ).stage is Failed,
        (o.stage is EraseAll || o.stage is StampHeader) && !(a is Done) ==> o.served(
            a,
        ).stage is Failed,
        o.stage is Scan && !(a matches FlashAnswer::Bytes(b) && b.len() == 256) ==> o.served(
            a,
        ).stage is Failed,
        o.stage is Seek && !(a matches FlashAnswer::Bytes(b) && b.len() == 16) ==> o.served(
            a,
        ).stage is Failed,
        o.size <= 4096 && o.stage is StampHeader && a is Done ==> o.served(a).stage
            == (OpenStage::Ready { write_pos: 4096 }),
        o.opened() is Some <==> o.stage is Ready,
{
}

/// The scan stops at the first record of a chunk whose eight bytes are all
/// 0xFF: the next record goes there.
pub proof fn scan_stops_at_a_blank_record(o: Opening, offset: u32, chunk: Seq<u8>, rec: int)
    requires
        chunk.len() == 256,
        offset <= 0xFFFF_FF00,
        0 <= rec <= 248,
        rec % 8 == 0,
        chunk[rec] == 0xFF && chunk[rec + 1] == 0xFF && chunk[rec + 2] == 0xFF && chunk[rec + 3]
            == 0xFF && chunk[rec + 4] == 0xFF && chunk[rec + 5] == 0xFF && chunk[rec + 6]
            == 0xFF && chunk[rec + 7] == 0xFF,
        forall|q: int|
            #![trigger chunk[q]]
            0 <= q < rec && q % 8 == 0 ==> (chunk[q] != 0xFF || chunk[q + 1] != 0xFF
                || chunk[q + 2] != 0xFF || chunk[q + 3] != 0xFF || chunk[q + 4] != 0xFF
                || chunk[q + 5] != 0xFF || chunk[q + 6] != 0xFF || chunk[q + 7] != 0xFF),
    ensures
        ({
            let scan = Opening { stage: OpenStage::Scan { offset }, ..o };
            let next = scan.served(FlashAnswer::Bytes(chunk));
            &&& next.stage matches OpenStage::Ready { write_pos }
            &&& write_pos == offset + rec
            &&& next.opened() == Some(
                LogPartition {
                    size: o.size,
                    write_pos,
                    boot_count: o.boot_count,
                    pending: Pending::Idle,
                },
            )
        }),
{
    slot_layout(chunk, rec);
    assert forall|q: int| #![trigger blank_at(chunk, q)] 0 <= q < rec && q % 8
        == 0 implies !blank_at(chunk, q) by {
        slot_layout(chunk, q);
    }
    blank_is_found(chunk, 0, 256, rec);
}

/// Where no record of a chunk is blank the scan goes on with the next chunk,
/// up to the end of the partition; then the search for the oldest sector
/// begins with the first one.
pub proof fn scan_goes_on(o: Opening, offset: u32, chunk: Seq<u8>)
    requires
        4096 < o.size,
        chunk.len() == 256,
        offset <= 0xFFFF_FE00,
        forall|q: int|
            #![trigger chunk[q]]
            0 <= q < 256 && q % 8 == 0 ==> (chunk[q] != 0xFF || chunk[q + 1] != 0xFF
                || chunk[q + 2] != 0xFF || chunk[q + 3] != 0xFF || chunk[q + 4] != 0xFF
                || chunk[q + 5] != 0xFF || chunk[q + 6] != 0xFF || chunk[q + 7] != 0xFF),
    ensures
        ({
            let scan = Opening { stage: OpenStage::Scan { offset }, ..o };
            let next = scan.served(FlashAnswer::Bytes(chunk)).stage;
            &&& offset + 256 < o.size ==> next == (OpenStage::Scan {
                offset: (offset + 256) as u32,
            })
            &&& offset + 256 >= o.size ==> next == (OpenStage::Seek { offset: 4096, walk: None })
        }),
{
    assert forall|q: int|
        #![trigger blank_at(chunk, q)]
        0 <= q && q + 8 <= 256 && q % 8 == 0 implies !blank_at(chunk, q) by {
        slot_layout(chunk, q);
    }
    no_blank_is_found(chunk, 0, 256);
}

/// How the search for the oldest sector goes on, from the first record of a
/// sector and the record right before it. It remembers the sector if that
/// record is not later than the one that the sector before starts with, both
/// of them of known sessions or of the same one, unless it is later than the
/// record right before it. A second such sector ends the search at offset
/// 4096. At the last sector the ring goes on at the remembered one, or at 4096
/// if there is none or the first sector of all is not later than the last.
pub proof fn seek_goes_on(o: Opening, offset: u32, walk: Option<Walk>, bytes: Seq<u8>)
    requires
        4096 <= offset < o.size,
        o.size <= 0xFFFF_FF00,
        bytes.len() == 16,
    ensures
        ({
            let seek = Opening { stage: OpenStage::Seek { offset, walk }, ..o };
            let next = seek.served(FlashAnswer::Bytes(bytes)).stage;
            let prior = record_at(bytes, 0);
            let here = record_at(bytes, 8);
            let earlier = |a: Record, b: Record|
                if a.boot_count == b.boot_count {
                    a.uptime_s < b.uptime_s
                } else {
                    0 < a.boot_count < b.boot_count
                };
            let no_later = |b: Record, a: Record|
                if a.boot_count == b.boot_count {
                    b.uptime_s <= a.uptime_s
                } else {
                    0 < b.boot_count < a.boot_count
                };
            let first = if walk is None {
                here
            } else {
                walk.unwrap().first
            };
            let remembered = if walk is None {
                None
            } else {
                walk.unwrap().turn
            };
            let breaks = walk is Some && no_later(here, walk.unwrap().before) && !earlier(
                prior,
                here,
            );
            let turn = if breaks {
                Some(offset)
            } else {
                remembered
            };
            &&& seek.op() == Some(FlashOp::Read { offset: offset - 8, len: 16 })
            &&& breaks && remembered is Some ==> next == (OpenStage::Ready { write_pos: 4096 })
            &&& !(breaks && remembered is Some) && offset + 4096 < o.size ==> next
                == (OpenStage::Seek {
                offset: (offset + 4096) as u32,
                walk: Some(Walk { first, before: here, turn }),
            })
            &&& !(breaks && remembered is Some) && offset + 4096 >= o.size ==> next
                == (OpenStage::Ready {
                write_pos: if turn is Some && !no_later(first, here) {
                    turn.unwrap()
                } else {
                    4096
                },
            })
        }),
{
}

/// Whether two byte strings are the same.
fn same_bytes(a: &[u8], b: &[u8]) -> (same: bool)
    ensures
        same == (a@ == b@),
{
    if a.len() != b.len() {
        return false;
    }
    let mut i: usize = 0;
    while i < a.len()
        invariant
            i <= a@.len(),
            a@.len() == b@.len(),
            forall|k: int| 0 <= k < i ==> a@[k] == b@[k],
        decreases a@.len() - i,
    {
        if a[i] != b[i] {
            return false;
        }
        i += 1;
    }
    assert(a@ =~= b@);
    true
}

/// What an append still has to do.
#[derive(Clone, Copy, Debug, PartialEq, Eq, Structural)]
pub enum Pending {
    Idle,
    /// The sector at the write position is being erased for this record.
    Erase(Record),
    /// This record is being written.
    Write(Record),
}

/// An open log.
#[derive(Clone, Copy, Debug, PartialEq, Eq, Structural)]
pub struct LogPartition {
    pub size: u32,
    /// Byte offset (within the partition) of the next record to write.
    pub write_pos: u32,
    pub boot_count: u16,
    pub pending: Pending,
}

/// The flash driver reported an error; the record was not stored.
#[derive(Clone, Copy, Debug, PartialEq, Eq, Structural)]
pub struct AppendFailed;

impl LogPartition {
    /// What every log keeps: it writes on record boundaries, and a pending
    /// record goes inside the partition or to the first sector of the ring.
    pub open spec fn wf(self) -> bool {
        &&& self.size <= MAX_PARTITION
        &&& HEADER_SIZE <= self.write_pos <= MAX_PARTITION
        &&& record_start(self.write_pos as int)
        &&& self.pending != Pending::Idle ==> self.write_pos < self.size || self.write_pos
            == HEADER_SIZE
    }

    /// Where the next record goes: the write position, or the start of the
    /// ring when the end of the partition is reached.
    pub open spec fn next_pos(self) -> u32 {
        if self.write_pos >= self.size {
            HEADER_SIZE
        } else {
            self.write_pos
        }
    }

    /// This log with a record to append. A new sector is erased first.
    pub open spec fn appending(self, uptime_s: u32, ppm: u16) -> LogPartition {
        let record = Record { boot_count: self.boot_count, uptime_s, ppm };
        LogPartition {
            write_pos: self.next_pos(),
            pending: if sector_start(self.next_pos() as int) {
                Pending::Erase(record)
            } else {
                Pending::Write(record)
            },
            ..self
        }
    }

    /// The flash operation this log waits for.
    pub open spec fn op(self) -> Option<FlashOp> {
        match self.pending {
            Pending::Idle => None,
            Pending::Erase(_) => Some(
                FlashOp::Erase { offset: self.write_pos as int, len: SECTOR as int },
            ),
            Pending::Write(record) => Some(
                FlashOp::Write { offset: self.write_pos as int, bytes: encoded(record) },
            ),
        }
    }

    /// This log once the flash has answered `a`. Only a record that was
    /// written moves the write position.
    pub open spec fn served(self, a: FlashAnswer) -> LogPartition {
        match (self.pending, a) {
            (Pending::Erase(record), FlashAnswer::Done) => LogPartition {
                pending: Pending::Write(record),
                ..self
            },
            (Pending::Write(_), FlashAnswer::Done) => LogPartition {
                write_pos: (self.write_pos + RECORD) as u32,
                pending: Pending::Idle,
                ..self
            },
            _ => LogPartition { pending: Pending::Idle, ..self },
        }
    }

    /// Starts to open the log in a partition of `size` bytes, or fails if the
    /// partition table has none.
    pub fn open(size: Option<u32>, boot_count: u16) -> (opening: Result<Opening, PartitionNotFound>)
        requires
            size matches Some(bytes) ==> bytes <= MAX_PARTITION,
        ensures
            match size {
                Some(bytes) => opening == Ok::<Opening, PartitionNotFound>(
                    (Opening { size: bytes, boot_count, stage: OpenStage::ReadHeader }),
                ),
                None => opening == Err::<Opening, PartitionNotFound>(PartitionNotFound),
            },
            opening matches Ok(o) ==> o.wf(),
    {
        match size {
            Some(bytes) => Ok(Opening { size: bytes, boot_count, stage: OpenStage::ReadHeader }),
            None => Err(PartitionNotFound),
        }
    }

    /// Starts to append one record, erasing ahead and wrapping as needed. An
    /// append that was still pending is given up.
    pub fn append(&mut self, uptime_s: u32, ppm: u16)
        requires
            old(self).wf(),
        ensures
            final(self).wf(),
            *final(self) == old(self).appending(uptime_s, ppm),
            final(self).size == old(self).size,
            final(self).boot_count == old(self).boot_count,
            final(self).write_pos == if old(self).write_pos < old(self).size {
                old(self).write_pos as int
            } else {
                4096
            },
            match final(self).pending {
                Pending::Idle => false,
                Pending::Erase(r) => {
                    &&& final(self).write_pos % 4096 == 0
                    &&& r.boot_count == old(self).boot_count && r.uptime_s == uptime_s && r.ppm
                        == ppm
                },
                Pending::Write(r) => {
                    &&& final(self).write_pos % 4096 != 0
                    &&& r.boot_count == old(self).boot_count && r.uptime_s == uptime_s && r.ppm
                        == ppm
                },
            },
    {
        if self.write_pos >= self.size {
            self.write_pos = HEADER_SIZE;
        }
        let record = Record { boot_count: self.boot_count, uptime_s, ppm };
        self.pending = if starts_sector(self.write_pos) {
            Pending::Erase(record)
        } else {
            Pending::Write(record)
        };
    }

    /// The request whose reply a pending append waits for.
    pub fn request(&self) -> (request: Option<FlashRequest>)
        ensures
            requested(request) == self.op(),
            match self.pending {
                Pending::Idle => request is None,
                Pending::Erase(_) => request matches Some(FlashRequest::Erase { offset, len })
                    && offset == self.write_pos && len == 4096,
                Pending::Write(r) => request matches Some(FlashRequest::Write { offset, bytes })
                    && {
                    &&& offset == self.write_pos
                    &&& bytes@.len() == 8
                    &&& bytes@[0] + 256 * bytes@[1] == r.boot_count
                    &&& bytes@[2] + 256 * bytes@[3] + 65536 * bytes@[4] + 16777216 * bytes@[5]
                        == r.uptime_s
                    &&& bytes@[6] + 256 * bytes@[7] == r.ppm
                },
            },
    {
        match self.pending {
            Pending::Idle => None,
            Pending::Erase(_) => Some(FlashRequest::Erase { offset: self.write_pos, len: SECTOR }),
            Pending::Write(record) => {
                let bytes = record.encode();
                Some(
                    FlashRequest::Write {
                        offset: self.write_pos,
                        bytes: vstd::slice::slice_to_vec(&bytes),
                    },
                )
            },
        }
    }

    /// Goes on with the flash driver's reply to [`LogPartition::request`].
    /// An append fails on the first reply that is not a success.
    pub fn resume(&mut self, reply: &FlashReply) -> (progress: Result<(), AppendFailed>)
        requires
            old(self).wf(),
        ensures
            final(self).wf(),
            *final(self) == old(self).served(reply@),
            progress is Err <==> old(self).pending != Pending::Idle && reply@ != FlashAnswer::Done,
            final(self).size == old(self).size,
            final(self).boot_count == old(self).boot_count,
            final(self).write_pos == old(self).write_pos + if reply is Done && old(self).pending
                is Write {
                8int
            } else {
                0
            },
            match old(self).pending {
                Pending::Erase(r) => final(self).pending == if reply is Done {
                    Pending::Write(r)
                } else {
                    Pending::Idle
                },
                _ => final(self).pending == Pending::Idle,
            },
    {
        match (self.pending, reply) {
            (Pending::Idle, _) => Ok(()),
            (Pending::Erase(record), FlashReply::Done) => {
                self.pending = Pending::Write(record);
                Ok(())
            },
            (Pending::Write(_), FlashReply::Done) => {
                self.write_pos = self.write_pos + RECORD;
                self.pending = Pending::Idle;
                Ok(())
            },
            _ => {
                self.pending = Pending::Idle;
                Err(AppendFailed)
            },
        }
    }

    /// Number of record slots before the write position.
    pub fn stored_records(&self) -> (n: u32)
        requires
            self.wf(),
        ensures
            n == (self.write_pos - HEADER_SIZE) / 8,
            4096 + 8 * n == self.write_pos,
    {
        (self.write_pos - HEADER_SIZE) / 8
    }
}

/// How far the boot counter has come. It lives in non-volatile storage, so
/// that it survives power loss, and tells the log's sessions apart.
#[derive(Clone, Copy, Debug, PartialEq, Eq, Structural)]
pub enum BootCounter {
    /// The stored count is being read.
    Read,
    /// This count is being stored.
    Store(u16),
    /// The count of this session.
    Ready(u16),
}

/// An operation on the stored boot count.
#[derive(Clone, Copy, Debug, PartialEq, Eq, Structural)]
pub enum NvsRequest {
    Load,
    Save(u16),
}

/// How the storage answered.
#[derive(Clone, Copy, Debug, PartialEq, Eq, Structural)]
pub enum NvsReply {
    /// The stored count, if there is one.
    Value(Option<u16>),
    Stored,
    /// The storage reported an error.
    Unavailable,
}

/// The count that follows `stored`. It starts at 1 and wraps around to 0.
pub open spec fn incremented(stored: Option<u16>) -> u16 {
    match stored {
        Some(count) => if count == 0xFFFF {
            0
        } else {
            (count + 1) as u16
        },
        None => 1,
    }
}

/// Starts to read and increment the boot counter.
pub fn next_boot_count() -> (counter: BootCounter)
    ensures
        counter == BootCounter::Read,
{
    BootCounter::Read
}

impl BootCounter {
    /// The storage operation this counter waits for.
    pub open spec fn op(self) -> Option<NvsRequest> {
        match self {
            BootCounter::Read => Some(NvsRequest::Load),
            BootCounter::Store(count) => Some(NvsRequest::Save(count)),
            BootCounter::Ready(_) => None,
        }
    }

    /// This counter once the storage has answered `reply`. On any error the
    /// session counts as 0.
    pub open spec fn served(self, reply: NvsReply) -> BootCounter {
        match (self, reply) {
            (BootCounter::Ready(_), _) => self,
            (BootCounter::Read, NvsReply::Value(stored)) => BootCounter::Store(incremented(stored)),
            (BootCounter::Store(count), NvsReply::Stored) => BootCounter::Ready(count),
            _ => BootCounter::Ready(0),
        }
    }

    /// The request whose reply this counter waits for, if it is not done.
    pub fn request(&self) -> (request: Option<NvsRequest>)
        ensures
            request == self.op(),
            match *self {
                BootCounter::Read => request == Some(NvsRequest::Load),
                BootCounter::Store(count) => request == Some(NvsRequest::Save(count)),
                BootCounter::Ready(_) => request is None,
            },
    {
        match *self {
            BootCounter::Read => Some(NvsRequest::Load),
            BootCounter::Store(count) => Some(NvsRequest::Save(count)),
            BootCounter::Ready(_) => None,
        }
    }

    /// Goes on with the storage's reply to [`BootCounter::request`].
    pub fn resume(&mut self, reply: NvsReply)
        ensures
            *final(self) == old(self).served(reply),
            match (*old(self), reply) {
                (BootCounter::Ready(_), _) => *final(self) == *old(self),
                (BootCounter::Read, NvsReply::Value(Some(count))) => {
                    &&& *final(self) matches BootCounter::Store(next)
                    &&& next == (count + 1) % 65536
                },
                (BootCounter::Read, NvsReply::Value(None)) => *final(self)
                    == BootCounter::Store(1),
                (BootCounter::Store(count), NvsReply::Stored) => *final(self)
                    == BootCounter::Ready(count),
                _ => *final(self) == BootCounter::Ready(0),
            },
    {
        let next = match (*self, reply) {
            (BootCounter::Ready(count), _) => BootCounter::Ready(count),
            (BootCounter::Read, NvsReply::Value(stored)) => {
                let count: u16 = match stored {
                    Some(count) => count,
                    None => 0,
                };
                BootCounter::Store(count.wrapping_add(1))
            },
            (BootCounter::Store(count), NvsReply::Stored) => BootCounter::Ready(count),
            _ => BootCounter::Ready(0),
        };
        *self = next;
    }
}

/// How a working storage that holds `stored` answers `request`.
pub open spec fn nvs_answer(stored: Option<u16>, request: NvsRequest) -> NvsReply {
    match request {
        NvsRequest::Load => NvsReply::Value(stored),
        NvsRequest::Save(_) => NvsReply::Stored,
    }
}

/// What a working storage holds after `request`.
pub open spec fn nvs_after(stored: Option<u16>, request: NvsRequest) -> Option<u16> {
    match request {
        NvsRequest::Load => stored,
        NvsRequest::Save(count) => Some(count),
    }
}

/// The counter and the storage once every request has been answered.
pub open spec fn counted(counter: BootCounter, stored: Option<u16>) -> (BootCounter, Option<u16>)
    decreases (
        if counter is Read {
            2int
        } else if counter is Store {
            1
        } else {
            0
        }),
{
    match counter.op() {
        None => (counter, stored),
        Some(request) => counted(
            counter.served(nvs_answer(stored, request)),
            nvs_after(stored, request),
        ),
    }
}

/// The boot counter increments every boot: a session gets the count after the
/// stored one, which is then what is stored, and the next session gets the
/// count after that.
pub proof fn boot_counter_increments(stored: Option<u16>)
    ensures
        counted(BootCounter::Read, stored) == (
            BootCounter::Ready(incremented(stored)),
            Some(incremented(stored)),
        ),
        counted(BootCounter::Read, Some(incremented(stored))).0 == BootCounter::Ready(
            incremented(Some(incremented(stored))),
        ),
        incremented(Some(incremented(stored))) != incremented(stored),
{
    reveal_with_fuel(counted, 3);
}

/// The count of a session on a working storage is one more than the stored
/// one, from 65535 on to 0, and 1 if none was stored. It is what is stored
/// afterwards, so that the sessions count up one by one.
pub proof fn sessions_are_counted(count: u16)
    ensures
        ({
            let (counter, stored) = counted(BootCounter::Read, Some(count));
            &&& counter matches BootCounter::Ready(session)
            &&& session == (count + 1) % 65536
            &&& stored == Some(session)
        }),
        counted(BootCounter::Read, None) == (BootCounter::Ready(1), Some(1u16)),
{
    reveal_with_fuel(counted, 3);
}

/// The requests of an append: an erase at the start of a sector, then a write.
proof fn append_is_pending(log: LogPartition, uptime_s: u32, ppm: u16)
    ensures
        ({
            let r = Record { boot_count: log.boot_count, uptime_s, ppm };
            let at = log.next_pos();
            let begun = log.appending(uptime_s, ppm);
            let write = Some(FlashOp::Write { offset: at as int, bytes: encoded(r) });
            &&& begun.write_pos == at
            &&& at % 4096 == 0 ==> {
                &&& begun.op() == Some(FlashOp::Erase { offset: at as int, len: 4096 })
                &&& begun.served(FlashAnswer::Done) == (LogPartition {
                    pending: Pending::Write(r),
                    ..begun
                })
                &&& begun.served(FlashAnswer::Done).op() == write
            }
            &&& at % 4096 != 0 ==> begun.pending == Pending::Write(r) && begun.op() == write
        }),
{
}

/// Where a record goes and what is written there: the write position or, at
/// the end of the partition, offset 4096. A sector of 4096 bytes is erased
/// first if the record is the first in it, and then eight bytes are written,
/// the numbers of the record with their least significant bytes first. The
/// next record goes eight bytes further.
pub proof fn append_writes_the_record(log: LogPartition, uptime_s: u32, ppm: u16)
    requires
        log.write_pos <= u32::MAX - 8,
        log.size <= u32::MAX - 8,
    ensures
        ({
            let at: int = if log.write_pos < log.size {
                log.write_pos as int
            } else {
                4096
            };
            let begun = log.appending(uptime_s, ppm);
            let ready = if at % 4096 == 0 {
                begun.served(FlashAnswer::Done)
            } else {
                begun
            };
            let done = ready.served(FlashAnswer::Done);
            &&& at % 4096 == 0 ==> begun.op() == Some(FlashOp::Erase { offset: at, len: 4096 })
            &&& ready.op() matches Some(FlashOp::Write { offset, bytes })
            &&& offset == at
            &&& bytes.len() == 8
            &&& bytes[0] + 256 * bytes[1] == log.boot_count
            &&& bytes[2] + 256 * bytes[3] + 65536 * bytes[4] + 16777216 * bytes[5] == uptime_s
            &&& bytes[6] + 256 * bytes[7] == ppm
            &&& done.op() is None
            &&& done.write_pos == at + 8
            &&& done.size == log.size && done.boot_count == log.boot_count
        }),
{
    record_layout(Record { boot_count: log.boot_count, uptime_s, ppm });
    append_is_pending(log, uptime_s, ppm);
}

/// An append that the flash fails, at either request, is over and leaves the
/// next record its place.
pub proof fn failed_append_keeps_the_place(
    log: LogPartition,
    uptime_s: u32,
    ppm: u16,
    error: FlashAnswer,
)
    requires
        error != FlashAnswer::Done,
        HEADER_SIZE < log.size,
    ensures
        ({
            let begun = log.appending(uptime_s, ppm);
            let at: int = if log.write_pos < log.size {
                log.write_pos as int
            } else {
                4096
            };
            &&& begun.served(error).op() is None && begun.served(error).write_pos == at
            &&& at % 4096 == 0 ==> {
                let ready = begun.served(FlashAnswer::Done);
                ready.served(error).op() is None && ready.served(error).write_pos == at
            }
        }),
{
}

/// The logger thread: opens the log, then stores one record per minute,
/// forever. Logging is a bonus feature: if the log cannot be opened, the
/// logger stops and the sensor goes on without it.
#[derive(Clone, Copy, Debug, PartialEq, Eq, Structural)]
pub enum LoggerTask {
    Opening(Opening),
    /// Asleep until the next record is due.
    Waiting(LogPartition),
    /// A record is being stored.
    Appending(LogPartition),
    Disabled,
}

/// What the logger thread has to do next.
#[derive(Debug)]
pub enum LoggerAction {
    /// Hand this request to the flash driver, and its reply to
    /// [`LoggerTask::on_flash`].
    Flash(FlashRequest),
    /// Sleep, then call [`LoggerTask::on_wake`].
    Sleep { seconds: u64 },
    Stop,
}

/// A record was due and could not be stored.
#[derive(Clone, Copy, Debug, PartialEq, Eq, Structural)]
pub struct WriteFailed;

/// Starts the logger of session `boot_count` on a partition of `size` bytes,
/// if the partition table has one.
pub fn logger_task(size: Option<u32>, boot_count: u16) -> (task: LoggerTask)
    requires
        size matches Some(bytes) ==> bytes <= MAX_PARTITION,
    ensures
        task.wf(),
        task == match size {
            Some(bytes) => LoggerTask::Opening(
                Opening { size: bytes, boot_count, stage: OpenStage::ReadHeader },
            ),
            None => LoggerTask::Disabled,
        },
{
    match LogPartition::open(size, boot_count) {
        Ok(opening) => LoggerTask::Opening(opening),
        Err(_) => LoggerTask::Disabled,
    }
}

impl LoggerTask {
    /// What every logger keeps: an opening that is still under way, a log
    /// that is idle while the logger sleeps and busy while it stores.
    pub open spec fn wf(self) -> bool {
        match self {
            LoggerTask::Opening(opening) => opening.wf() && opening.op() is Some,
            LoggerTask::Waiting(log) => log.wf() && log.pending == Pending::Idle,
            LoggerTask::Appending(log) => log.wf() && log.pending != Pending::Idle,
            LoggerTask::Disabled => true,
        }
    }

    /// The flash operation the logger waits for.
    pub open spec fn op(self) -> Option<FlashOp> {
        match self {
            LoggerTask::Opening(opening) => opening.op(),
            LoggerTask::Appending(log) => log.op(),
            _ => None,
        }
    }

    /// The logger once the flash has answered `a`. Opening ends in the sleep
    /// before the first record, or for good; storing ends in the sleep before
    /// the next record, whether it worked or not.
    pub open spec fn served(self, a: FlashAnswer) -> LoggerTask {
        match self {
            LoggerTask::Opening(opening) => {
                let next = opening.served(a);
                match next.opened() {
                    Some(log) => LoggerTask::Waiting(log),
                    None => if next.op() is None {
                        LoggerTask::Disabled
                    } else {
                        LoggerTask::Opening(next)
                    },
                }
            },
            LoggerTask::Appending(log) => {
                let next = log.served(a);
                if next.pending == Pending::Idle {
                    LoggerTask::Waiting(next)
                } else {
                    LoggerTask::Appending(next)
                }
            },
            _ => self,
        }
    }

    /// The logger after a sleep, with the latest CO2 reading (0 while there
    /// has been none, in which case nothing is stored) and the seconds since
    /// this boot.
    pub open spec fn woken(self, last_ppm: u32, uptime_s: u64) -> LoggerTask {
        match self {
            LoggerTask::Waiting(log) if last_ppm != 0 => LoggerTask::Appending(
                log.appending((uptime_s % 0x1_0000_0000) as u32, (last_ppm % 0x1_0000) as u16),
            ),
            _ => self,
        }
    }

    /// What the logger thread has to do next.
    pub fn action(&self) -> (action: LoggerAction)
        requires
            self.wf(),
        ensures
            match action {
                LoggerAction::Flash(request) => self.op() == Some(request@),
                LoggerAction::Sleep { seconds } => self is Waiting && seconds == LOG_INTERVAL_S,
                LoggerAction::Stop => self is Disabled,
            },
            self is Waiting ==> (action matches LoggerAction::Sleep { seconds } && seconds == 60),
            self matches LoggerTask::Appending(log) ==> match log.pending {
                Pending::Idle => true,
                Pending::Erase(_) => action matches LoggerAction::Flash(
                    FlashRequest::Erase { offset, len },
                ) && offset == log.write_pos && len == 4096,
                Pending::Write(r) => action matches LoggerAction::Flash(
                    FlashRequest::Write { offset, bytes },
                ) && {
                    &&& offset == log.write_pos
                    &&& bytes@.len() == 8
                    &&& bytes@[0] + 256 * bytes@[1] == r.boot_count
                    &&& bytes@[2] + 256 * bytes@[3] + 65536 * bytes@[4] + 16777216 * bytes@[5]
                        == r.uptime_s
                    &&& bytes@[6] + 256 * bytes@[7] == r.ppm
                },
            },
    {
        match self {
            LoggerTask::Opening(opening) => match opening.request() {
                Some(request) => LoggerAction::Flash(request),
                None => LoggerAction::Stop,
            },
            LoggerTask::Waiting(_) => LoggerAction::Sleep { seconds: LOG_INTERVAL_S },
            LoggerTask::Appending(log) => match log.request() {
                Some(request) => LoggerAction::Flash(request),
                None => LoggerAction::Stop,
            },
            LoggerTask::Disabled => LoggerAction::Stop,
        }
    }

    /// Goes on with the flash driver's reply.
    pub fn on_flash(&mut self, reply: &FlashReply) -> (stored: Result<(), WriteFailed>)
        requires
            old(self).wf(),
        ensures
            final(self).wf(),
            *final(self) == old(self).served(reply@),
            stored is Err <==> *old(self) is Appending && reply@ != FlashAnswer::Done,
            *old(self) is Waiting || *old(self) is Disabled ==> *final(self) == *old(self),
            *old(self) matches LoggerTask::Opening(opening) ==> match opening.stage_after(reply@) {
                OpenStage::Ready { write_pos } => *final(self) == LoggerTask::Waiting(
                    LogPartition {
                        size: opening.size,
                        write_pos,
                        boot_count: opening.boot_count,
                        pending: Pending::Idle,
                    },
                ),
                OpenStage::Failed => *final(self) == LoggerTask::Disabled,
                stage => *final(self) == LoggerTask::Opening(Opening { stage, ..opening }),
            },
            *old(self) matches LoggerTask::Appending(log) ==> match log.pending {
                Pending::Erase(r) if reply is Done => *final(self) == LoggerTask::Appending(
                    LogPartition { pending: Pending::Write(r), ..log },
                ),
                Pending::Write(_) if reply is Done => *final(self) matches LoggerTask::Waiting(next)
                    && next == (LogPartition {
                    write_pos: next.write_pos,
                    pending: Pending::Idle,
                    ..log
                }) && next.write_pos == log.write_pos + 8,
                _ => *final(self) == LoggerTask::Waiting(
                    LogPartition { pending: Pending::Idle, ..log },
                ),
            },
    {
        match *self {
            LoggerTask::Opening(opening) => {
                let mut next = opening;
                next.resume(reply);
                *self = match next.finish() {
                    Some(log) => LoggerTask::Waiting(log),
                    None => match next.stage {
                        OpenStage::Failed => LoggerTask::Disabled,
                        _ => LoggerTask::Opening(next),
                    },
                };
                Ok(())
            },
            LoggerTask::Appending(log) => {
                let mut next = log;
                let progress = next.resume(reply);
                *self = match next.pending {
                    Pending::Idle => LoggerTask::Waiting(next),
                    _ => LoggerTask::Appending(next),
                };
                match progress {
                    Ok(()) => Ok(()),
                    Err(_) => Err(WriteFailed),
                }
            },
            _ => Ok(()),
        }
    }

    /// Goes on after a sleep.
    pub fn on_wake(&mut self, last_ppm: u32, uptime_s: u64)
        requires
            old(self).wf(),
        ensures
            final(self).wf(),
            *final(self) == old(self).woken(last_ppm, uptime_s),
            last_ppm == 0 || !(*old(self) is Waiting) ==> *final(self) == *old(self),
            last_ppm > 0 ==> (*old(self) matches LoggerTask::Waiting(log) ==> {
                &&& *final(self) matches LoggerTask::Appending(next)
                &&& next.size == log.size && next.boot_count == log.boot_count
                &&& next.write_pos == if log.write_pos < log.size {
                    log.write_pos as int
                } else {
                    4096
                }
                &&& match next.pending {
                    Pending::Idle => false,
                    Pending::Erase(r) => {
                        &&& next.write_pos % 4096 == 0
                        &&& r.boot_count == log.boot_count
                        &&& last_ppm <= 0xFFFF ==> r.ppm == last_ppm
                        &&& uptime_s <= 0xFFFF_FFFF ==> r.uptime_s == uptime_s
                        &&& (last_ppm - r.ppm) % 0x1_0000 == 0
                        &&& (uptime_s - r.uptime_s) % 0x1_0000_0000 == 0
                    },
                    Pending::Write(r) => {
                        &&& next.write_pos % 4096 != 0
                        &&& r.boot_count == log.boot_count
                        &&& last_ppm <= 0xFFFF ==> r.ppm == last_ppm
                        &&& uptime_s <= 0xFFFF_FFFF ==> r.uptime_s == uptime_s
                        &&& (last_ppm - r.ppm) % 0x1_0000 == 0
                        &&& (uptime_s - r.uptime_s) % 0x1_0000_0000 == 0
                    },
                }
            }),
    {
        if last_ppm == 0 {
            return;
        }
        if let LoggerTask::Waiting(log) = *self {
            let mut next = log;
            next.append((uptime_s % 0x1_0000_0000) as u32, (last_ppm % 0x1_0000) as u16);
            *self = LoggerTask::Appending(next);
        }
    }
}

proof fn wake_begins_an_append(log: LogPartition, last_ppm: u32, uptime_s: u64)
    requires
        0 < last_ppm <= 0xFFFF,
        uptime_s <= 0xFFFF_FFFF,
    ensures
        LoggerTask::Waiting(log).woken(last_ppm, uptime_s) == LoggerTask::Appending(
            log.appending(uptime_s as u32, last_ppm as u16),
        ),
{
    assert(uptime_s % 0x1_0000_0000 == uptime_s);
    assert(last_ppm % 0x1_0000 == last_ppm);
}

/// What a sleeping logger stores when it wakes up is what it was told: the
/// record that it writes has its session's boot count, the reading as a number
/// and the seconds as a number, as long as they fit their fields. With no
/// reading it stores nothing.
pub proof fn wake_stores_what_it_is_told(log: LogPartition, last_ppm: u32, uptime_s: u64)
    requires
        0 < last_ppm <= 0xFFFF,
        uptime_s <= 0xFFFF_FFFF,
    ensures
        ({
            let at: int = if log.write_pos < log.size {
                log.write_pos as int
            } else {
                4096
            };
            let woken = LoggerTask::Waiting(log).woken(last_ppm, uptime_s);
            let ready = if at % 4096 == 0 {
                woken.served(FlashAnswer::Done)
            } else {
                woken
            };
            &&& at % 4096 == 0 ==> woken.op() == Some(FlashOp::Erase { offset: at, len: 4096 })
            &&& ready.op() matches Some(FlashOp::Write { offset, bytes })
            &&& offset == at
            &&& bytes.len() == 8
            &&& bytes[0] + 256 * bytes[1] == log.boot_count
            &&& bytes[2] + 256 * bytes[3] + 65536 * bytes[4] + 16777216 * bytes[5] == uptime_s
            &&& bytes[6] + 256 * bytes[7] == last_ppm
        }),
        LoggerTask::Waiting(log).woken(0, uptime_s) == LoggerTask::Waiting(log),
{
    let r = Record { boot_count: log.boot_count, uptime_s: uptime_s as u32, ppm: last_ppm as u16 };
    wake_begins_an_append(log, last_ppm, uptime_s);
    append_is_pending(log, r.uptime_s, r.ppm);
    record_layout(r);
}

/// How the logger follows its log: an opening that is done leads to sleep with
/// the open log, one that failed ends the logger, and a record that was stored
/// or could not be stored leads back to sleep.
pub proof fn logger_follows_its_log(opening: Opening, log: LogPartition, a: FlashAnswer)
    requires
        opening.op() is Some,
        log.op() is Some,
    ensures
        ({
            let next = LoggerTask::Opening(opening).served(a);
            match opening.served(a).stage {
                OpenStage::Ready { write_pos } => next == LoggerTask::Waiting(
                    LogPartition {
                        size: opening.size,
                        write_pos,
                        boot_count: opening.boot_count,
                        pending: Pending::Idle,
                    },
                ),
                OpenStage::Failed => next == LoggerTask::Disabled,
                _ => next == LoggerTask::Opening(opening.served(a)),
            }
        }),
        LoggerTask::Opening(opening).op() == opening.op(),
        LoggerTask::Appending(log).op() == log.op(),
        LoggerTask::Waiting(log).op() is None && LoggerTask::Disabled.op() is None,
        LoggerTask::Waiting(log).served(a) == LoggerTask::Waiting(log),
        LoggerTask::Disabled.served(a) == LoggerTask::Disabled,
        LoggerTask::Appending(log).served(a) == if log.served(a).op() is None {
            LoggerTask::Waiting(log.served(a))
        } else {
            LoggerTask::Appending(log.served(a))
        },
{
}

/// Once the log is open the logger never stops: whatever the flash answers,
/// it is back to sleep after at most two requests, and with no reading yet it
/// just sleeps on.
pub proof fn open_logger_never_stops(
    log: LogPartition,
    last_ppm: u32,
    uptime_s: u64,
    first: FlashAnswer,
    second: FlashAnswer,
)
    requires
        LoggerTask::Waiting(log).wf(),
    ensures
        ({
            let woken = LoggerTask::Waiting(log).woken(last_ppm, uptime_s);
            &&& last_ppm == 0 ==> woken == LoggerTask::Waiting(log)
            &&& last_ppm != 0 ==> woken is Appending
            &&& woken.served(first) is Waiting || woken.served(first) is Appending
            &&& woken.served(first).served(second) is Waiting
        }),
{
}

} // verus!
