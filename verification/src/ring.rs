//! What the log keeps of its history.
//!
//! The specifications in this module relate a log to the contents of the
//! partition it works on. The proofs drive the state machines of
//! [`crate::logger`] with the answers of a working partition.
use crate::flash::{
    after, answer, erased, programmed, programming_erased_flash_is_exact, sector_start, FlashAnswer,
    ERASED, SECTOR,
};
use crate::logger::{LogPartition, Pending, HEADER_SIZE, MAGIC, MAX_PARTITION};
use crate::record::{
    all_ones, blank_at, encoded, record_at, record_start, stored_record_is_not_blank,
    stored_record_reads_back, Record, RECORD, SECTOR_RECORDS,
};
use vstd::prelude::*;

verus! {

/// A partition of whole sectors, with room for the header and at least one
/// sector of records.
pub open spec fn geometry(size: int) -> bool {
    &&& sector_start(size)
    &&& HEADER_SIZE + SECTOR <= size <= MAX_PARTITION
}

/// Whether `at` is the offset of a record slot in a partition of `size` bytes.
pub open spec fn slot(at: int, size: int) -> bool {
    &&& record_start(at)
    &&& HEADER_SIZE <= at
    &&& at + RECORD <= size
}

/// Whether the header sector starts with the magic bytes.
pub open spec fn stamped(image: Seq<u8>) -> bool {
    image.len() >= MAGIC@.len() && image.subrange(0, MAGIC@.len() as int) == MAGIC@
}

/// Where a ring stands: whether the slots ahead still hold records of the lap
/// before, and the sector boundary up to which it has been erased.
pub struct Lap {
    pub lapped: bool,
    pub frontier: int,
}

/// Whether a ring that writes next at `write_pos` has the slot `at` erased.
pub open spec fn erased_slot(write_pos: int, lap: Lap, at: int) -> bool {
    if at < write_pos {
        false
    } else if at < lap.frontier {
        true
    } else {
        !lap.lapped
    }
}

/// The invariant of an open log on a partition with contents `image`. Behind
/// the write position every slot is in use. From there to the frontier, at
/// most one sector ahead, every slot is erased. Beyond the frontier all slots
/// are in use if the ring has wrapped around, and erased if it has not.
pub open spec fn ring(log: LogPartition, image: Seq<u8>, lap: Lap) -> bool {
    &&& geometry(log.size as int)
    &&& image.len() == log.size
    &&& stamped(image)
    &&& log.pending == Pending::Idle
    &&& record_start(log.write_pos as int)
    &&& HEADER_SIZE <= log.write_pos <= lap.frontier <= log.size
    &&& sector_start(lap.frontier)
    &&& lap.frontier <= log.write_pos + SECTOR
    &&& forall|at: int| #[trigger]
        slot(at, log.size as int) ==> blank_at(image, at) == erased_slot(
            log.write_pos as int,
            lap,
            at,
        )
}

/// The records in the slots from `from` up to `to`, in the order of their
/// offsets.
pub open spec fn records(image: Seq<u8>, from: int, to: int) -> Seq<Record> {
    Seq::new(((to - from) / 8) as nat, |i: int| record_at(image, from + 8 * i))
}

/// The stored history, oldest record first: what is left of the lap before,
/// then the records behind the write position.
pub open spec fn history(log: LogPartition, image: Seq<u8>, lap: Lap) -> Seq<Record> {
    let before = if lap.lapped {
        records(image, lap.frontier, log.size as int)
    } else {
        Seq::empty()
    };
    before + records(image, HEADER_SIZE as int, log.write_pos as int)
}

/// The log and the contents of a working partition once every request of the
/// log has been answered.
#[verifier::opaque]
pub open spec fn settled(log: LogPartition, image: Seq<u8>) -> (LogPartition, Seq<u8>)
    decreases (
        if log.pending is Erase {
            2int
        } else if log.pending is Write {
            1
        } else {
            0
        }),
{
    match log.op() {
        None => (log, image),
        Some(op) => settled(log.served(answer(image, op)), after(image, op)),
    }
}

/// Where the ring stands after one more record.
pub open spec fn lap_after_append(log: LogPartition, lap: Lap) -> Lap {
    let at = log.next_pos();
    Lap {
        lapped: lap.lapped || log.write_pos == log.size,
        frontier: if sector_start(at as int) {
            at + SECTOR
        } else {
            lap.frontier
        },
    }
}

/// Whether a ring has no erased slot: it stands between two sectors, and the
/// next one still holds the lap before.
pub open spec fn full(log: LogPartition, lap: Lap) -> bool {
    log.write_pos == log.size || (lap.lapped && lap.frontier == log.write_pos)
}

/// How many of the oldest records one more record drops: the 512 records of
/// the sector that it enters, if that sector still holds the lap before.
pub open spec fn dropped_by_append(log: LogPartition, lap: Lap) -> int {
    if sector_start(log.next_pos() as int) && full(log, lap) {
        SECTOR_RECORDS as int
    } else {
        0
    }
}

pub(crate) proof fn same_bytes_same_slot(a: Seq<u8>, b: Seq<u8>, at: int)
    requires
        forall|i: int| at <= i < at + RECORD ==> a[i] == b[i],
    ensures
        blank_at(a, at) == blank_at(b, at),
        record_at(a, at) == record_at(b, at),
{
    assert(a[at + 0] == b[at + 0] && a[at + 1] == b[at + 1] && a[at + 2] == b[at + 2] && a[at + 3]
        == b[at + 3] && a[at + 4] == b[at + 4] && a[at + 5] == b[at + 5] && a[at + 6] == b[at + 6]
        && a[at + 7] == b[at + 7]);
    if blank_at(a, at) {
        assert forall|i: int| at <= i < at + RECORD implies b[i] == ERASED by {
            assert(a[i] == ERASED);
        }
    }
    if blank_at(b, at) {
        assert forall|i: int| at <= i < at + RECORD implies a[i] == ERASED by {
            assert(b[i] == ERASED);
        }
    }
}

/// The contents of the partition while the record is about to be written: a
/// sector that the record enters has been erased.
pub open spec fn prepared(log: LogPartition, image: Seq<u8>) -> Seq<u8> {
    let at = log.next_pos();
    if sector_start(at as int) {
        erased(image, at as int, SECTOR as int)
    } else {
        image
    }
}

/// A working partition answers every request of an append with success.
pub(crate) proof fn append_is_served(log: LogPartition, image: Seq<u8>, uptime_s: u32, ppm: u16)
    requires
        geometry(log.size as int),
        image.len() == log.size,
        record_start(log.write_pos as int),
        HEADER_SIZE <= log.write_pos <= log.size,
    ensures
        ({
            let begun = log.appending(uptime_s, ppm);
            let at = log.next_pos() as int;
            let record = Record { boot_count: log.boot_count, uptime_s, ppm };
            let op1 = begun.op().unwrap();
            let erased_log = begun.served(FlashAnswer::Done);
            let op2 = erased_log.op().unwrap();
            let stored = programmed(prepared(log, image), at, encoded(record));
            let done = LogPartition {
                write_pos: (at + RECORD) as u32,
                pending: Pending::Idle,
                ..log
            };
            &&& slot(at, log.size as int)
            &&& begun.op() is Some
            &&& answer(image, op1) == FlashAnswer::Done
            &&& settled(begun, image) == (done, stored)
            &&& !sector_start(at) ==> {
                &&& begun.served(FlashAnswer::Done) == done
                &&& after(image, op1) == stored
            }
            &&& sector_start(at) ==> {
                &&& at + SECTOR <= log.size
                &&& erased_log.pending == Pending::Write(record)
                &&& after(image, op1) == prepared(log, image)
                &&& answer(prepared(log, image), op2) == FlashAnswer::Done
                &&& erased_log.served(FlashAnswer::Done) == done
                &&& after(prepared(log, image), op2) == stored
            }
        }),
{
    reveal_with_fuel(settled, 3);
    let at = log.next_pos() as int;
    let size = log.size as int;
    assert(slot(at, size));
    if sector_start(at) {
        sector_fits(size, at);
    }
    assert(encoded(Record { boot_count: log.boot_count, uptime_s, ppm }).len() == RECORD);
}

/// What an append leaves behind if the slot it writes to is erased when it gets
/// there.
pub(crate) proof fn append_onto_erased_slot(
    log: LogPartition,
    image: Seq<u8>,
    uptime_s: u32,
    ppm: u16,
)
    requires
        geometry(log.size as int),
        image.len() == log.size,
        record_start(log.write_pos as int),
        HEADER_SIZE <= log.write_pos <= log.size,
        blank_at(prepared(log, image), log.next_pos() as int),
    ensures
        ({
            let at = log.next_pos() as int;
            let record = Record { boot_count: log.boot_count, uptime_s, ppm };
            let (log2, image2) = settled(log.appending(uptime_s, ppm), image);
            &&& slot(at, log.size as int)
            &&& image2 == programmed(prepared(log, image), at, encoded(record))
            &&& image2.subrange(at, at + RECORD) == encoded(record)
            &&& record_at(image2, at) == record
            &&& log2 == (LogPartition {
                write_pos: (at + RECORD) as u32,
                pending: Pending::Idle,
                ..log
            })
            &&& image2.len() == image.len()
            &&& forall|i: int|
                0 <= i < image.len() && !(at <= i < if sector_start(at) {
                    at + SECTOR
                } else {
                    at + RECORD
                }) ==> image2[i] == image[i]
            &&& forall|i: int|
                at + RECORD <= i < at + SECTOR && sector_start(at) ==> image2[i] == ERASED
        }),
{
    let at = log.next_pos() as int;
    let record = Record { boot_count: log.boot_count, uptime_s, ppm };
    append_is_served(log, image, uptime_s, ppm);
    let (log2, image2) = settled(log.appending(uptime_s, ppm), image);
    programming_erased_flash_is_exact(prepared(log, image), at, encoded(record));
    stored_record_reads_back(record, image2, at);
}

/// An append writes onto erased flash, so that the record is stored as it is.
/// Nothing changes but its slot and, where it enters a sector, the rest of
/// that sector.
pub proof fn append_writes_onto_erased_flash(
    log: LogPartition,
    image: Seq<u8>,
    lap: Lap,
    uptime_s: u32,
    ppm: u16,
)
    requires
        ring(log, image, lap),
    ensures
        ({
            let at = log.next_pos() as int;
            let record = Record { boot_count: log.boot_count, uptime_s, ppm };
            let (log2, image2) = settled(log.appending(uptime_s, ppm), image);
            &&& slot(at, log.size as int)
            &&& blank_at(prepared(log, image), at)
            &&& image2 == programmed(prepared(log, image), at, encoded(record))
            &&& image2.subrange(at, at + RECORD) == encoded(record)
            &&& record_at(image2, at) == record
            &&& log2 == (LogPartition {
                write_pos: (at + RECORD) as u32,
                pending: Pending::Idle,
                ..log
            })
            &&& image2.len() == image.len()
            &&& forall|i: int|
                0 <= i < image.len() && !(at <= i < if sector_start(at) {
                    at + SECTOR
                } else {
                    at + RECORD
                }) ==> image2[i] == image[i]
            &&& forall|i: int|
                at + RECORD <= i < at + SECTOR && sector_start(at) ==> image2[i] == ERASED
        }),
{
    let at = log.next_pos() as int;
    append_is_served(log, image, uptime_s, ppm);
    if !sector_start(at) {
        assert(at == log.write_pos);
        assert(at < lap.frontier);
    }
    assert(blank_at(prepared(log, image), at));
    append_onto_erased_slot(log, image, uptime_s, ppm);
}

/// Which slots are erased after an append.
proof fn blank_after_append(image: Seq<u8>, image2: Seq<u8>, at: int, q: int)
    requires
        record_start(at),
        record_start(q),
        0 <= q,
        q + RECORD <= image.len(),
        forall|i: int|
            0 <= i < image.len() && !(at <= i < if sector_start(at) {
                at + SECTOR
            } else {
                at + RECORD
            }) ==> image2[i] == image[i],
        forall|i: int|
            at + RECORD <= i < at + SECTOR && sector_start(at) ==> image2[i] == ERASED,
        q != at,
    ensures
        blank_at(image2, q) == if sector_start(at) && at < q < at + SECTOR {
            true
        } else {
            blank_at(image, q)
        },
{
    if sector_start(at) && at < q < at + SECTOR {
        assert(blank_at(image2, q));
    } else {
        assert forall|i: int| q <= i < q + RECORD implies image[i] == image2[i] by {}
        same_bytes_same_slot(image, image2, q);
    }
}

pub(crate) proof fn slots_apart(p: int, q: int)
    requires
        record_start(p),
        record_start(q),
    ensures
        p < q ==> p + RECORD <= q,
{
}

proof fn frontier_between_sectors(write_pos: int, frontier: int)
    requires
        sector_start(write_pos),
        sector_start(frontier),
        write_pos <= frontier <= write_pos + SECTOR,
    ensures
        frontier == write_pos || frontier == write_pos + SECTOR,
{
}

/// Which slots of the ring count as erased after an append.
proof fn erased_slots_after_append(log: LogPartition, lap: Lap, q: int)
    requires
        geometry(log.size as int),
        record_start(log.write_pos as int),
        HEADER_SIZE <= log.write_pos <= lap.frontier <= log.size,
        sector_start(lap.frontier),
        lap.frontier <= log.write_pos + SECTOR,
        slot(q, log.size as int),
        q != log.next_pos(),
    ensures
        ({
            let at = log.next_pos() as int;
            erased_slot(at + RECORD, lap_after_append(log, lap), q) == if sector_start(at) && at < q
                < at + SECTOR {
                true
            } else {
                erased_slot(log.write_pos as int, lap, q)
            }
        }),
{
    let at = log.next_pos() as int;
    slots_apart(at, q);
    slots_apart(q, at);
    if log.write_pos < log.size && sector_start(at) {
        frontier_between_sectors(at, lap.frontier);
    }
}

/// The invariant after an append, from what the append did to the bytes.
proof fn ring_after_append(
    log: LogPartition,
    image: Seq<u8>,
    lap: Lap,
    log2: LogPartition,
    image2: Seq<u8>,
)
    requires
        ring(log, image, lap),
        ({
            let at = log.next_pos() as int;
            &&& log2 == (LogPartition {
                write_pos: (at + RECORD) as u32,
                pending: Pending::Idle,
                ..log
            })
            &&& image2.len() == image.len()
            &&& !blank_at(image2, at)
            &&& forall|i: int|
                0 <= i < image.len() && !(at <= i < if sector_start(at) {
                    at + SECTOR
                } else {
                    at + RECORD
                }) ==> image2[i] == image[i]
            &&& forall|i: int|
                at + RECORD <= i < at + SECTOR && sector_start(at) ==> image2[i] == ERASED
        }),
    ensures
        ring(log2, image2, lap_after_append(log, lap)),
{
    let at = log.next_pos() as int;
    let size = log.size as int;
    let lap2 = lap_after_append(log, lap);
    assert(slot(at, size));
    assert(sector_start(at) ==> at + SECTOR <= size);
    assert(image2.subrange(0, MAGIC@.len() as int) =~= image.subrange(0, MAGIC@.len() as int));
    assert forall|q: int| #[trigger] slot(q, size) implies blank_at(image2, q) == erased_slot(
        log2.write_pos as int,
        lap2,
        q,
    ) by {
        if q != at {
            blank_after_append(image, image2, at, q);
            erased_slots_after_append(log, lap, q);
        }
    }
}

/// Every append keeps the invariant, whether or not it enters a sector or
/// wraps around. The one record left out is that which reads as erased flash.
pub proof fn append_keeps_the_ring(
    log: LogPartition,
    image: Seq<u8>,
    lap: Lap,
    uptime_s: u32,
    ppm: u16,
)
    requires
        ring(log, image, lap),
        !all_ones(Record { boot_count: log.boot_count, uptime_s, ppm }),
    ensures
        ({
            let (log2, image2) = settled(log.appending(uptime_s, ppm), image);
            ring(log2, image2, lap_after_append(log, lap))
        }),
{
    let at = log.next_pos() as int;
    let record = Record { boot_count: log.boot_count, uptime_s, ppm };
    let (log2, image2) = settled(log.appending(uptime_s, ppm), image);
    append_writes_onto_erased_flash(log, image, lap, uptime_s, ppm);
    stored_record_is_not_blank(record, image2, at);
    ring_after_append(log, image, lap, log2, image2);
}

proof fn records_unchanged(a: Seq<u8>, b: Seq<u8>, from: int, to: int)
    requires
        record_start(from),
        record_start(to),
        from <= to,
        forall|i: int| from <= i < to ==> a[i] == b[i],
    ensures
        records(a, from, to) == records(b, from, to),
{
    assert forall|k: int| 0 <= k < records(a, from, to).len() implies records(a, from, to)[k]
        == records(b, from, to)[k] by {
        let at = from + 8 * k;
        assert(from <= at && at + RECORD <= to);
        same_bytes_same_slot(a, b, at);
    }
    assert(records(a, from, to) =~= records(b, from, to));
}

proof fn records_grow(image: Seq<u8>, from: int, to: int)
    requires
        record_start(from),
        record_start(to),
        from <= to,
    ensures
        records(image, from, to + RECORD) == records(image, from, to).push(record_at(image, to)),
{
    assert(records(image, from, to + RECORD) =~= records(image, from, to).push(
        record_at(image, to),
    ));
}

proof fn records_skip(image: Seq<u8>, from: int, to: int, n: u32)
    requires
        record_start(from),
        record_start(to),
        from + 8 * n <= to,
    ensures
        records(image, from, to).len() >= n,
        records(image, from, to).skip(n as int) == records(image, from + 8 * n, to),
{
    assert(records(image, from, to).skip(n as int) =~= records(image, from + 8 * n, to));
}

/// The history after an append, from what the append did to the bytes.
proof fn history_grows(
    log: LogPartition,
    image: Seq<u8>,
    lap: Lap,
    log2: LogPartition,
    image2: Seq<u8>,
)
    requires
        geometry(log.size as int),
        record_start(log.write_pos as int),
        HEADER_SIZE <= log.write_pos <= lap.frontier <= log.size,
        sector_start(lap.frontier),
        lap.frontier <= log.write_pos + SECTOR,
        log2.size == log.size,
        log2.write_pos == log.next_pos() + RECORD,
        forall|i: int| HEADER_SIZE <= i < log.next_pos() ==> image[i] == image2[i],
        forall|i: int|
            lap_after_append(log, lap).frontier <= i < log.size ==> image[i] == image2[i],
    ensures
        0 <= dropped_by_append(log, lap) <= history(log, image, lap).len(),
        history(log2, image2, lap_after_append(log, lap)) == history(log, image, lap).skip(
            dropped_by_append(log, lap),
        ).push(record_at(image2, log.next_pos() as int)),
{
    let at = log.next_pos() as int;
    let size = log.size as int;
    let head = HEADER_SIZE as int;
    let record = record_at(image2, at);
    let lap2 = lap_after_append(log, lap);
    append_geometry(log, lap);
    records_unchanged(image, image2, head, at);
    records_grow(image2, head, at);
    records_unchanged(image, image2, lap2.frontier, size);
    history_drops(log, image, lap);
    let behind = records(image, head, at);
    let ahead2 = if lap2.lapped {
        records(image, lap2.frontier, size)
    } else {
        Seq::empty()
    };
    assert(history(log2, image2, lap2) == ahead2 + behind.push(record));
    assert(ahead2 + behind.push(record) =~= (ahead2 + behind).push(record));
}

/// Where an append writes, and how the frontier moves.
proof fn append_geometry(log: LogPartition, lap: Lap)
    requires
        geometry(log.size as int),
        record_start(log.write_pos as int),
        HEADER_SIZE <= log.write_pos <= lap.frontier <= log.size,
        sector_start(lap.frontier),
        lap.frontier <= log.write_pos + SECTOR,
    ensures
        ({
            let at = log.next_pos() as int;
            let lap2 = lap_after_append(log, lap);
            let dropped = dropped_by_append(log, lap);
            &&& record_start(at) && record_start(lap2.frontier) && record_start(lap.frontier)
            &&& record_start(log.size as int)
            &&& HEADER_SIZE <= at && at + RECORD <= lap2.frontier <= log.size
            &&& log.write_pos == log.size ==> {
                &&& dropped == SECTOR_RECORDS
                &&& at == HEADER_SIZE
                &&& lap2.lapped
                &&& lap.frontier == log.size
                &&& lap2.frontier == HEADER_SIZE + SECTOR
            }
            &&& log.write_pos < log.size ==> {
                &&& at == log.write_pos
                &&& lap2.lapped == lap.lapped
                &&& dropped > 0 ==> {
                    &&& dropped == SECTOR_RECORDS
                    &&& lap.lapped
                    &&& lap2.frontier == lap.frontier + SECTOR
                }
                &&& dropped == 0 && lap.lapped ==> lap2.frontier == lap.frontier
            }
        }),
{
    let at = log.next_pos() as int;
    let size = log.size as int;
    if sector_start(at) {
        sector_fits(size, at);
        if log.write_pos < log.size {
            frontier_between_sectors(at, lap.frontier);
        }
    } else {
        slots_apart(at, lap.frontier);
    }
}

/// What is left of the history when the records that an append drops are
/// gone.
proof fn history_drops(log: LogPartition, image: Seq<u8>, lap: Lap)
    requires
        geometry(log.size as int),
        record_start(log.write_pos as int),
        HEADER_SIZE <= log.write_pos <= lap.frontier <= log.size,
        sector_start(lap.frontier),
        lap.frontier <= log.write_pos + SECTOR,
    ensures
        ({
            let at = log.next_pos() as int;
            let size = log.size as int;
            let lap2 = lap_after_append(log, lap);
            let dropped = dropped_by_append(log, lap);
            let ahead2 = if lap2.lapped {
                records(image, lap2.frontier, size)
            } else {
                Seq::empty()
            };
            &&& 0 <= dropped <= history(log, image, lap).len()
            &&& history(log, image, lap).skip(dropped) == ahead2 + records(
                image,
                HEADER_SIZE as int,
                at,
            )
        }),
{
    let size = log.size as int;
    let head = HEADER_SIZE as int;
    let dropped = dropped_by_append(log, lap);
    let h = history(log, image, lap);
    append_geometry(log, lap);
    if log.write_pos == log.size {
        let behind = records(image, head, size);
        records_skip(image, head, size, SECTOR_RECORDS);
        assert(records(image, size, size) =~= Seq::empty());
        assert(records(image, head, head) =~= Seq::empty());
        assert(h =~= behind);
        assert(behind.skip(dropped) + Seq::<Record>::empty() =~= behind.skip(dropped));
    } else if dropped > 0 {
        let behind = records(image, head, log.write_pos as int);
        let ahead = records(image, lap.frontier, size);
        records_skip(image, lap.frontier, size, SECTOR_RECORDS);
        assert((ahead + behind).skip(dropped) =~= ahead.skip(dropped) + behind);
    } else {
        assert(h.skip(0) =~= h);
    }
}

/// The history is a queue: an append puts its record at the end. It drops
/// nothing, except that where it enters a sector that still holds the lap
/// before, the 512 records of that sector go, which are the oldest.
pub proof fn append_extends_the_history(
    log: LogPartition,
    image: Seq<u8>,
    lap: Lap,
    uptime_s: u32,
    ppm: u16,
)
    requires
        ring(log, image, lap),
    ensures
        ({
            let record = Record { boot_count: log.boot_count, uptime_s, ppm };
            let (log2, image2) = settled(log.appending(uptime_s, ppm), image);
            let dropped = dropped_by_append(log, lap);
            &&& 0 <= dropped <= history(log, image, lap).len()
            &&& history(log2, image2, lap_after_append(log, lap)) == history(log, image, lap).skip(
                dropped,
            ).push(record)
        }),
{
    let (log2, image2) = settled(log.appending(uptime_s, ppm), image);
    append_writes_onto_erased_flash(log, image, lap, uptime_s, ppm);
    history_grows(log, image, lap, log2, image2);
}

/// Until the ring wraps around it keeps every record. From then on it keeps
/// all it has slots for, but for at most the one sector that is being filled.
pub proof fn history_is_long(log: LogPartition, image: Seq<u8>, lap: Lap)
    requires
        ring(log, image, lap),
    ensures
        ({
            let capacity = (log.size - HEADER_SIZE) / 8;
            let kept = history(log, image, lap).len();
            &&& kept <= capacity
            &&& !lap.lapped ==> kept == (log.write_pos - HEADER_SIZE) / 8
            &&& lap.lapped ==> kept >= capacity - SECTOR_RECORDS
        }),
{
}

/// Where the ring stands when a log that had reached the end of the partition
/// goes on at its start.
pub open spec fn wrapped_lap(log: LogPartition, lap: Lap) -> Lap {
    if log.write_pos == log.size {
        Lap { lapped: true, frontier: HEADER_SIZE as int }
    } else {
        lap
    }
}

/// A failed append loses nothing but its record. If the first request fails
/// and leaves the flash as it was, the history is as before. If a sector was
/// erased and the write then fails, only what the erase drops is gone. Either
/// way the invariant holds and the next append tries the same slot.
pub proof fn failed_append_keeps_the_ring(
    log: LogPartition,
    image: Seq<u8>,
    lap: Lap,
    uptime_s: u32,
    ppm: u16,
)
    requires
        ring(log, image, lap),
    ensures
        ({
            let failed = log.appending(uptime_s, ppm).served(FlashAnswer::Failed);
            &&& failed.write_pos == log.next_pos()
            &&& ring(failed, image, wrapped_lap(log, lap))
            &&& history(failed, image, wrapped_lap(log, lap)) == history(log, image, lap)
        }),
        sector_start(log.next_pos() as int) ==> ({
            let failed = log.appending(uptime_s, ppm).served(FlashAnswer::Done).served(
                FlashAnswer::Failed,
            );
            let lap2 = lap_after_append(log, lap);
            &&& failed.write_pos == log.next_pos()
            &&& ring(failed, prepared(log, image), lap2)
            &&& history(failed, prepared(log, image), lap2) == history(log, image, lap).skip(
                dropped_by_append(log, lap),
            )
        }),
{
    refused_append(log, image, lap, uptime_s, ppm);
    if sector_start(log.next_pos() as int) {
        interrupted_append(log, image, lap, uptime_s, ppm);
    }
}

proof fn refused_append(log: LogPartition, image: Seq<u8>, lap: Lap, uptime_s: u32, ppm: u16)
    requires
        ring(log, image, lap),
    ensures
        ({
            let failed = log.appending(uptime_s, ppm).served(FlashAnswer::Failed);
            &&& failed.write_pos == log.next_pos()
            &&& ring(failed, image, wrapped_lap(log, lap))
            &&& history(failed, image, wrapped_lap(log, lap)) == history(log, image, lap)
        }),
{
    let size = log.size as int;
    let head = HEADER_SIZE as int;
    let failed = log.appending(uptime_s, ppm).served(FlashAnswer::Failed);
    if log.write_pos == log.size {
        assert(records(image, size, size) =~= Seq::empty());
        assert(records(image, head, head) =~= Seq::empty());
    }
    assert(history(failed, image, wrapped_lap(log, lap)) =~= history(log, image, lap));
}

proof fn interrupted_append(log: LogPartition, image: Seq<u8>, lap: Lap, uptime_s: u32, ppm: u16)
    requires
        ring(log, image, lap),
        sector_start(log.next_pos() as int),
    ensures
        ({
            let failed = log.appending(uptime_s, ppm).served(FlashAnswer::Done).served(
                FlashAnswer::Failed,
            );
            let lap2 = lap_after_append(log, lap);
            &&& failed.write_pos == log.next_pos()
            &&& ring(failed, prepared(log, image), lap2)
            &&& history(failed, prepared(log, image), lap2) == history(log, image, lap).skip(
                dropped_by_append(log, lap),
            )
        }),
{
    let at = log.next_pos() as int;
    let size = log.size as int;
    let image1 = prepared(log, image);
    let lap2 = lap_after_append(log, lap);
    sector_fits(size, at);
    assert(image1.subrange(0, MAGIC@.len() as int) =~= image.subrange(0, MAGIC@.len() as int));
    assert forall|q: int| #[trigger] slot(q, size) implies blank_at(image1, q) == erased_slot(
        at,
        lap2,
        q,
    ) by {
        assert(blank_at(image, q) == erased_slot(log.write_pos as int, lap, q));
        if at <= q < at + SECTOR {
            slots_apart(q, at + SECTOR);
            assert(blank_at(image1, q));
        } else {
            slots_apart(q, at);
            assert forall|i: int| q <= i < q + RECORD implies image[i] == image1[i] by {}
            same_bytes_same_slot(image, image1, q);
            erased_slots_after_append(log, lap, q);
        }
    }
    erased_history(log, image, lap, image1);
}

pub(crate) proof fn sector_fits(size: int, at: int)
    requires
        sector_start(size),
        sector_start(at),
        at < size,
    ensures
        at + SECTOR <= size,
{
}

/// The history once the sector that an append enters has been erased.
proof fn erased_history(log: LogPartition, image: Seq<u8>, lap: Lap, image1: Seq<u8>)
    requires
        geometry(log.size as int),
        record_start(log.write_pos as int),
        HEADER_SIZE <= log.write_pos <= lap.frontier <= log.size,
        sector_start(lap.frontier),
        lap.frontier <= log.write_pos + SECTOR,
        sector_start(log.next_pos() as int),
        forall|i: int| HEADER_SIZE <= i < log.next_pos() ==> image[i] == image1[i],
        forall|i: int| log.next_pos() + SECTOR <= i < log.size ==> image[i] == image1[i],
    ensures
        history(
            LogPartition { write_pos: log.next_pos(), ..log },
            image1,
            lap_after_append(log, lap),
        ) == history(log, image, lap).skip(dropped_by_append(log, lap)),
{
    let at = log.next_pos() as int;
    append_geometry(log, lap);
    records_unchanged(image, image1, HEADER_SIZE as int, at);
    records_unchanged(image, image1, lap_after_append(log, lap).frontier, log.size as int);
    history_drops(log, image, lap);
}

} // verus!
