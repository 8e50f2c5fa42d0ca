//! What a restart finds: opening a log on a working partition.
use crate::flash::{
    after, answer, erased, programmed, programming_erased_flash_is_exact, sector_start, FlashAnswer,
    ERASED, SECTOR,
};
use crate::logger::{
    first_blank, seeking, turns, LogPartition, LoggerTask, OpenStage, Opening, Pending, Walk, CHUNK,
    HEADER_SIZE, MAGIC,
};
use crate::record::{
    blank_at, comparable, falls, older, record_at, record_start, Record, RECORD, SECTOR_RECORDS,
};
use crate::ring::{
    append_extends_the_history, dropped_by_append, erased_slot, full, geometry, history,
    lap_after_append, records, ring, sector_fits, settled, slot, slots_apart, stamped, wrapped_lap,
    Lap,
};
use vstd::prelude::*;

verus! {

/// How many kinds of requests an opening may still make.
pub open spec fn steps_left(stage: OpenStage) -> nat {
    match stage {
        OpenStage::ReadHeader => 5,
        OpenStage::EraseAll => 4,
        OpenStage::StampHeader => 3,
        OpenStage::Scan { .. } => 2,
        OpenStage::Seek { .. } => 1,
        _ => 0,
    }
}

/// How much of the partition an opening has still to scan.
pub open spec fn bytes_left(opening: Opening) -> int {
    match opening.stage {
        OpenStage::Scan { offset } => opening.size - offset,
        OpenStage::Seek { offset, .. } => opening.size - offset,
        _ => 0,
    }
}

/// The opening and the contents of a working partition once every request of
/// the opening has been answered.
#[verifier::opaque]
pub open spec fn opened_on(opening: Opening, image: Seq<u8>) -> (Opening, Seq<u8>)
    decreases steps_left(opening.stage), bytes_left(opening),
{
    match opening.op() {
        None => (opening, image),
        Some(op) => opened_on(opening.served(answer(image, op)), after(image, op)),
    }
}

/// Whether the ring may have turned at `at`: a record sector other than the
/// first starts there, and from the sector before it to this one the order of
/// time breaks.
pub open spec fn turns_at(image: Seq<u8>, at: int) -> bool {
    &&& sector_start(at)
    &&& HEADER_SIZE + SECTOR <= at
    &&& at < image.len()
    &&& turns(record_at(image, at - SECTOR), record_at(image, at - RECORD), record_at(image, at))
}

/// Whether the sector at `at` is the only one, going round, at which the order
/// of time breaks.
pub open spec fn only_turn(image: Seq<u8>, at: int) -> bool {
    &&& turns_at(image, at)
    &&& forall|q: int| #[trigger] turns_at(image, q) ==> q == at
    &&& !falls(record_at(image, image.len() - SECTOR), record_at(image, HEADER_SIZE as int))
}

/// Whether the sector at `at` is the oldest one, as far as the records tell:
/// the only one at which the order of time breaks, or the first of all if
/// there is no such sector.
pub open spec fn oldest_sector(image: Seq<u8>, at: int) -> bool {
    ||| only_turn(image, at)
    ||| at == HEADER_SIZE && forall|q: int| !#[trigger] only_turn(image, q)
}

/// Whether every slot of a partition with contents `image` is in use.
pub open spec fn all_in_use(image: Seq<u8>) -> bool {
    forall|q: int| #[trigger] slot(q, image.len() as int) ==> !blank_at(image, q)
}

/// Whether `at` is where a log with contents `image` goes on: the first slot
/// that is erased, or the oldest sector if every slot is in use.
pub open spec fn write_position(image: Seq<u8>, at: int) -> bool {
    let size = image.len() as int;
    ||| {
        &&& slot(at, size)
        &&& blank_at(image, at)
        &&& forall|q: int| #[trigger] slot(q, size) && q < at ==> !blank_at(image, q)
    }
    ||| {
        &&& all_in_use(image)
        &&& oldest_sector(image, at)
    }
}

/// An opening that has only begun.
pub open spec fn start_of_opening(size: u32, boot_count: u16) -> Opening {
    Opening { size, boot_count, stage: OpenStage::ReadHeader }
}

proof fn first_blank_is_first(s: Seq<u8>, from: int, to: int)
    requires
        record_start(from),
    ensures
        match first_blank(s, from, to) {
            Some(r) => {
                &&& from <= r
                &&& r + RECORD <= to
                &&& record_start(r)
                &&& blank_at(s, r)
                &&& forall|q: int|
                    from <= q < r && record_start(q) ==> !#[trigger] blank_at(s, q)
            },
            None => forall|q: int|
                from <= q && q + RECORD <= to && record_start(q) ==> !#[trigger] blank_at(
                    s,
                    q,
                ),
        },
    decreases to - from,
{
    if from + RECORD > to {
    } else if blank_at(s, from) {
    } else {
        first_blank_is_first(s, from + RECORD, to);
    }
}

/// What a search of one chunk says of the partition.
proof fn chunk_search(image: Seq<u8>, offset: int)
    requires
        record_start(offset),
        0 <= offset,
        offset + CHUNK <= image.len(),
    ensures
        match first_blank(image.subrange(offset, offset + CHUNK), 0, CHUNK as int) {
            Some(rec) => {
                &&& 0 <= rec && rec + RECORD <= CHUNK
                &&& record_start(rec)
                &&& blank_at(image, offset + rec)
                &&& forall|q: int|
                    offset <= q < offset + rec && record_start(q) ==> !#[trigger] blank_at(
                        image,
                        q,
                    )
            },
            None => forall|q: int|
                offset <= q < offset + CHUNK && record_start(q) ==> !#[trigger] blank_at(
                    image,
                    q,
                ),
        },
{
    let chunk = image.subrange(offset, offset + CHUNK);
    first_blank_is_first(chunk, 0, CHUNK as int);
    assert forall|q: int|
        offset <= q && q + RECORD <= offset + CHUNK implies #[trigger] blank_at(image, q)
        == blank_at(chunk, q - offset) by {
        blank_in_chunk(image, offset, q);
    }
    match first_blank(chunk, 0, CHUNK as int) {
        Some(rec) => {
            assert(blank_at(image, offset + rec));
            assert forall|q: int|
                offset <= q < offset + rec && record_start(q) implies !#[trigger] blank_at(
                image,
                q,
            ) by {
                assert(record_start(q - offset));
                assert(!blank_at(chunk, q - offset));
            }
        },
        None => {
            assert forall|q: int|
                offset <= q < offset + CHUNK && record_start(q) implies !#[trigger] blank_at(
                image,
                q,
            ) by {
                assert(record_start(q - offset));
                slots_apart(q, offset + CHUNK);
                assert(!blank_at(chunk, q - offset));
            }
        },
    }
}

proof fn blank_in_chunk(image: Seq<u8>, offset: int, q: int)
    requires
        0 <= offset <= q,
        q + RECORD <= offset + CHUNK <= image.len(),
    ensures
        blank_at(image, q) == blank_at(image.subrange(offset, offset + CHUNK), q - offset),
{
    let chunk = image.subrange(offset, offset + CHUNK);
    if blank_at(chunk, q - offset) {
        assert forall|i: int| q <= i < q + RECORD implies image[i] == ERASED by {
            assert(chunk[i - offset] == ERASED);
        }
    }
    if blank_at(image, q) {
        assert forall|i: int| q - offset <= i < q - offset + RECORD implies chunk[i] == ERASED by {
            assert(image[offset + i] == ERASED);
        }
    }
}

/// One step of the scan, and where it leads.
proof fn scan_step(size: u32, boot_count: u16, offset: u32, image: Seq<u8>)
    requires
        image.len() == size,
        HEADER_SIZE < size,
        offset + CHUNK <= size,
    ensures
        ({
            let o = Opening { size, boot_count, stage: OpenStage::Scan { offset } };
            let chunk = image.subrange(offset as int, offset + CHUNK);
            opened_on(o, image) == match first_blank(chunk, 0, CHUNK as int) {
                Some(rec) => (
                    Opening { stage: OpenStage::Ready { write_pos: (offset + rec) as u32 }, ..o },
                    image,
                ),
                None => if offset + CHUNK < size {
                    opened_on(
                        Opening {
                            stage: OpenStage::Scan { offset: (offset + CHUNK) as u32 },
                            ..o
                        },
                        image,
                    )
                } else {
                    opened_on(
                        Opening {
                            stage: OpenStage::Seek { offset: HEADER_SIZE, walk: None },
                            ..o
                        },
                        image,
                    )
                },
            }
        }),
{
    reveal_with_fuel(opened_on, 2);
    let o = Opening { size, boot_count, stage: OpenStage::Scan { offset } };
    let chunk = image.subrange(offset as int, offset + CHUNK);
    assert(answer(image, o.op().unwrap()) == FlashAnswer::Bytes(chunk));
}

/// An erased slot behind which all slots are in use is the write position.
proof fn first_erased_slot(image: Seq<u8>, offset: int, rec: int)
    requires
        geometry(image.len() as int),
        HEADER_SIZE <= offset,
        offset + CHUNK <= image.len(),
        record_start(offset),
        0 <= rec && rec + RECORD <= CHUNK,
        record_start(rec),
        blank_at(image, offset + rec),
        forall|q: int|
            #[trigger] slot(q, image.len() as int) && q < offset ==> !blank_at(image, q),
        forall|q: int|
            offset <= q < offset + rec && record_start(q) ==> !#[trigger] blank_at(
                image,
                q,
            ),
    ensures
        write_position(image, offset + rec),
{
    assert(record_start(offset + rec));
    assert(slot(offset + rec, image.len() as int));
}

proof fn chunk_fits(size: int, offset: int)
    requires
        sector_start(size),
        offset % 256 == 0,
        offset < size,
    ensures
        offset + CHUNK <= size,
{
    let sectors = size / 4096;
    let chunks = offset / 256;
    assert(size == 256 * (16 * sectors));
    assert(offset == 256 * chunks);
}

/// One step of the search for the oldest sector, and where it leads.
proof fn seek_step(size: u32, boot_count: u16, offset: u32, walk: Option<Walk>, image: Seq<u8>)
    requires
        image.len() == size,
        RECORD <= offset,
        offset + RECORD <= size,
    ensures
        ({
            let o = Opening { size, boot_count, stage: OpenStage::Seek { offset, walk } };
            let prior = record_at(image, offset - RECORD);
            let here = record_at(image, offset as int);
            opened_on(o, image) == opened_on(
                Opening { stage: seeking(size, offset, walk, prior, here), ..o },
                image,
            )
        }),
{
    reveal_with_fuel(opened_on, 2);
    let o = Opening { size, boot_count, stage: OpenStage::Seek { offset, walk } };
    let bytes = image.subrange(offset - RECORD, offset + RECORD);
    assert(answer(image, o.op().unwrap()) == FlashAnswer::Bytes(bytes));
    assert(record_at(bytes, 0) == record_at(image, offset - RECORD));
    assert(record_at(bytes, RECORD as int) == record_at(image, offset as int));
}

/// What a search has seen when it comes to `offset`.
spec fn walked(image: Seq<u8>, offset: int, walk: Option<Walk>) -> bool {
    match walk {
        None => offset == HEADER_SIZE,
        Some(w) => {
            &&& HEADER_SIZE + SECTOR <= offset
            &&& w.first == record_at(image, HEADER_SIZE as int)
            &&& w.before == record_at(image, offset - SECTOR)
            &&& match w.turn {
                None => forall|q: int| #[trigger] turns_at(image, q) ==> offset <= q,
                Some(at) => {
                    &&& turns_at(image, at as int) && at < offset
                    &&& forall|q: int| #[trigger]
                        turns_at(image, q) ==> q == at || offset <= q
                },
            }
        },
    }
}

proof fn seek_finds_the_oldest_sector(
    size: u32,
    boot_count: u16,
    offset: u32,
    walk: Option<Walk>,
    image: Seq<u8>,
)
    requires
        geometry(size as int),
        image.len() == size,
        HEADER_SIZE <= offset < size,
        sector_start(offset as int),
        walked(image, offset as int, walk),
    ensures
        ({
            let (o, image2) = opened_on(
                Opening { size, boot_count, stage: OpenStage::Seek { offset, walk } },
                image,
            );
            &&& image2 == image
            &&& o.size == size && o.boot_count == boot_count
            &&& o.stage matches OpenStage::Ready { write_pos }
            &&& oldest_sector(image, write_pos as int)
        }),
    decreases size - offset,
{
    let prior = record_at(image, offset - RECORD);
    let here = record_at(image, offset as int);
    let o = Opening { size, boot_count, stage: OpenStage::Seek { offset, walk } };
    let next = Opening { stage: seeking(size, offset, walk, prior, here), ..o };
    sector_fits(size as int, offset as int);
    seek_step(size, boot_count, offset, walk, image);
    match next.stage {
        OpenStage::Seek { offset: offset2, walk: walk2 } => {
            walk_goes_on(image, offset as int, walk);
            seek_finds_the_oldest_sector(size, boot_count, offset2, walk2, image);
        },
        _ => {
            walk_ends(image, size, offset, walk);
            assert(opened_on(next, image) == (next, image)) by {
                reveal_with_fuel(opened_on, 2);
            }
        },
    }
}

/// What a search has seen once it has passed the sector at `offset`.
proof fn walk_goes_on(image: Seq<u8>, offset: int, walk: Option<Walk>)
    requires
        geometry(image.len() as int),
        HEADER_SIZE <= offset,
        offset + SECTOR < image.len(),
        sector_start(offset),
        walked(image, offset, walk),
        seeking(
            image.len() as u32,
            offset as u32,
            walk,
            record_at(image, offset - RECORD),
            record_at(image, offset),
        ) is Seek,
    ensures
        ({
            let stage = seeking(
                image.len() as u32,
                offset as u32,
                walk,
                record_at(image, offset - RECORD),
                record_at(image, offset),
            );
            &&& stage matches OpenStage::Seek { offset: offset2, walk: walk2 }
            &&& offset2 == offset + SECTOR
            &&& walked(image, offset + SECTOR, walk2)
        }),
{
    assert forall|q: int| #[trigger] turns_at(image, q) && offset < q implies offset + SECTOR
        <= q by {
        sectors_apart(offset, q);
    }
    assert(walk is None ==> !turns_at(image, offset));
}

/// Where a search leads that ends at the sector at `offset`.
proof fn walk_ends(image: Seq<u8>, size: u32, offset: u32, walk: Option<Walk>)
    requires
        geometry(size as int),
        image.len() == size,
        HEADER_SIZE <= offset < size,
        sector_start(offset as int),
        walked(image, offset as int, walk),
        !(seeking(
            size,
            offset,
            walk,
            record_at(image, offset - RECORD),
            record_at(image, offset as int),
        ) is Seek),
    ensures
        ({
            let stage = seeking(
                size,
                offset,
                walk,
                record_at(image, offset - RECORD),
                record_at(image, offset as int),
            );
            &&& stage matches OpenStage::Ready { write_pos }
            &&& oldest_sector(image, write_pos as int)
        }),
{
    sector_fits(size as int, offset as int);
    assert forall|q: int| #[trigger] turns_at(image, q) && offset < q && offset + SECTOR
        >= size implies false by {
        sectors_apart(offset as int, q);
    }
    let last = offset + SECTOR >= size;
    if last {
        assert(offset == size - SECTOR);
    }
    assert(walk is None ==> !turns_at(image, offset as int));
    assert(walk is Some ==> (turns_at(image, offset as int) <==> turns(
        walk.unwrap().before,
        record_at(image, offset - RECORD),
        record_at(image, offset as int),
    )));
    if walk is Some && walk.unwrap().turn is Some {
        let at = walk.unwrap().turn.unwrap() as int;
        if turns_at(image, offset as int) {
            assert forall|q: int| !#[trigger] only_turn(image, q) by {
                assert(turns_at(image, at) && turns_at(image, offset as int));
            }
        }
    }
}

proof fn sectors_apart(p: int, q: int)
    requires
        sector_start(p),
        sector_start(q),
    ensures
        p < q ==> p + SECTOR <= q,
{
}

proof fn scan_finds_the_write_position(size: u32, boot_count: u16, offset: u32, image: Seq<u8>)
    requires
        geometry(size as int),
        image.len() == size,
        HEADER_SIZE <= offset < size,
        offset % 256 == 0,
        forall|q: int| #[trigger] slot(q, size as int) && q < offset ==> !blank_at(image, q),
    ensures
        ({
            let (o, image2) = opened_on(
                Opening { size, boot_count, stage: OpenStage::Scan { offset } },
                image,
            );
            &&& image2 == image
            &&& o.size == size && o.boot_count == boot_count
            &&& o.stage matches OpenStage::Ready { write_pos }
            &&& write_position(image, write_pos as int)
        }),
    decreases size - offset,
{
    chunk_fits(size as int, offset as int);
    let chunk = image.subrange(offset as int, offset + CHUNK);
    scan_step(size, boot_count, offset, image);
    chunk_search(image, offset as int);
    match first_blank(chunk, 0, CHUNK as int) {
        Some(rec) => {
            first_erased_slot(image, offset as int, rec);
        },
        None => {
            if offset + CHUNK < size {
                scan_finds_the_write_position(size, boot_count, (offset + CHUNK) as u32, image);
            } else {
                seek_finds_the_oldest_sector(size, boot_count, HEADER_SIZE, None, image);
            }
        },
    }
}

/// Opening an initialized log leaves the partition as it is and goes on at
/// the first record that reads as erased flash; if there is none, at the
/// oldest sector.
pub proof fn opening_finds_the_write_position(size: u32, boot_count: u16, image: Seq<u8>)
    requires
        geometry(size as int),
        image.len() == size,
        stamped(image),
    ensures
        ({
            let (o, image2) = opened_on(start_of_opening(size, boot_count), image);
            &&& image2 == image
            &&& o.opened() matches Some(log)
            &&& log.size == size
            &&& log.boot_count == boot_count
            &&& log.pending == Pending::Idle
            &&& write_position(image, log.write_pos as int)
        }),
{
    reveal_with_fuel(opened_on, 2);
    let o = start_of_opening(size, boot_count);
    let header = image.subrange(0, MAGIC@.len() as int);
    assert(answer(image, o.op().unwrap()) == FlashAnswer::Bytes(header));
    let next = o.served(FlashAnswer::Bytes(header));
    assert(next.stage == OpenStage::Scan { offset: HEADER_SIZE });
    assert(opened_on(o, image) == opened_on(next, image));
    scan_finds_the_write_position(size, boot_count, HEADER_SIZE, image);
}

/// A partition without the magic bytes is erased and initialized, whatever it
/// held: the log is empty and starts at the first slot.
pub proof fn opening_initializes_foreign_contents(size: u32, boot_count: u16, image: Seq<u8>)
    requires
        geometry(size as int),
        image.len() == size,
        !stamped(image),
    ensures
        ({
            let (o, image2) = opened_on(start_of_opening(size, boot_count), image);
            let lap = Lap { lapped: false, frontier: HEADER_SIZE as int };
            &&& o.opened() == Some(
                LogPartition {
                    size,
                    write_pos: HEADER_SIZE,
                    boot_count,
                    pending: Pending::Idle,
                },
            )
            &&& ring(o.opened().unwrap(), image2, lap)
            &&& history(o.opened().unwrap(), image2, lap).len() == 0
        }),
{
    reveal_with_fuel(opened_on, 2);
    let o = start_of_opening(size, boot_count);
    let header = image.subrange(0, MAGIC@.len() as int);
    assert(answer(image, o.op().unwrap()) == FlashAnswer::Bytes(header));
    let o1 = o.served(FlashAnswer::Bytes(header));
    assert(o1.stage == OpenStage::EraseAll);
    let image1 = erased(image, 0, size as int);
    let o2 = o1.served(FlashAnswer::Done);
    let image2 = programmed(image1, 0, MAGIC@);
    let o3 = o2.served(FlashAnswer::Done);
    assert(o3.stage == OpenStage::Scan { offset: HEADER_SIZE });
    assert(opened_on(o, image) == opened_on(o1, image));
    assert(opened_on(o1, image) == opened_on(o2, image1));
    assert(opened_on(o2, image1) == opened_on(o3, image2));
    programming_erased_flash_is_exact(image1, 0, MAGIC@);
    assert(slot(HEADER_SIZE as int, size as int));
    assert forall|q: int| #[trigger] slot(q, size as int) implies blank_at(image2, q) by {}
    scan_finds_the_write_position(size, boot_count, HEADER_SIZE, image2);
}

/// Whether nothing in a history breaks the order of time: every record is
/// older than all that follow it and can be compared with it.
pub open spec fn in_order(h: Seq<Record>) -> bool {
    forall|i: int, j: int| 0 <= i < j < h.len() ==> !falls(#[trigger] h[i], #[trigger] h[j])
}

/// The first record of sector number `k` of a history of whole sectors.
pub open spec fn sector_first(h: Seq<Record>, k: int) -> Record {
    h[512 * k]
}

/// Whether the first records of the sectors of a history are in the order of
/// time, each against the one before it.
pub open spec fn sectors_in_order(h: Seq<Record>) -> bool {
    forall|k: int|
        0 <= k && 512 * (k + 1) < h.len() ==> !falls(
            #[trigger] sector_first(h, k),
            sector_first(h, k + 1),
        )
}

/// Whether the two ends of a history tell that it goes from old to new: the
/// newest sector does not start with an older record than the oldest one, with
/// which it can be compared, and the newest record is not older than the
/// oldest.
pub open spec fn ends_in_order(h: Seq<Record>) -> bool {
    &&& falls(sector_first(h, h.len() / 512 - 1), sector_first(h, 0))
    &&& !older(h.last(), h[0])
}

/// What has to hold of a history for a restart to find its end where every
/// slot is in use. Only the first records of the sectors matter, and the two
/// ends unless the log goes on at the first sector.
pub open spec fn place_is_told(log: LogPartition, h: Seq<Record>) -> bool {
    &&& sectors_in_order(h)
    &&& log.next_pos() != HEADER_SIZE ==> ends_in_order(h)
}

/// A full ring of `size` bytes that goes on at `turn`, oldest record first.
spec fn from_turn(image: Seq<u8>, turn: int) -> Seq<Record> {
    records(image, turn, image.len() as int) + records(image, HEADER_SIZE as int, turn)
}

/// The number of the sector at `q` in a history that goes on at `turn`.
spec fn number_of(size: int, turn: int, q: int) -> int {
    if q >= turn {
        (q - turn) / 4096
    } else {
        (size - turn + q - HEADER_SIZE) / 4096
    }
}

proof fn sector_offsets(size: int, turn: int, q: int)
    requires
        geometry(size),
        sector_start(turn),
        HEADER_SIZE <= turn < size,
        sector_start(q),
        HEADER_SIZE <= q < size,
    ensures
        ({
            let k = number_of(size, turn, q);
            let n = (size - turn) / 8;
            &&& 0 <= k && 512 * (k + 1) <= (size - HEADER_SIZE) / 8
            &&& (size - HEADER_SIZE) / 8 == n + (turn - HEADER_SIZE) / 8
            &&& q >= turn ==> 512 * k < n && turn + 8 * (512 * k) == q
            &&& q < turn ==> n <= 512 * k && HEADER_SIZE + 8 * (512 * k - n) == q
        }),
{
    let all = size / 4096;
    let t = turn / 4096;
    let p = q / 4096;
    assert(size == 4096 * all && turn == 4096 * t && q == 4096 * p);
    assert((size - turn) / 8 == 512 * (all - t));
    assert((size - HEADER_SIZE) / 8 == 512 * (all - 1));
    assert((turn - HEADER_SIZE) / 8 == 512 * (t - 1));
    assert(number_of(size, turn, q) == if p >= t {
        p - t
    } else {
        all - t + p - 1
    });
}

/// Sectors that follow each other have numbers that do, except at the turn.
proof fn numbers_follow(size: int, turn: int, q: int)
    requires
        sector_start(size),
        sector_start(turn),
        sector_start(q),
        HEADER_SIZE + SECTOR <= q < size,
        q != turn,
    ensures
        number_of(size, turn, q) == number_of(size, turn, q - SECTOR) + 1,
        sector_start(q - SECTOR),
{
    sectors_apart(turn, q);
    let x = if q > turn {
        q - turn
    } else {
        size - turn + q - HEADER_SIZE
    };
    assert((x - 4096) / 4096 == x / 4096 - 1);
}

/// The sector at `q` and its number in a history that goes on at `turn`.
proof fn sector_number(image: Seq<u8>, turn: int, q: int) -> (k: int)
    requires
        geometry(image.len() as int),
        sector_start(turn),
        HEADER_SIZE <= turn < image.len(),
        sector_start(q),
        HEADER_SIZE <= q < image.len(),
    ensures
        k == number_of(image.len() as int, turn, q),
        0 <= k,
        512 * (k + 1) <= from_turn(image, turn).len(),
        from_turn(image, turn).len() == (image.len() - HEADER_SIZE) / 8,
        sector_first(from_turn(image, turn), k) == record_at(image, q),
{
    let size = image.len() as int;
    let head = HEADER_SIZE as int;
    let k = number_of(size, turn, q);
    let ahead = records(image, turn, size);
    let behind = records(image, head, turn);
    sector_offsets(size, turn, q);
    assert(ahead.len() == (size - turn) / 8);
    assert(behind.len() == (turn - head) / 8);
    if q >= turn {
        assert((ahead + behind)[512 * k] == ahead[512 * k]);
    } else {
        assert((ahead + behind)[512 * k] == behind[512 * k - ahead.len()]);
    }
    k
}

/// Within a history the order of time does not break.
proof fn no_turn_within(image: Seq<u8>, turn: int, q: int)
    requires
        geometry(image.len() as int),
        sector_start(turn),
        HEADER_SIZE <= turn < image.len(),
        sectors_in_order(from_turn(image, turn)),
        sector_start(q),
        HEADER_SIZE + SECTOR <= q < image.len(),
        q != turn,
    ensures
        !turns_at(image, q),
{
    let h = from_turn(image, turn);
    numbers_follow(image.len() as int, turn, q);
    let k = sector_number(image, turn, q);
    let j = sector_number(image, turn, q - SECTOR);
    assert(k == j + 1 && 512 * (j + 1) < h.len());
    assert(!falls(sector_first(h, j), sector_first(h, j + 1)));
    assert(!falls(record_at(image, q - SECTOR), record_at(image, q)));
}

/// The two ends of a history that goes on at `turn`.
proof fn ends_of_a_history(image: Seq<u8>, turn: int)
    requires
        geometry(image.len() as int),
        sector_start(turn),
        HEADER_SIZE < turn < image.len(),
    ensures
        from_turn(image, turn).len() > 0,
        from_turn(image, turn)[0] == record_at(image, turn),
        from_turn(image, turn).last() == record_at(image, turn - RECORD),
{
    let head = HEADER_SIZE as int;
    let ahead = records(image, turn, image.len() as int);
    let behind = records(image, head, turn);
    sectors_apart(head, turn);
    sector_fits(image.len() as int, turn);
    let n = behind.len() as int;
    let t = turn / 4096;
    assert(turn == 4096 * t);
    assert(n == 512 * (t - 1));
    assert(head + 8 * (n - 1) == turn - RECORD);
    assert(ahead.len() > 0 && ahead[0] == record_at(image, turn));
    assert((ahead + behind).last() == behind[n - 1]);
}

/// A ring that stands between two sectors turns there.
proof fn turn_at_the_end(image: Seq<u8>, turn: int)
    requires
        geometry(image.len() as int),
        sector_start(turn),
        HEADER_SIZE < turn < image.len(),
        ends_in_order(from_turn(image, turn)),
    ensures
        turns_at(image, turn),
{
    sectors_apart(HEADER_SIZE as int, turn);
    ends_of_a_history(image, turn);
    let newest = sector_number(image, turn, turn - SECTOR);
    let oldest = sector_number(image, turn, turn);
    assert(oldest == 0);
    assert(newest == from_turn(image, turn).len() / 512 - 1);
}

/// From the last sector of the partition to the first one the history goes on.
proof fn no_turn_at_the_start(image: Seq<u8>, turn: int)
    requires
        geometry(image.len() as int),
        sector_start(turn),
        HEADER_SIZE < turn < image.len(),
        sectors_in_order(from_turn(image, turn)),
    ensures
        !falls(record_at(image, image.len() - SECTOR), record_at(image, HEADER_SIZE as int)),
{
    let h = from_turn(image, turn);
    sector_fits(image.len() as int, turn);
    let last = sector_number(image, turn, image.len() - SECTOR);
    let first = sector_number(image, turn, HEADER_SIZE as int);
    assert(first == last + 1);
    assert(!falls(sector_first(h, last), sector_first(h, last + 1)));
}

/// The oldest sector is where the history goes on.
proof fn oldest_sector_of_a_history(image: Seq<u8>, turn: int, found: int)
    requires
        geometry(image.len() as int),
        sector_start(turn),
        HEADER_SIZE <= turn < image.len(),
        sectors_in_order(from_turn(image, turn)),
        turn != HEADER_SIZE ==> ends_in_order(from_turn(image, turn)),
        oldest_sector(image, found),
    ensures
        found == turn,
{
    if turn == HEADER_SIZE {
        if only_turn(image, found) {
            no_turn_within(image, turn, found);
        }
    } else {
        turn_at_the_end(image, turn);
        no_turn_at_the_start(image, turn);
        assert forall|q: int| #[trigger] turns_at(image, q) implies q == turn by {
            if q != turn {
                no_turn_within(image, turn, q);
            }
        }
        assert(only_turn(image, turn));
        if only_turn(image, found) {
            assert(turns_at(image, found));
        }
    }
}

proof fn next_position_is_a_slot(log: LogPartition)
    requires
        geometry(log.size as int),
        record_start(log.write_pos as int),
        HEADER_SIZE <= log.write_pos <= log.size,
    ensures
        slot(log.next_pos() as int, log.size as int),
{
    slots_apart(log.write_pos as int, log.size as int);
}

/// A full ring is found to go on where it does.
proof fn write_position_of_a_full_ring(log: LogPartition, image: Seq<u8>, lap: Lap, found: int)
    requires
        ring(log, image, lap),
        full(log, lap),
        place_is_told(log, history(log, image, lap)),
        write_position(image, found),
    ensures
        found == log.next_pos(),
{
    let at = log.next_pos() as int;
    let size = log.size as int;
    let head = HEADER_SIZE as int;
    assert forall|q: int| #[trigger] slot(q, size) implies !blank_at(image, q) by {
        assert(!erased_slot(log.write_pos as int, lap, q));
    }
    assert(oldest_sector(image, found));
    if log.write_pos == log.size {
        assert(records(image, size, size) =~= Seq::empty());
        assert(records(image, head, head) =~= Seq::empty());
    }
    assert(history(log, image, lap) =~= from_turn(image, at));
    assert(sector_start(at));
    oldest_sector_of_a_history(image, at, found);
}

proof fn write_position_of_a_ring(log: LogPartition, image: Seq<u8>, lap: Lap, found: int)
    requires
        ring(log, image, lap),
        full(log, lap) ==> place_is_told(log, history(log, image, lap)),
        write_position(image, found),
    ensures
        found == log.next_pos(),
{
    let at = log.next_pos() as int;
    let size = log.size as int;
    let write_pos = log.write_pos as int;
    if full(log, lap) {
        write_position_of_a_full_ring(log, image, lap, found);
    } else {
        next_position_is_a_slot(log);
        assert(erased_slot(write_pos, lap, at));
        assert(blank_at(image, at));
        assert(slot(found, size) && blank_at(image, found));
        assert(found <= at);
        assert(erased_slot(write_pos, lap, found));
    }
}

/// A history in order tells its place, if its first and last sectors can be
/// compared.
pub proof fn order_tells_the_place(log: LogPartition, h: Seq<Record>)
    requires
        in_order(h),
        h.len() >= 1024 ==> comparable(sector_first(h, 0), sector_first(h, h.len() / 512 - 1)),
        h.len() >= 1024 || log.next_pos() == HEADER_SIZE,
    ensures
        place_is_told(log, h),
{
    assert forall|k: int| 0 <= k && 512 * (k + 1) < h.len() implies !falls(
        #[trigger] sector_first(h, k),
        sector_first(h, k + 1),
    ) by {
        assert(!falls(h[512 * k], h[512 * (k + 1)]));
    }
    if h.len() >= 1024 {
        let k = h.len() / 512 - 1;
        assert(!falls(h[0], h[512 * k]));
        assert(!falls(h[0], h[h.len() - 1]));
    }
}

/// A restart resumes where the log had stopped, and the history is what it
/// was. Where every slot is in use only the times of the records tell where
/// that is.
pub proof fn reopening_resumes(log: LogPartition, image: Seq<u8>, lap: Lap, boot_count: u16)
    requires
        ring(log, image, lap),
        full(log, lap) ==> place_is_told(log, history(log, image, lap)),
    ensures
        ({
            let (o, image2) = opened_on(start_of_opening(log.size, boot_count), image);
            let reopened = LogPartition { write_pos: log.next_pos(), boot_count, ..log };
            &&& image2 == image
            &&& o.opened() == Some(reopened)
            &&& ring(reopened, image, wrapped_lap(log, lap))
            &&& history(reopened, image, wrapped_lap(log, lap)) == history(log, image, lap)
        }),
{
    let (o, image2) = opened_on(start_of_opening(log.size, boot_count), image);
    opening_finds_the_write_position(log.size, boot_count, image);
    write_position_of_a_ring(log, image, lap, o.opened().unwrap().write_pos as int);
    let size = log.size as int;
    let head = HEADER_SIZE as int;
    if log.write_pos == log.size {
        assert(records(image, size, size) =~= Seq::empty());
        assert(records(image, head, head) =~= Seq::empty());
    }
    let reopened = LogPartition { write_pos: log.next_pos(), boot_count, ..log };
    assert(history(reopened, image, wrapped_lap(log, lap)) =~= history(log, image, lap));
}

/// The first append after a restart keeps the newest records: the history is
/// what it was before the restart without at most 512 of its oldest records,
/// followed by the new one.
pub proof fn append_after_restart_drops_the_oldest(
    log: LogPartition,
    image: Seq<u8>,
    lap: Lap,
    boot_count: u16,
    uptime_s: u32,
    ppm: u16,
)
    requires
        ring(log, image, lap),
        full(log, lap) ==> place_is_told(log, history(log, image, lap)),
    ensures
        ({
            let reopened = opened_on(start_of_opening(log.size, boot_count), image).0.opened();
            let (log2, image2) = settled(reopened.unwrap().appending(uptime_s, ppm), image);
            let lap1 = wrapped_lap(log, lap);
            let h = history(log, image, lap);
            let dropped = dropped_by_append(reopened.unwrap(), lap1);
            &&& reopened is Some
            &&& 0 <= dropped <= h.len() && (dropped == 0 || dropped == SECTOR_RECORDS)
            &&& history(log2, image2, lap_after_append(reopened.unwrap(), lap1)) == h.skip(
                dropped,
            ).push(Record { boot_count, uptime_s, ppm })
        }),
{
    reopening_resumes(log, image, lap, boot_count);
    let reopened = LogPartition { write_pos: log.next_pos(), boot_count, ..log };
    append_extends_the_history(reopened, image, wrapped_lap(log, lap), uptime_s, ppm);
}

/// Appending a record keeps a history in order, if it breaks the order with
/// none of the records.
pub proof fn later_record_keeps_the_order(
    log: LogPartition,
    image: Seq<u8>,
    lap: Lap,
    uptime_s: u32,
    ppm: u16,
)
    requires
        ring(log, image, lap),
        in_order(history(log, image, lap)),
        forall|i: int|
            0 <= i < history(log, image, lap).len() ==> !falls(
                #[trigger] history(log, image, lap)[i],
                Record { boot_count: log.boot_count, uptime_s, ppm },
            ),
    ensures
        ({
            let (log2, image2) = settled(log.appending(uptime_s, ppm), image);
            in_order(history(log2, image2, lap_after_append(log, lap)))
        }),
{
    append_extends_the_history(log, image, lap, uptime_s, ppm);
    let record = Record { boot_count: log.boot_count, uptime_s, ppm };
    let h = history(log, image, lap);
    let d = dropped_by_append(log, lap);
    let h2 = h.skip(d).push(record);
    assert forall|i: int, j: int| 0 <= i < j < h2.len() implies !falls(
        #[trigger] h2[i],
        #[trigger] h2[j],
    ) by {
        assert(h2[i] == h[i + d]);
        if j < h2.len() - 1 {
            assert(h2[j] == h[j + d]);
        }
    }
}

/// The logger and the contents of a working partition once the opening is
/// over.
#[verifier::opaque]
pub open spec fn logger_opened_on(task: LoggerTask, image: Seq<u8>) -> (LoggerTask, Seq<u8>)
    decreases
            (match task {
                LoggerTask::Opening(opening) => steps_left(opening.stage),
                _ => 0,
            }),
            (match task {
                LoggerTask::Opening(opening) => bytes_left(opening),
                _ => 0,
            }),
{
    match task {
        LoggerTask::Opening(opening) => match opening.op() {
            Some(op) => logger_opened_on(task.served(answer(image, op)), after(image, op)),
            None => (task, image),
        },
        _ => (task, image),
    }
}

proof fn logger_follows_its_opening(opening: Opening, image: Seq<u8>)
    requires
        opening.op() is Some,
    ensures
        ({
            let (o, image2) = opened_on(opening, image);
            logger_opened_on(LoggerTask::Opening(opening), image) == (
                match o.opened() {
                    Some(log) => LoggerTask::Waiting(log),
                    None => LoggerTask::Disabled,
                },
                image2,
            )
        }),
    decreases steps_left(opening.stage), bytes_left(opening),
{
    reveal_with_fuel(opened_on, 2);
    reveal_with_fuel(logger_opened_on, 2);
    let op = opening.op().unwrap();
    let next = opening.served(answer(image, op));
    let image1 = after(image, op);
    let task = LoggerTask::Opening(opening).served(answer(image, op));
    assert(opened_on(opening, image) == opened_on(next, image1));
    assert(logger_opened_on(LoggerTask::Opening(opening), image) == logger_opened_on(task, image1));
    if next.op() is Some {
        assert(task == LoggerTask::Opening(next));
        logger_follows_its_opening(next, image1);
    } else {
        assert(opened_on(next, image1) == (next, image1));
        assert(logger_opened_on(task, image1) == (task, image1));
    }
}

/// On a working partition the logger always gets to work, whatever the
/// partition holds: it goes to sleep with an open log, at the write position
/// of an initialized log, or at the start of a log that it has initialized.
pub proof fn logger_gets_to_work(size: u32, boot_count: u16, image: Seq<u8>)
    requires
        geometry(size as int),
        image.len() == size,
    ensures
        ({
            let start = LoggerTask::Opening(start_of_opening(size, boot_count));
            let (task, image2) = logger_opened_on(start, image);
            &&& task matches LoggerTask::Waiting(log)
            &&& log.size == size && log.boot_count == boot_count && log.pending == Pending::Idle
            &&& stamped(image) ==> image2 == image && write_position(image, log.write_pos as int)
            &&& !stamped(image) ==> {
                let lap = Lap { lapped: false, frontier: HEADER_SIZE as int };
                log.write_pos == HEADER_SIZE && ring(log, image2, lap)
            }
        }),
{
    logger_follows_its_opening(start_of_opening(size, boot_count), image);
    if stamped(image) {
        opening_finds_the_write_position(size, boot_count, image);
    } else {
        opening_initializes_foreign_contents(size, boot_count, image);
    }
}

} // verus!
