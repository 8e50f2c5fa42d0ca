//! What a whole session of the logger leaves behind.
use crate::flash::{after, answer, erased, sector_start, FlashAnswer, ERASED, SECTOR};
use crate::logger::{LogPartition, LoggerTask, Pending, HEADER_SIZE, LOG_INTERVAL_S, MAGIC};
use crate::record::{
    all_ones, blank_at, comparable, encoded, falls, record_at, record_start, slot_layout,
    stored_record_reads_back, Record, RECORD, SECTOR_RECORDS,
};
use crate::restart::{
    ends_in_order, in_order, opened_on, opening_initializes_foreign_contents, order_tells_the_place,
    place_is_told, reopening_resumes, sector_first, sectors_in_order, start_of_opening,
};
use crate::ring::{
    append_extends_the_history, append_is_served, append_keeps_the_ring, append_onto_erased_slot,
    dropped_by_append, erased_slot, full, geometry, history, lap_after_append, prepared, records,
    ring, same_bytes_same_slot, sector_fits, settled, slot, stamped, wrapped_lap, Lap,
};
use vstd::arithmetic::div_mod::{
    lemma_div_pos_is_pos, lemma_fundamental_div_mod, lemma_fundamental_div_mod_converse,
    lemma_mod_bound, lemma_mod_decreases, lemma_small_mod,
};
use vstd::prelude::*;

verus! {

/// The records that a session appends for a sequence of timed readings.
pub open spec fn session_records(boot_count: u16, readings: Seq<(u32, u16)>) -> Seq<Record> {
    Seq::new(
        readings.len(),
        |i: int| Record { boot_count, uptime_s: readings[i].0, ppm: readings[i].1 },
    )
}

/// The log, the contents of a working partition and the state of the ring
/// after a sequence of timed readings was appended.
pub open spec fn logged(
    log: LogPartition,
    image: Seq<u8>,
    lap: Lap,
    readings: Seq<(u32, u16)>,
) -> (LogPartition, Seq<u8>, Lap)
    decreases readings.len(),
{
    if readings.len() == 0 {
        (log, image, lap)
    } else {
        let (log1, image1, lap1) = logged(log, image, lap, readings.drop_last());
        let (log2, image2) = settled(
            log1.appending(readings.last().0, readings.last().1),
            image1,
        );
        (log2, image2, lap_after_append(log1, lap1))
    }
}

/// However many readings a session appends, the stored history is the end of
/// what was stored before followed by those readings, and all of it as long
/// as the ring has not wrapped around.
pub proof fn session_is_logged(
    log: LogPartition,
    image: Seq<u8>,
    lap: Lap,
    readings: Seq<(u32, u16)>,
)
    requires
        ring(log, image, lap),
        forall|i: int|
            0 <= i < readings.len() ==> !all_ones(
                #[trigger] session_records(log.boot_count, readings)[i],
            ),
    ensures
        ({
            let (log2, image2, lap2) = logged(log, image, lap, readings);
            let all = history(log, image, lap) + session_records(log.boot_count, readings);
            &&& ring(log2, image2, lap2)
            &&& log2.boot_count == log.boot_count
            &&& log2.size == log.size
            &&& lap.lapped ==> lap2.lapped
            &&& history(log2, image2, lap2).is_suffix_of(all)
            &&& !lap2.lapped ==> history(log2, image2, lap2) == all
        }),
    decreases readings.len(),
{
    let recs = session_records(log.boot_count, readings);
    let all = history(log, image, lap) + recs;
    if readings.len() == 0 {
        assert(all =~= history(log, image, lap));
    } else {
        let rest = readings.drop_last();
        let recs1 = session_records(log.boot_count, rest);
        assert(recs1 =~= recs.drop_last());
        assert forall|i: int| 0 <= i < rest.len() implies !all_ones(#[trigger] recs1[i]) by {
            assert(recs1[i] == recs[i]);
        }
        session_is_logged(log, image, lap, rest);
        let (log1, image1, lap1) = logged(log, image, lap, rest);
        let (uptime_s, ppm) = readings.last();
        let record = recs.last();
        assert(record == recs[readings.len() - 1]);
        append_keeps_the_ring(log1, image1, lap1, uptime_s, ppm);
        append_extends_the_history(log1, image1, lap1, uptime_s, ppm);
        append_is_served(log1, image1, uptime_s, ppm);
        let all1 = history(log, image, lap) + recs1;
        let h1 = history(log1, image1, lap1);
        assert(all =~= all1.push(record));
        suffix_grows(h1, all1, dropped_by_append(log1, lap1), record);
    }
}

proof fn suffix_grows(kept: Seq<Record>, all: Seq<Record>, dropped: int, record: Record)
    requires
        kept.is_suffix_of(all),
        0 <= dropped <= kept.len(),
    ensures
        kept.skip(dropped).push(record).is_suffix_of(all.push(record)),
        dropped == 0 ==> kept.skip(dropped).push(record) == kept.push(record),
{
    let grown = all.push(record);
    let now = kept.skip(dropped).push(record);
    assert(now =~= grown.subrange(grown.len() - now.len(), grown.len() as int));
    if dropped == 0 {
        assert(kept.skip(0) =~= kept);
    }
}

/// How many records a partition of `size` bytes has slots for.
pub open spec fn capacity(size: int) -> int {
    (size - HEADER_SIZE) / 8
}

/// How many records of a session of `n` records a ring with `slots` slots
/// still holds: all of them, or as many as fit beside the part of the current
/// sector that is still erased.
pub open spec fn kept(n: int, slots: int) -> int {
    let most = slots - SECTOR_RECORDS + (n - 1) % 512 + 1;
    if n <= most {
        n
    } else {
        most
    }
}

/// The offset of record number `i` of a session that began with an empty log.
pub open spec fn place(i: int, slots: int) -> int {
    HEADER_SIZE + 8 * (i % slots)
}

/// What slot number `j` holds after `turn + last + 1` records, `turn` of them
/// in full laps and the newest in slot `last` (-1 if there is none).
#[verifier::opaque]
spec fn cell(image: Seq<u8>, recs: Seq<Record>, slots: int, turn: int, last: int, j: int) -> bool {
    let at = HEADER_SIZE + 8 * j;
    if j <= last {
        image.subrange(at, at + RECORD) == encoded(recs[turn + j])
    } else if j < 512 * (last / 512 + 1) || turn == 0 {
        blank_at(image, at)
    } else {
        image.subrange(at, at + RECORD) == encoded(recs[turn - slots + j])
    }
}

spec fn laid_out(image: Seq<u8>, recs: Seq<Record>, slots: int, turn: int, last: int) -> bool {
    forall|j: int| 0 <= j < slots ==> #[trigger] cell(image, recs, slots, turn, last, j)
}

/// The slot of the newest of `n` records, -1 if there is none.
spec fn last_slot(n: int, slots: int) -> int {
    if n == 0 {
        -1
    } else {
        (n - 1) % slots
    }
}

/// The slot after `last`, going round.
spec fn slot_after(last: int, slots: int) -> int {
    if last + 1 == slots {
        0
    } else {
        last + 1
    }
}

/// The records in full laps once the slot after `last` is written too.
spec fn turn_after(turn: int, last: int, slots: int) -> int {
    if last + 1 == slots {
        turn + slots
    } else {
        turn
    }
}

proof fn next_slot(n: int, slots: int)
    requires
        0 <= n,
        0 < slots,
    ensures
        ({
            let last = last_slot(n, slots);
            &&& -1 <= last < slots && last < n
            &&& n - 1 - last == 0 || slots <= n - 1 - last
            &&& last_slot(n + 1, slots) == slot_after(last, slots)
        }),
{
    if n == 0 {
        lemma_small_mod(0, slots as nat);
    } else {
        let q = (n - 1) / slots;
        let last = (n - 1) % slots;
        lemma_fundamental_div_mod(n - 1, slots);
        lemma_mod_bound(n - 1, slots);
        lemma_mod_decreases((n - 1) as nat, slots as nat);
        assert(slots * q == q * slots) by (nonlinear_arith);
        assert(q == 0 ==> q * slots == 0) by (nonlinear_arith);
        assert(q >= 1 ==> q * slots >= slots) by (nonlinear_arith)
            requires
                slots > 0,
        ;
        lemma_div_pos_is_pos(n - 1, slots);
        if last + 1 == slots {
            assert((q + 1) * slots == q * slots + slots) by (nonlinear_arith);
            lemma_fundamental_div_mod_converse(n, slots, q + 1, 0);
        } else {
            lemma_fundamental_div_mod_converse(n, slots, q, last + 1);
        }
    }
}

/// A slot outside what an append touches holds what it held.
proof fn cell_unchanged(image: Seq<u8>, image2: Seq<u8>, at: int)
    requires
        0 <= at,
        at + RECORD <= image.len(),
        image2.len() == image.len(),
        forall|i: int| at <= i < at + RECORD ==> image2[i] == image[i],
    ensures
        image2.subrange(at, at + RECORD) == image.subrange(at, at + RECORD),
        blank_at(image2, at) == blank_at(image, at),
{
    assert(image2.subrange(at, at + RECORD) =~= image.subrange(at, at + RECORD));
    same_bytes_same_slot(image, image2, at);
}

/// Whether `image2` is `image` with `record` written in slot number `now`, and
/// the rest of the sector erased if that is its first slot.
#[verifier::opaque]
spec fn overwritten(image: Seq<u8>, image2: Seq<u8>, now: int, record: Record) -> bool {
    let at = HEADER_SIZE + 8 * now;
    let end = if now % 512 == 0 {
        at + SECTOR
    } else {
        at + RECORD
    };
    &&& image2.len() == image.len()
    &&& image2.subrange(at, at + RECORD) == encoded(record)
    &&& forall|i: int| 0 <= i < image.len() && !(at <= i < end) ==> image2[i] == image[i]
    &&& forall|i: int| at + RECORD <= i < end ==> image2[i] == ERASED
}

/// How one more record changes slot number `j`.
proof fn cell_after_append(
    image: Seq<u8>,
    image2: Seq<u8>,
    recs: Seq<Record>,
    record: Record,
    slots: int,
    turn: int,
    last: int,
    j: int,
)
    requires
        0 <= j < slots,
        slots % 512 == 0,
        image.len() == HEADER_SIZE + 8 * slots,
        -1 <= last < slots,
        turn == 0 || slots <= turn,
        recs.len() == turn + last + 1,
        cell(image, recs, slots, turn, last, j),
        overwritten(image, image2, slot_after(last, slots), record),
    ensures
        ({
            let now = slot_after(last, slots);
            let turn2 = turn_after(turn, last, slots);
            cell(image2, recs.push(record), slots, turn2, now, j)
        }),
{
    reveal(cell);
    reveal(overwritten);
    let now = slot_after(last, slots);
    let at = HEADER_SIZE + 8 * now;
    let end = if now % 512 == 0 {
        at + SECTOR
    } else {
        at + RECORD
    };
    let q = HEADER_SIZE + 8 * j;
    if j != now && !(at < q < end) {
        assert forall|i: int| q <= i < q + RECORD implies image2[i] == image[i] by {}
        cell_unchanged(image, image2, q);
    }
    if at < q < end {
        assert(blank_at(image2, q));
    }
}

proof fn slots_in_sectors(size: int, now: int)
    requires
        geometry(size),
    ensures
        capacity(size) % 512 == 0,
        512 <= capacity(size),
        size == HEADER_SIZE + 8 * capacity(size),
        sector_start(HEADER_SIZE + 8 * now) == (now % 512 == 0),
{
}

proof fn within_a_sector(last: int)
    requires
        (last + 1) % 512 != 0,
    ensures
        last + 1 < 512 * (last / 512 + 1),
{
}

/// The slot that the next record goes to is erased when it gets there.
proof fn next_cell_is_erased(
    log: LogPartition,
    image: Seq<u8>,
    recs: Seq<Record>,
    turn: int,
    last: int,
)
    requires
        geometry(log.size as int),
        image.len() == log.size,
        -1 <= last < capacity(log.size as int),
        log.write_pos == HEADER_SIZE + 8 * (last + 1),
        laid_out(image, recs, capacity(log.size as int), turn, last),
    ensures
        ({
            let slots = capacity(log.size as int);
            let now = slot_after(last, slots);
            &&& log.next_pos() == HEADER_SIZE + 8 * now
            &&& sector_start(log.next_pos() as int) == (now % 512 == 0)
            &&& slots % 512 == 0
            &&& log.size == HEADER_SIZE + 8 * slots
            &&& record_start(log.write_pos as int) && log.write_pos <= log.size
            &&& blank_at(prepared(log, image), log.next_pos() as int)
        }),
{
    let slots = capacity(log.size as int);
    let now = slot_after(last, slots);
    let at = HEADER_SIZE + 8 * now;
    slots_in_sectors(log.size as int, now);
    if now % 512 == 0 {
        sector_fits(log.size as int, at);
        assert(blank_at(erased(image, at, SECTOR as int), at));
    } else {
        within_a_sector(last);
        assert(cell(image, recs, slots, turn, last, now));
        assert(blank_at(image, at)) by {
            reveal(cell);
        }
    }
}

/// What an append does to the slots.
proof fn append_overwrites(log: LogPartition, image: Seq<u8>, now: int, uptime_s: u32, ppm: u16)
    requires
        geometry(log.size as int),
        image.len() == log.size,
        stamped(image),
        record_start(log.write_pos as int),
        HEADER_SIZE <= log.write_pos <= log.size,
        log.next_pos() == HEADER_SIZE + 8 * now,
        sector_start(log.next_pos() as int) == (now % 512 == 0),
        blank_at(prepared(log, image), log.next_pos() as int),
    ensures
        ({
            let (log2, image2) = settled(log.appending(uptime_s, ppm), image);
            let record = Record { boot_count: log.boot_count, uptime_s, ppm };
            &&& log2 == (LogPartition {
                write_pos: (HEADER_SIZE + 8 * (now + 1)) as u32,
                pending: Pending::Idle,
                ..log
            })
            &&& stamped(image2)
            &&& image2.len() == image.len()
            &&& overwritten(image, image2, now, record)
        }),
{
    reveal(overwritten);
    append_onto_erased_slot(log, image, uptime_s, ppm);
    let (log2, image2) = settled(log.appending(uptime_s, ppm), image);
    assert(image2.subrange(0, MAGIC@.len() as int) =~= image.subrange(0, MAGIC@.len() as int));
}

proof fn layout_after_append(
    log: LogPartition,
    image: Seq<u8>,
    recs: Seq<Record>,
    turn: int,
    last: int,
    uptime_s: u32,
    ppm: u16,
)
    requires
        geometry(log.size as int),
        image.len() == log.size,
        stamped(image),
        -1 <= last < capacity(log.size as int),
        turn == 0 || capacity(log.size as int) <= turn,
        recs.len() == turn + last + 1,
        log.write_pos == HEADER_SIZE + 8 * (last + 1),
        laid_out(image, recs, capacity(log.size as int), turn, last),
    ensures
        ({
            let (log2, image2) = settled(log.appending(uptime_s, ppm), image);
            let record = Record { boot_count: log.boot_count, uptime_s, ppm };
            let slots = capacity(log.size as int);
            let now = slot_after(last, slots);
            let turn2 = turn_after(turn, last, slots);
            &&& log2 == (LogPartition {
                write_pos: (HEADER_SIZE + 8 * (now + 1)) as u32,
                pending: Pending::Idle,
                ..log
            })
            &&& image2.len() == image.len()
            &&& stamped(image2)
            &&& laid_out(image2, recs.push(record), slots, turn2, now)
        }),
{
    let slots = capacity(log.size as int);
    let record = Record { boot_count: log.boot_count, uptime_s, ppm };
    let now = slot_after(last, slots);
    let turn2 = turn_after(turn, last, slots);
    next_cell_is_erased(log, image, recs, turn, last);
    append_overwrites(log, image, now, uptime_s, ppm);
    let (log2, image2) = settled(log.appending(uptime_s, ppm), image);
    assert forall|j: int| 0 <= j < slots implies #[trigger] cell(
        image2,
        recs.push(record),
        slots,
        turn2,
        now,
        j,
    ) by {
        assert(cell(image, recs, slots, turn, last, j));
        cell_after_append(image, image2, recs, record, slots, turn, last, j);
    }
}

/// Where a ring stands that has `turn` records in full laps and the newest in
/// slot `last`.
spec fn lap_at(turn: int, last: int) -> Lap {
    Lap { lapped: turn > 0, frontier: HEADER_SIZE + 4096 * (last / 512 + 1) }
}

proof fn lap_goes_on(log: LogPartition, turn: int, last: int)
    requires
        geometry(log.size as int),
        -1 <= last < capacity(log.size as int),
        0 <= turn,
        log.write_pos == HEADER_SIZE + 8 * (last + 1),
    ensures
        ({
            let slots = capacity(log.size as int);
            lap_after_append(log, lap_at(turn, last)) == lap_at(
                turn_after(turn, last, slots),
                slot_after(last, slots),
            )
        }),
{
    let slots = capacity(log.size as int);
    slots_in_sectors(log.size as int, slot_after(last, slots));
}

/// Where an empty ring stands.
pub open spec fn first_lap() -> Lap {
    Lap { lapped: false, frontier: HEADER_SIZE as int }
}

/// The slots of a session that begins with an empty log.
proof fn session_layout(log: LogPartition, image: Seq<u8>, readings: Seq<(u32, u16)>)
    requires
        geometry(log.size as int),
        image.len() == log.size,
        log.write_pos == HEADER_SIZE,
        log.pending == Pending::Idle,
        stamped(image),
        forall|at: int| #[trigger] slot(at, log.size as int) ==> blank_at(image, at),
    ensures
        ({
            let (log2, image2, lap2) = logged(log, image, first_lap(), readings);
            let recs = session_records(log.boot_count, readings);
            let slots = capacity(log.size as int);
            let last = last_slot(readings.len() as int, slots);
            &&& log2 == (LogPartition { write_pos: (HEADER_SIZE + 8 * (last + 1)) as u32, ..log })
            &&& lap2 == lap_at(readings.len() - 1 - last, last)
            &&& image2.len() == image.len()
            &&& stamped(image2)
            &&& laid_out(image2, recs, slots, readings.len() - 1 - last, last)
        }),
    decreases readings.len(),
{
    let recs = session_records(log.boot_count, readings);
    let slots = capacity(log.size as int);
    if readings.len() == 0 {
        assert forall|j: int| 0 <= j < slots implies #[trigger] cell(
            image,
            recs,
            slots,
            0,
            -1,
            j,
        ) by {
            reveal(cell);
            assert(slot(HEADER_SIZE + 8 * j, log.size as int));
        }
    } else {
        let rest = readings.drop_last();
        let n = rest.len() as int;
        session_layout(log, image, rest);
        next_slot(n, slots);
        let (log1, image1, lap1) = logged(log, image, first_lap(), rest);
        let recs1 = session_records(log.boot_count, rest);
        let (uptime_s, ppm) = readings.last();
        let record = Record { boot_count: log.boot_count, uptime_s, ppm };
        assert(recs =~= recs1.push(record));
        let last = last_slot(n, slots);
        lap_goes_on(log1, n - 1 - last, last);
        layout_after_append(log1, image1, recs1, n - 1 - last, last, uptime_s, ppm);
    }
}

/// The slots that a session's records are in, counted from the oldest that is
/// kept.
proof fn kept_slots(n: int, slots: int)
    requires
        1 <= n,
        512 <= slots,
        slots % 512 == 0,
    ensures
        ({
            let last = last_slot(n, slots);
            let turn = n - 1 - last;
            &&& 0 <= last < slots && 0 <= turn
            &&& turn == 0 ==> kept(n, slots) == n
            &&& turn > 0 ==> slots <= turn && n - kept(n, slots) == turn - slots + 512 * (last / 512
                + 1)
            &&& forall|i: int| turn <= i < n ==> #[trigger] (i % slots) == i - turn
            &&& forall|i: int|
                0 <= i && turn - slots <= i < turn ==> #[trigger] (i % slots) == i - turn + slots
        }),
{
    let last = last_slot(n, slots);
    let turn = n - 1 - last;
    let q = (n - 1) / slots;
    next_slot(n, slots);
    lemma_fundamental_div_mod(n - 1, slots);
    lemma_mod_bound(n - 1, slots);
    assert(turn == q * slots) by {
        assert(slots * q == q * slots) by (nonlinear_arith);
    }
    let sectors = slots / 512;
    assert(q * slots == 512 * (q * sectors)) by (nonlinear_arith)
        requires
            slots == 512 * sectors,
    ;
    let s = q * sectors;
    assert(n - 1 == 512 * s + last);
    assert((n - 1) % 512 == last % 512);
    assert forall|i: int| turn <= i < n implies #[trigger] (i % slots) == i - turn by {
        lemma_fundamental_div_mod_converse(i, slots, q, i - turn);
    }
    assert forall|i: int| 0 <= i && turn - slots <= i < turn implies #[trigger] (i % slots) == i
        - turn + slots by {
        assert((q - 1) * slots == q * slots - slots) by (nonlinear_arith);
        lemma_fundamental_div_mod_converse(i, slots, q - 1, i - turn + slots);
    }
}

proof fn kept_record(image: Seq<u8>, recs: Seq<Record>, slots: int, i: int)
    requires
        512 <= slots,
        slots % 512 == 0,
        image.len() == HEADER_SIZE + 8 * slots,
        recs.len() > 0,
        ({
            let n = recs.len() as int;
            let last = last_slot(n, slots);
            laid_out(image, recs, slots, n - 1 - last, last)
        }),
        recs.len() - kept(recs.len() as int, slots) <= i < recs.len(),
    ensures
        slot(place(i, slots), image.len() as int),
        image.subrange(place(i, slots), place(i, slots) + RECORD) == encoded(recs[i]),
        record_at(image, place(i, slots)) == recs[i],
{
    let n = recs.len() as int;
    let last = last_slot(n, slots);
    let turn = n - 1 - last;
    kept_slots(n, slots);
    let j = i % slots;
    assert(0 <= j < slots);
    assert(cell(image, recs, slots, turn, last, j));
    assert(image.subrange(place(i, slots), place(i, slots) + RECORD) == encoded(recs[i])) by {
        reveal(cell);
    }
    stored_record_reads_back(recs[i], image, place(i, slots));
}

/// A slot without a record is erased.
proof fn slot_without_record(image: Seq<u8>, recs: Seq<Record>, slots: int, at: int)
    requires
        512 <= slots,
        slots % 512 == 0,
        image.len() == HEADER_SIZE + 8 * slots,
        recs.len() > 0,
        ({
            let n = recs.len() as int;
            let last = last_slot(n, slots);
            laid_out(image, recs, slots, n - 1 - last, last)
        }),
        slot(at, image.len() as int),
        forall|i: int|
            recs.len() - kept(recs.len() as int, slots) <= i < recs.len() ==> at
                != #[trigger] place(i, slots),
    ensures
        blank_at(image, at),
{
    let n = recs.len() as int;
    let last = last_slot(n, slots);
    let turn = n - 1 - last;
    kept_slots(n, slots);
    let j = (at - HEADER_SIZE) / 8;
    assert(0 <= j < slots && at == HEADER_SIZE + 8 * j);
    assert(cell(image, recs, slots, turn, last, j));
    if j <= last {
        assert((turn + j) % slots == j);
        assert(place(turn + j, slots) == at);
    } else if turn > 0 && j >= 512 * (last / 512 + 1) {
        assert((turn - slots + j) % slots == j);
        assert(place(turn - slots + j, slots) == at);
    } else {
        reveal(cell);
    }
}

/// Whether a partition with contents `image` holds the newest of the records
/// `recs`, as many as are kept, each in its place, and nothing else: every
/// other slot is erased.
pub open spec fn holds_newest(image: Seq<u8>, recs: Seq<Record>) -> bool {
    let n = recs.len() as int;
    let slots = capacity(image.len() as int);
    &&& 0 < kept(n, slots) <= n
    &&& forall|i: int|
        n - kept(n, slots) <= i < n ==> {
            &&& slot(#[trigger] place(i, slots), image.len() as int)
            &&& image.subrange(place(i, slots), place(i, slots) + RECORD) == encoded(recs[i])
            &&& record_at(image, place(i, slots)) == recs[i]
        }
    &&& forall|at: int| #[trigger]
        slot(at, image.len() as int) && (forall|i: int|
            n - kept(n, slots) <= i < n ==> at != #[trigger] place(i, slots)) ==> blank_at(
            image,
            at,
        )
}

proof fn layout_holds_newest(image: Seq<u8>, recs: Seq<Record>)
    requires
        geometry(image.len() as int),
        recs.len() > 0,
        ({
            let n = recs.len() as int;
            let slots = capacity(image.len() as int);
            let last = last_slot(n, slots);
            laid_out(image, recs, slots, n - 1 - last, last)
        }),
    ensures
        holds_newest(image, recs),
{
    let n = recs.len() as int;
    let slots = capacity(image.len() as int);
    slots_in_sectors(image.len() as int, 0);
    kept_slots(n, slots);
    assert forall|i: int| n - kept(n, slots) <= i < n implies {
        &&& slot(#[trigger] place(i, slots), image.len() as int)
        &&& image.subrange(place(i, slots), place(i, slots) + RECORD) == encoded(recs[i])
        &&& record_at(image, place(i, slots)) == recs[i]
    } by {
        kept_record(image, recs, slots, i);
    }
    assert forall|at: int| #[trigger]
        slot(at, image.len() as int) && (forall|i: int|
            n - kept(n, slots) <= i < n ==> at != #[trigger] place(i, slots)) implies blank_at(
        image,
        at,
    ) by {
        slot_without_record(image, recs, slots, at);
    }
}

/// What a session leaves on a partition that held no log, after `n` readings:
/// the newest `kept(n, slots)` of its records, each in its place, and nothing
/// else. Every other slot is erased, and the header has its magic bytes.
pub proof fn session_on_a_new_log(
    size: u32,
    boot_count: u16,
    image: Seq<u8>,
    readings: Seq<(u32, u16)>,
)
    requires
        geometry(size as int),
        image.len() == size,
        !stamped(image),
        readings.len() > 0,
    ensures
        ({
            let (o, image1) = opened_on(start_of_opening(size, boot_count), image);
            let log = o.opened().unwrap();
            let (log2, image2, lap2) = logged(log, image1, first_lap(), readings);
            let recs = session_records(boot_count, readings);
            let slots = capacity(size as int);
            let n = readings.len() as int;
            &&& o.opened() is Some
            &&& log2.write_pos == place(n - 1, slots) + RECORD
            &&& stamped(image2)
            &&& holds_newest(image2, recs)
        }),
{
    opening_initializes_foreign_contents(size, boot_count, image);
    let (o, image1) = opened_on(start_of_opening(size, boot_count), image);
    let log = o.opened().unwrap();
    assert forall|at: int| #[trigger] slot(at, size as int) implies blank_at(image1, at) by {
        assert(erased_slot(HEADER_SIZE as int, first_lap(), at));
    }
    session_layout(log, image1, readings);
    let (log2, image2, lap2) = logged(log, image1, first_lap(), readings);
    let recs = session_records(boot_count, readings);
    slots_in_sectors(size as int, 0);
    kept_slots(recs.len() as int, capacity(size as int));
    layout_holds_newest(image2, recs);
}

/// A ring of a first session that has no erased slot holds whole sectors.
proof fn full_session(size: int, n: int, log: LogPartition)
    requires
        geometry(size),
        1 <= n,
        log.size == size,
        log.write_pos == HEADER_SIZE + 8 * (last_slot(n, capacity(size)) + 1),
        full(log, lap_at(n - 1 - last_slot(n, capacity(size)), last_slot(n, capacity(size)))),
    ensures
        ({
            let slots = capacity(size);
            let last = last_slot(n, slots);
            &&& n % 512 == 0 && slots <= n
            &&& kept(n, slots) == slots
            &&& (last + 1) % 512 == 0
            &&& (n - slots) % 512 == 0
            &&& log.next_pos() == HEADER_SIZE || slots >= 1024
        }),
{
    let slots = capacity(size);
    let last = last_slot(n, slots);
    slots_in_sectors(size, 0);
    kept_slots(n, slots);
    next_slot(n, slots);
    assert((last + 1) % 512 == 0);
    whole_sectors(n, slots, last);
    if log.next_pos() != HEADER_SIZE {
        two_sectors(last + 1, slots);
    }
}

proof fn two_sectors(used: int, slots: int)
    requires
        0 < used < slots,
        used % 512 == 0,
        slots % 512 == 0,
    ensures
        slots >= 1024,
{
}

proof fn whole_sectors(n: int, slots: int, last: int)
    requires
        1 <= n,
        512 <= slots,
        slots % 512 == 0,
        last == (n - 1) % slots,
        (last + 1) % 512 == 0,
    ensures
        n % 512 == 0,
        (n - 1) % 512 == 511,
{
    let q = (n - 1) / slots;
    let sectors = slots / 512;
    lemma_fundamental_div_mod(n - 1, slots);
    assert(slots * q == 512 * (q * sectors)) by (nonlinear_arith)
        requires
            slots == 512 * sectors,
    ;
    let s = q * sectors;
    assert(n == 512 * s + last + 1);
}

/// The history of a first session that fills the ring: its newest records.
proof fn history_of_a_full_session(
    log: LogPartition,
    image: Seq<u8>,
    recs: Seq<Record>,
    i: int,
)
    requires
        geometry(log.size as int),
        image.len() == log.size,
        recs.len() > 0,
        ({
            let n = recs.len() as int;
            let slots = capacity(log.size as int);
            let last = last_slot(n, slots);
            &&& log.write_pos == HEADER_SIZE + 8 * (last + 1)
            &&& laid_out(image, recs, slots, n - 1 - last, last)
            &&& full(log, lap_at(n - 1 - last, last))
        }),
        0 <= i < capacity(log.size as int),
    ensures
        ({
            let n = recs.len() as int;
            let slots = capacity(log.size as int);
            let last = last_slot(n, slots);
            let h = history(log, image, lap_at(n - 1 - last, last));
            h.len() == slots && h[i] == recs[n - slots + i]
        }),
{
    let n = recs.len() as int;
    let size = log.size as int;
    let head = HEADER_SIZE as int;
    let slots = capacity(size);
    let last = last_slot(n, slots);
    let turn = n - 1 - last;
    let lap = lap_at(turn, last);
    let h = history(log, image, lap);
    slots_in_sectors(size, 0);
    full_session(size, n, log);
    kept_slots(n, slots);
    kept_record(image, recs, slots, n - slots + i);
    let behind = records(image, head, log.write_pos as int);
    assert(behind.len() == last + 1);
    if last + 1 == slots {
        assert(lap.frontier == size);
        assert(records(image, size, size) =~= Seq::empty());
        assert(h =~= behind);
        assert((n - slots + i) % slots == i);
    } else {
        let ahead = records(image, log.write_pos as int, size);
        assert(lap.frontier == log.write_pos && lap.lapped);
        assert(ahead.len() == slots - 1 - last);
        assert(h == ahead + behind);
        if i < ahead.len() {
            assert((n - slots + i) % slots == i + last + 1);
        } else {
            assert((n - slots + i) % slots == i - ahead.len());
        }
    }
}

/// Whether the first reading of every 512 comes before all that follow it.
pub open spec fn seconds_grow(readings: Seq<(u32, u16)>) -> bool {
    forall|i: int, j: int|
        0 <= i < j < readings.len() && i % 512 == 0 ==> (#[trigger] readings[i]).0 < (
        #[trigger] readings[j]).0
}

/// The records of a session, from number `a` on, in whole sectors.
proof fn growing_seconds_are_in_order(
    boot_count: u16,
    readings: Seq<(u32, u16)>,
    a: int,
    h: Seq<Record>,
)
    requires
        seconds_grow(readings),
        0 <= a,
        a % 512 == 0,
        h.len() == readings.len() - a,
        forall|i: int|
            0 <= i < h.len() ==> #[trigger] h[i] == session_records(boot_count, readings)[a + i],
    ensures
        sectors_in_order(h),
        h.len() >= 1024 ==> ends_in_order(h),
{
    let recs = session_records(boot_count, readings);
    assert forall|k: int| 0 <= k && 512 * (k + 1) < h.len() implies !falls(
        #[trigger] sector_first(h, k),
        sector_first(h, k + 1),
    ) by {
        let i = a + 512 * k;
        assert(i % 512 == 0);
        assert(h[512 * k] == recs[i] && h[512 * (k + 1)] == recs[i + 512]);
        assert(readings[i].0 < readings[i + 512].0);
    }
    if h.len() >= 1024 {
        let k = h.len() / 512 - 1;
        assert(h[512 * k] == recs[a + 512 * k] && h[0] == recs[a + 0]);
        assert(h[h.len() - 1] == recs[a + (h.len() - 1)]);
        assert(readings[a].0 < readings[a + 512 * k].0);
        assert(readings[a].0 < readings[a + h.len() - 1].0);
    }
}

/// A first session with growing seconds tells its place.
proof fn first_session_tells_its_place(
    log: LogPartition,
    image: Seq<u8>,
    readings: Seq<(u32, u16)>,
)
    requires
        geometry(log.size as int),
        image.len() == log.size,
        readings.len() > 0,
        seconds_grow(readings),
        ({
            let n = readings.len() as int;
            let slots = capacity(log.size as int);
            let last = last_slot(n, slots);
            let recs = session_records(log.boot_count, readings);
            &&& log.write_pos == HEADER_SIZE + 8 * (last + 1)
            &&& laid_out(image, recs, slots, n - 1 - last, last)
            &&& full(log, lap_at(n - 1 - last, last))
        }),
    ensures
        ({
            let n = readings.len() as int;
            let last = last_slot(n, capacity(log.size as int));
            place_is_told(log, history(log, image, lap_at(n - 1 - last, last)))
        }),
{
    let n = readings.len() as int;
    let size = log.size as int;
    let slots = capacity(size);
    let last = last_slot(n, slots);
    let recs = session_records(log.boot_count, readings);
    let h = history(log, image, lap_at(n - 1 - last, last));
    slots_in_sectors(size, 0);
    full_session(size, n, log);
    next_slot(n, slots);
    history_of_a_full_session(log, image, recs, 0);
    assert forall|i: int| 0 <= i < h.len() implies #[trigger] h[i] == recs[n - slots + i] by {
        history_of_a_full_session(log, image, recs, i);
    }
    growing_seconds_are_in_order(log.boot_count, readings, n - slots, h);
}

/// A restart makes no difference to what is kept. After `n` readings on a
/// partition that held no log, a restart and one more record, the partition
/// holds the newest of the `n + 1` records, just as if there had been no
/// restart: where room has to be made, it is made by the oldest sector. Only
/// where the restart finds every slot in use do the seconds have to grow, from
/// the first reading of each sector to all that follow it.
pub proof fn restart_keeps_the_newest(
    size: u32,
    boot_count: u16,
    image: Seq<u8>,
    readings: Seq<(u32, u16)>,
    next_boot: u16,
    uptime_s: u32,
    ppm: u16,
)
    requires
        geometry(size as int),
        image.len() == size,
        !stamped(image),
        readings.len() > 0,
        readings.len() % 512 == 0 && readings.len() >= capacity(size as int) ==> seconds_grow(
            readings,
        ),
        forall|i: int|
            0 <= i < readings.len() ==> !all_ones(
                #[trigger] session_records(boot_count, readings)[i],
            ),
    ensures
        ({
            let (o, image1) = opened_on(start_of_opening(size, boot_count), image);
            let (log2, image2, lap2) = logged(o.opened().unwrap(), image1, first_lap(), readings);
            let (o3, image3) = opened_on(start_of_opening(size, next_boot), image2);
            let (log4, image4) = settled(o3.opened().unwrap().appending(uptime_s, ppm), image3);
            let record = Record { boot_count: next_boot, uptime_s, ppm };
            &&& o.opened() is Some && o3.opened() is Some
            &&& image3 == image2
            &&& stamped(image4)
            &&& holds_newest(image4, session_records(boot_count, readings).push(record))
        }),
{
    opening_initializes_foreign_contents(size, boot_count, image);
    let (o, image1) = opened_on(start_of_opening(size, boot_count), image);
    let log = o.opened().unwrap();
    assert forall|at: int| #[trigger] slot(at, size as int) implies blank_at(image1, at) by {
        assert(erased_slot(HEADER_SIZE as int, first_lap(), at));
    }
    session_layout(log, image1, readings);
    session_is_logged(log, image1, first_lap(), readings);
    let (log2, image2, lap2) = logged(log, image1, first_lap(), readings);
    let recs = session_records(boot_count, readings);
    let n = readings.len() as int;
    let slots = capacity(size as int);
    let last = last_slot(n, slots);
    slots_in_sectors(size as int, 0);
    next_slot(n, slots);
    if full(log2, lap2) {
        full_session(size as int, n, log2);
        first_session_tells_its_place(log2, image2, readings);
    }
    reopening_resumes(log2, image2, lap2, next_boot);
    let resumed = LogPartition { boot_count: next_boot, ..log2 };
    let reopened = LogPartition { write_pos: log2.next_pos(), boot_count: next_boot, ..log2 };
    assert(reopened.appending(uptime_s, ppm) == resumed.appending(uptime_s, ppm));
    layout_after_append(resumed, image2, recs, n - 1 - last, last, uptime_s, ppm);
    let record = Record { boot_count: next_boot, uptime_s, ppm };
    let (log4, image4) = settled(resumed.appending(uptime_s, ppm), image2);
    layout_holds_newest(image4, recs.push(record));
}

/// What the logger finds when it wakes up: the latest reading, 0 while there
/// has been none, and the seconds since this boot.
pub struct Tick {
    pub last_ppm: u32,
    pub uptime_s: u64,
}

/// The logger and the contents of a working partition once the logger is
/// asleep again.
#[verifier::opaque]
pub open spec fn asleep(task: LoggerTask, image: Seq<u8>) -> (LoggerTask, Seq<u8>)
    decreases (
        match task {
            LoggerTask::Appending(log) => match log.pending {
                Pending::Erase(_) => 2int,
                Pending::Write(_) => 1,
                Pending::Idle => 0,
            },
            _ => 0,
        }),
{
    match task {
        LoggerTask::Appending(log) => match log.op() {
            Some(op) => asleep(task.served(answer(image, op)), after(image, op)),
            None => (task, image),
        },
        _ => (task, image),
    }
}

/// The logger and the contents of a working partition after a number of
/// ticks, from each of which the logger went back to sleep.
pub open spec fn ticked(task: LoggerTask, image: Seq<u8>, ticks: Seq<Tick>) -> (LoggerTask, Seq<u8>)
    decreases ticks.len(),
{
    if ticks.len() == 0 {
        (task, image)
    } else {
        let (task1, image1) = ticked(task, image, ticks.drop_last());
        asleep(task1.woken(ticks.last().last_ppm, ticks.last().uptime_s), image1)
    }
}

/// What a tick has to say: its seconds and its reading, each cut to the width
/// of its field in a record.
pub open spec fn cut(tick: Tick) -> (u32, u16) {
    ((tick.uptime_s % 0x1_0000_0000) as u32, (tick.last_ppm % 0x1_0000) as u16)
}

/// The timed readings of those ticks that have a reading, in their order.
pub open spec fn readings_of(ticks: Seq<Tick>) -> Seq<(u32, u16)> {
    ticks.filter(|tick: Tick| tick.last_ppm != 0).map_values(|tick: Tick| cut(tick))
}

proof fn readings_grow(ticks: Seq<Tick>)
    requires
        ticks.len() > 0,
    ensures
        readings_of(ticks) == if ticks.last().last_ppm != 0 {
            readings_of(ticks.drop_last()).push(cut(ticks.last()))
        } else {
            readings_of(ticks.drop_last())
        },
        readings_of(ticks.drop_last()).len() <= ticks.len() - 1,
{
    let has_reading = |tick: Tick| tick.last_ppm != 0;
    let rest = ticks.drop_last();
    reveal_with_fuel(Seq::<_>::filter, 2);
    rest.lemma_filter_len(has_reading);
    if ticks.last().last_ppm != 0 {
        assert(readings_of(ticks) =~= readings_of(rest).push(cut(ticks.last())));
    } else {
        assert(readings_of(ticks) =~= readings_of(rest));
    }
}

proof fn no_readings(ticks: Seq<Tick>)
    requires
        ticks.len() == 0,
    ensures
        readings_of(ticks) == Seq::<(u32, u16)>::empty(),
{
    reveal_with_fuel(Seq::<_>::filter, 1);
    assert(readings_of(ticks) =~= Seq::<(u32, u16)>::empty());
}

/// One request of a logger that stores a record.
proof fn asleep_after_request(log: LogPartition, image: Seq<u8>)
    requires
        log.op() is Some,
    ensures
        ({
            let op = log.op().unwrap();
            let next = log.served(answer(image, op));
            asleep(LoggerTask::Appending(log), image) == if next.pending == Pending::Idle {
                (LoggerTask::Waiting(next), after(image, op))
            } else {
                asleep(LoggerTask::Appending(next), after(image, op))
            }
        }),
{
    reveal_with_fuel(asleep, 2);
    let op = log.op().unwrap();
    let next = log.served(answer(image, op));
    let task = LoggerTask::Appending(log);
    assert(task.served(answer(image, op)) == if next.pending == Pending::Idle {
        LoggerTask::Waiting(next)
    } else {
        LoggerTask::Appending(next)
    });
}

/// A log stays well-formed over an append.
proof fn append_keeps_the_log(log: LogPartition, image: Seq<u8>, uptime_s: u32, ppm: u16)
    requires
        geometry(log.size as int),
        image.len() == log.size,
        log.wf(),
        log.pending == Pending::Idle,
        log.write_pos <= log.size,
    ensures
        ({
            let (log2, image2) = settled(log.appending(uptime_s, ppm), image);
            &&& log2.wf() && log2.pending == Pending::Idle && log2.write_pos <= log2.size
            &&& log2.size == log.size && log2.boot_count == log.boot_count
            &&& image2.len() == image.len()
        }),
{
    append_is_served(log, image, uptime_s, ppm);
}

/// A logger that stores a record is asleep again with the log and the contents
/// after an append.
proof fn stored_record_is_an_append(log: LogPartition, image: Seq<u8>, uptime_s: u32, ppm: u16)
    requires
        geometry(log.size as int),
        image.len() == log.size,
        log.wf(),
        log.pending == Pending::Idle,
        log.write_pos <= log.size,
    ensures
        ({
            let begun = log.appending(uptime_s, ppm);
            let (log2, image2) = settled(begun, image);
            asleep(LoggerTask::Appending(begun), image) == (LoggerTask::Waiting(log2), image2)
        }),
{
    let begun = log.appending(uptime_s, ppm);
    append_is_served(log, image, uptime_s, ppm);
    asleep_after_request(begun, image);
    if sector_start(log.next_pos() as int) {
        asleep_after_request(begun.served(FlashAnswer::Done), prepared(log, image));
    }
}

/// A tick with a reading is an append of that reading; a tick without one
/// changes nothing.
proof fn tick_appends(log: LogPartition, image: Seq<u8>, tick: Tick)
    requires
        geometry(log.size as int),
        image.len() == log.size,
        log.wf(),
        log.pending == Pending::Idle,
        log.write_pos <= log.size,
    ensures
        ({
            let rest = asleep(
                LoggerTask::Waiting(log).woken(tick.last_ppm, tick.uptime_s),
                image,
            );
            let (log2, image2) = settled(log.appending(cut(tick).0, cut(tick).1), image);
            &&& tick.last_ppm == 0 ==> rest == (LoggerTask::Waiting(log), image)
            &&& tick.last_ppm != 0 ==> rest == (LoggerTask::Waiting(log2), image2)
        }),
{
    let (uptime_s, ppm) = cut(tick);
    if tick.last_ppm == 0 {
        reveal_with_fuel(asleep, 1);
    } else {
        assert(LoggerTask::Waiting(log).woken(tick.last_ppm, tick.uptime_s)
            == LoggerTask::Appending(log.appending(uptime_s, ppm)));
        stored_record_is_an_append(log, image, uptime_s, ppm);
    }
}

/// What the logger stores over a sequence of ticks is one append for each tick
/// with a reading, in the order of the ticks, and nothing for the others. It
/// takes nothing but the reading and the seconds from a tick, so that nothing
/// else, such as the state of the network, makes a difference.
pub proof fn ticks_are_logged(log: LogPartition, image: Seq<u8>, lap: Lap, ticks: Seq<Tick>)
    requires
        geometry(log.size as int),
        image.len() == log.size,
        log.wf(),
        log.pending == Pending::Idle,
        log.write_pos <= log.size,
    ensures
        ({
            let (log2, image2, lap2) = logged(log, image, lap, readings_of(ticks));
            &&& ticked(LoggerTask::Waiting(log), image, ticks) == (
                LoggerTask::Waiting(log2),
                image2,
            )
            &&& readings_of(ticks).len() <= ticks.len()
            &&& log2.wf() && log2.pending == Pending::Idle && log2.write_pos <= log2.size
            &&& log2.size == log.size && log2.boot_count == log.boot_count
            &&& image2.len() == image.len()
        }),
    decreases ticks.len(),
{
    if ticks.len() == 0 {
        no_readings(ticks);
    } else {
        let rest = ticks.drop_last();
        ticks_are_logged(log, image, lap, rest);
        readings_grow(ticks);
        let (log1, image1, lap1) = logged(log, image, lap, readings_of(rest));
        tick_appends(log1, image1, ticks.last());
        append_keeps_the_log(log1, image1, cut(ticks.last()).0, cut(ticks.last()).1);
        if ticks.last().last_ppm != 0 {
            let r = readings_of(ticks);
            assert(r.drop_last() =~= readings_of(rest));
            assert(r.last() == cut(ticks.last()));
        }
    }
}

/// The readings of a sequence of ticks, one by one: as many as there are ticks
/// with a reading, in their order, each with the numbers of its tick as long
/// as they fit their fields. Each becomes a record with the boot count of the
/// session.
pub proof fn records_have_the_numbers_of_their_ticks(ticks: Seq<Tick>, boot_count: u16)
    ensures
        ({
            let told = ticks.filter(|tick: Tick| tick.last_ppm != 0);
            let recs = session_records(boot_count, readings_of(ticks));
            &&& recs.len() == told.len()
            &&& recs.len() <= ticks.len()
            &&& forall|i: int|
                0 <= i < told.len() ==> {
                    &&& (#[trigger] recs[i]).boot_count == boot_count
                    &&& told[i].last_ppm <= 0xFFFF ==> recs[i].ppm == told[i].last_ppm
                    &&& told[i].uptime_s <= 0xFFFF_FFFF ==> recs[i].uptime_s == told[i].uptime_s
                }
        }),
{
    let told = ticks.filter(|tick: Tick| tick.last_ppm != 0);
    let recs = session_records(boot_count, readings_of(ticks));
    ticks.lemma_filter_len(|tick: Tick| tick.last_ppm != 0);
    assert forall|i: int| 0 <= i < told.len() implies {
        &&& (#[trigger] recs[i]).boot_count == boot_count
        &&& told[i].last_ppm <= 0xFFFF ==> recs[i].ppm == told[i].last_ppm
        &&& told[i].uptime_s <= 0xFFFF_FFFF ==> recs[i].uptime_s == told[i].uptime_s
    } by {
        assert(readings_of(ticks)[i] == cut(told[i]));
    }
}

/// What a logger leaves on a partition that held no log, byte by byte. Of the
/// `n` ticks with a reading the newest are there, all that fit beside the part
/// of the current sector that is still erased. Tick number `i` is at offset
/// 4096 + 8 * (`i` mod the number of slots): two bytes of boot count, four of
/// seconds, two of ppm. A slot `j` behind the newest record is erased up to
/// the end of the sector and, in the first lap, up to the end of the
/// partition, which starts with the magic bytes.
pub proof fn ticks_are_on_the_flash(
    size: u32,
    boot_count: u16,
    image: Seq<u8>,
    ticks: Seq<Tick>,
    i: int,
    j: int,
)
    requires
        size % 4096 == 0,
        8192 <= size <= 0xFFFF_FF00,
        image.len() == size,
        image.subrange(0, 8) != seq![0x43u8, 0x32, 0x4C, 0x4F, 0x47, 0x01, 0x00, 0x00],
        ticks.filter(|tick: Tick| tick.last_ppm != 0).len() > 0,
        forall|k: int|
            0 <= k < ticks.len() ==> (#[trigger] ticks[k]).last_ppm <= 0xFFFF && ticks[k].uptime_s
                <= 0xFFFF_FFFF,
    ensures
        ({
            let told = ticks.filter(|tick: Tick| tick.last_ppm != 0);
            let n = told.len() as int;
            let slots = (size - 4096) / 8;
            let last = (n - 1) % slots;
            let most = slots - 512 + (n - 1) % 512 + 1;
            let held = if n <= most {
                n
            } else {
                most
            };
            let (o, image1) = opened_on(start_of_opening(size, boot_count), image);
            let (task, b) = ticked(LoggerTask::Waiting(o.opened().unwrap()), image1, ticks);
            &&& o.opened() is Some
            &&& b.len() == size
            &&& b.subrange(0, 8) == seq![0x43u8, 0x32, 0x4C, 0x4F, 0x47, 0x01, 0x00, 0x00]
            &&& n - held <= i < n ==> {
                let at = 4096 + 8 * (i % slots);
                &&& b[at] + 256 * b[at + 1] == boot_count
                &&& b[at + 2] + 256 * b[at + 3] + 65536 * b[at + 4] + 16777216 * b[at + 5]
                    == told[i].uptime_s
                &&& b[at + 6] + 256 * b[at + 7] == told[i].last_ppm
            }
            &&& last < j < slots && (n <= slots || j < 512 * (last / 512 + 1)) ==> {
                let at = 4096 + 8 * j;
                &&& b[at] == 0xFF && b[at + 1] == 0xFF && b[at + 2] == 0xFF && b[at + 3] == 0xFF
                &&& b[at + 4] == 0xFF && b[at + 5] == 0xFF && b[at + 6] == 0xFF && b[at + 7] == 0xFF
            }
        }),
{
    let told = ticks.filter(|tick: Tick| tick.last_ppm != 0);
    let readings = readings_of(ticks);
    let recs = session_records(boot_count, readings);
    let n = told.len() as int;
    let slots = (size - 4096) / 8;
    let last = (n - 1) % slots;
    assert(MAGIC@ =~= seq![0x43u8, 0x32, 0x4C, 0x4F, 0x47, 0x01, 0x00, 0x00]);
    let (o, image1) = opened_on(start_of_opening(size, boot_count), image);
    opening_initializes_foreign_contents(size, boot_count, image);
    records_have_the_numbers_of_their_ticks(ticks, boot_count);
    session_on_a_new_log(size, boot_count, image, readings);
    let log = o.opened().unwrap();
    ticks_are_logged(log, image1, first_lap(), ticks);
    let b = ticked(LoggerTask::Waiting(log), image1, ticks).1;
    let held = kept(n, slots);
    assert(b.subrange(0, 8) == MAGIC@);
    assert(capacity(size as int) == slots);
    if n - held <= i < n {
        let at = place(i, slots);
        assert(record_at(b, at) == recs[i]);
        slot_layout(b, at);
        assert(told.contains(told[i]));
        ticks.lemma_filter_contains_rev(|tick: Tick| tick.last_ppm != 0, told[i]);
    }
    if last < j < slots && (n <= slots || j < 512 * (last / 512 + 1)) {
        let at = 4096 + 8 * j;
        erased_beyond_the_newest(size, boot_count, image, readings, j);
        slot_layout(b, at);
    }
}

/// Which slots a first session leaves erased.
proof fn erased_beyond_the_newest(
    size: u32,
    boot_count: u16,
    image: Seq<u8>,
    readings: Seq<(u32, u16)>,
    j: int,
)
    requires
        geometry(size as int),
        image.len() == size,
        !stamped(image),
        readings.len() > 0,
        ({
            let slots = capacity(size as int);
            let last = last_slot(readings.len() as int, slots);
            last < j < slots && (readings.len() <= slots || j < 512 * (last / 512 + 1))
        }),
    ensures
        ({
            let (o, image1) = opened_on(start_of_opening(size, boot_count), image);
            let image2 = logged(o.opened().unwrap(), image1, first_lap(), readings).1;
            blank_at(image2, HEADER_SIZE + 8 * j)
        }),
{
    opening_initializes_foreign_contents(size, boot_count, image);
    let (o, image1) = opened_on(start_of_opening(size, boot_count), image);
    let log = o.opened().unwrap();
    assert forall|at: int| #[trigger] slot(at, size as int) implies blank_at(image1, at) by {
        assert(erased_slot(HEADER_SIZE as int, first_lap(), at));
    }
    session_layout(log, image1, readings);
    let image2 = logged(log, image1, first_lap(), readings).1;
    let recs = session_records(boot_count, readings);
    let slots = capacity(size as int);
    let n = readings.len() as int;
    let last = last_slot(n, slots);
    slots_in_sectors(size as int, 0);
    next_slot(n, slots);
    kept_slots(n, slots);
    assert(cell(image2, recs, slots, n - 1 - last, last, j));
    reveal(cell);
}

/// Over a sequence of ticks the stored history is the end of what was stored
/// before, followed by one record for each tick with a reading, all with the
/// boot count of this session.
pub proof fn ticks_extend_the_history(log: LogPartition, image: Seq<u8>, lap: Lap, ticks: Seq<Tick>)
    requires
        ring(log, image, lap),
        forall|i: int|
            0 <= i < readings_of(ticks).len() ==> !all_ones(
                #[trigger] session_records(log.boot_count, readings_of(ticks))[i],
            ),
    ensures
        ({
            let (task, image2) = ticked(LoggerTask::Waiting(log), image, ticks);
            let (log2, stored, lap2) = logged(log, image, lap, readings_of(ticks));
            let all = history(log, image, lap) + session_records(
                log.boot_count,
                readings_of(ticks),
            );
            &&& task == LoggerTask::Waiting(log2) && image2 == stored
            &&& ring(log2, image2, lap2)
            &&& history(log2, image2, lap2).is_suffix_of(all)
            &&& !lap2.lapped ==> history(log2, image2, lap2) == all
        }),
{
    ticks_are_logged(log, image, lap, ticks);
    session_is_logged(log, image, lap, readings_of(ticks));
}

/// Ticks that come at least a minute apart, the first of them at least a
/// minute after boot and the last before the seconds outgrow their field.
pub open spec fn minutes_apart(ticks: Seq<Tick>) -> bool {
    &&& forall|i: int|
        0 <= i < ticks.len() ==> LOG_INTERVAL_S <= (#[trigger] ticks[i]).uptime_s < 0x1_0000_0000
    &&& forall|i: int, j: int|
        0 <= i < j < ticks.len() ==> (#[trigger] ticks[i]).uptime_s + LOG_INTERVAL_S <= (
        #[trigger] ticks[j]).uptime_s
}

/// The readings of ticks a minute apart are a minute apart too: each record
/// has its tick's own seconds.
pub proof fn readings_are_minutes_apart(ticks: Seq<Tick>)
    requires
        minutes_apart(ticks),
    ensures
        forall|i: int|
            0 <= i < readings_of(ticks).len() ==> LOG_INTERVAL_S <= (#[trigger] readings_of(
                ticks,
            )[i]).0 <= ticks.last().uptime_s,
        forall|i: int, j: int|
            0 <= i < j < readings_of(ticks).len() ==> (#[trigger] readings_of(ticks)[i]).0
                + LOG_INTERVAL_S <= (#[trigger] readings_of(ticks)[j]).0,
    decreases ticks.len(),
{
    if ticks.len() == 0 {
        no_readings(ticks);
    } else {
        let rest = ticks.drop_last();
        assert(minutes_apart(rest)) by {
            assert(forall|i: int| 0 <= i < rest.len() ==> #[trigger] rest[i] == ticks[i]);
        }
        readings_are_minutes_apart(rest);
        readings_grow(ticks);
        let last = ticks.len() - 1;
        assert(ticks.last() == ticks[last]);
        if rest.len() > 0 {
            assert(rest.last() == ticks[last - 1]);
        } else {
            no_readings(rest);
        }
    }
}

/// Whether all records of a history are of sessions before the one with this
/// boot count, as far as their boot counts tell. Where the counter was not
/// available the count is 0, which at most one session may have.
pub open spec fn all_before(h: Seq<Record>, boot_count: u16) -> bool {
    forall|i: int|
        0 <= i < h.len() ==> (#[trigger] h[i]).boot_count != boot_count && (boot_count != 0
            ==> h[i].boot_count < boot_count)
}

/// A session whose ticks are a minute apart keeps a history in order, if all
/// that was stored before is of earlier sessions. For a later session the same
/// holds again.
pub proof fn session_keeps_the_order(log: LogPartition, image: Seq<u8>, lap: Lap, ticks: Seq<Tick>)
    requires
        ring(log, image, lap),
        minutes_apart(ticks),
        in_order(history(log, image, lap)),
        all_before(history(log, image, lap), log.boot_count),
        forall|i: int|
            0 <= i < readings_of(ticks).len() ==> !all_ones(
                #[trigger] session_records(log.boot_count, readings_of(ticks))[i],
            ),
    ensures
        ({
            let (task, image2) = ticked(LoggerTask::Waiting(log), image, ticks);
            let (log2, stored, lap2) = logged(log, image, lap, readings_of(ticks));
            &&& task == LoggerTask::Waiting(log2) && image2 == stored
            &&& ring(log2, image2, lap2)
            &&& in_order(history(log2, image2, lap2))
            &&& forall|later: u16| #[trigger]
                all_before(history(log, image, lap), later) && later != log.boot_count && (later
                    != 0 ==> log.boot_count < later) ==> all_before(
                    history(log2, image2, lap2),
                    later,
                )
        }),
{
    let readings = readings_of(ticks);
    ticks_extend_the_history(log, image, lap, ticks);
    readings_are_minutes_apart(ticks);
    let recs = session_records(log.boot_count, readings);
    let h = history(log, image, lap);
    let all = h + recs;
    assert forall|i: int, j: int| 0 <= i < j < all.len() implies !falls(
        #[trigger] all[i],
        #[trigger] all[j],
    ) by {
        let n = h.len();
        if j < n {
            assert(all[i] == h[i] && all[j] == h[j]);
        } else {
            assert(all[j] == recs[j - n]);
            if i < n {
                assert(all[i] == h[i]);
            } else {
                assert(all[i] == recs[i - n]);
                assert(readings[i - n].0 + LOG_INTERVAL_S <= readings[j - n].0);
            }
        }
    }
    let (log2, image2, lap2) = logged(log, image, lap, readings);
    let h2 = history(log2, image2, lap2);
    suffix_in_order(h2, all);
    assert forall|later: u16| #[trigger] all_before(h, later) && later != log.boot_count && (later
        != 0 ==> log.boot_count < later) implies all_before(h2, later) by {
        assert forall|i: int| 0 <= i < h2.len() implies (#[trigger] h2[i]).boot_count != later && (
        later != 0 ==> h2[i].boot_count < later) by {
            suffix_comes_from(h2, h, recs, i);
        }
    }
}

/// A record of the end of `h + recs` is one of `h` or one of `recs`.
proof fn suffix_comes_from(part: Seq<Record>, h: Seq<Record>, recs: Seq<Record>, i: int)
    requires
        part.is_suffix_of(h + recs),
        0 <= i < part.len(),
    ensures
        ({
            let k = i + h.len() + recs.len() - part.len();
            &&& 0 <= k < h.len() + recs.len()
            &&& k < h.len() ==> part[i] == h[k]
            &&& k >= h.len() ==> part[i] == recs[k - h.len()]
        }),
{
    let all = h + recs;
    let k = i + all.len() - part.len();
    assert(part[i] == all[k]);
}

/// A full ring that does not go on at the first sector has at least two.
proof fn full_ring_is_long(log: LogPartition, image: Seq<u8>, lap: Lap)
    requires
        ring(log, image, lap),
        full(log, lap),
    ensures
        history(log, image, lap).len() >= 1024 || log.next_pos() == HEADER_SIZE,
{
    if log.write_pos != log.size && log.write_pos != HEADER_SIZE {
        let head = HEADER_SIZE as int;
        sector_fits(log.size as int, log.write_pos as int);
        assert(log.write_pos >= head + SECTOR);
        assert(records(image, lap.frontier, log.size as int).len() >= 512);
        assert(records(image, head, log.write_pos as int).len() >= 512);
    }
}

/// The sectors of a history can be compared if the boot count of each record
/// is this one or a lower one, but not 0.
proof fn known_counts_compare(h: Seq<Record>, recs: Seq<Record>, part: Seq<Record>, boot_count: u16)
    requires
        part.is_suffix_of(h + recs),
        forall|i: int| 0 <= i < h.len() ==> 0 < (#[trigger] h[i]).boot_count < boot_count,
        forall|i: int| 0 <= i < recs.len() ==> (#[trigger] recs[i]).boot_count == boot_count,
        part.len() >= 1024,
    ensures
        comparable(sector_first(part, 0), sector_first(part, part.len() / 512 - 1)),
{
    suffix_comes_from(part, h, recs, 0);
    suffix_comes_from(part, h, recs, 512 * (part.len() / 512 - 1));
}

/// Wherever such a session is cut off, the next start finds the place again
/// and the history is what the session left, if the boot count has always been
/// available and has grown.
pub proof fn restart_after_a_session_resumes(
    log: LogPartition,
    image: Seq<u8>,
    lap: Lap,
    ticks: Seq<Tick>,
    boot_count: u16,
)
    requires
        ring(log, image, lap),
        minutes_apart(ticks),
        in_order(history(log, image, lap)),
        forall|i: int|
            0 <= i < history(log, image, lap).len() ==> 0 < (#[trigger] history(
                log,
                image,
                lap,
            )[i]).boot_count < log.boot_count,
        forall|i: int|
            0 <= i < readings_of(ticks).len() ==> !all_ones(
                #[trigger] session_records(log.boot_count, readings_of(ticks))[i],
            ),
    ensures
        ({
            let (task, image2) = ticked(LoggerTask::Waiting(log), image, ticks);
            let (log2, stored, lap2) = logged(log, image, lap, readings_of(ticks));
            let (o, image3) = opened_on(start_of_opening(log2.size, boot_count), image2);
            let reopened = LogPartition { write_pos: log2.next_pos(), boot_count, ..log2 };
            &&& task == LoggerTask::Waiting(log2)
            &&& image3 == image2
            &&& o.opened() == Some(reopened)
            &&& history(reopened, image3, wrapped_lap(log2, lap2)) == history(log2, image2, lap2)
        }),
{
    session_keeps_the_order(log, image, lap, ticks);
    ticks_extend_the_history(log, image, lap, ticks);
    let (log2, stored, lap2) = logged(log, image, lap, readings_of(ticks));
    let h = history(log, image, lap);
    let recs = session_records(log.boot_count, readings_of(ticks));
    let h2 = history(log2, stored, lap2);
    if full(log2, lap2) {
        full_ring_is_long(log2, stored, lap2);
        if h2.len() >= 1024 {
            known_counts_compare(h, recs, h2, log.boot_count);
        }
        order_tells_the_place(log2, h2);
    }
    reopening_resumes(log2, stored, lap2, boot_count);
}

proof fn suffix_in_order(part: Seq<Record>, all: Seq<Record>)
    requires
        part.is_suffix_of(all),
        in_order(all),
    ensures
        in_order(part),
{
    let d = all.len() - part.len();
    assert forall|i: int, j: int| 0 <= i < j < part.len() implies !falls(
        #[trigger] part[i],
        #[trigger] part[j],
    ) by {
        assert(part[i] == all[i + d] && part[j] == all[j + d]);
    }
}

} // verus!
