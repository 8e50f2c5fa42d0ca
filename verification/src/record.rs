//! One entry of the CO2 history and its eight bytes on flash.
//!
//! | bytes | field      | notes                              |
//! |-------|------------|------------------------------------|
//! | 0..2  | boot_count | LE u16, increments every boot      |
//! | 2..6  | uptime_s   | LE u32, seconds since this boot    |
//! | 6..8  | ppm        | LE u16, CO2 reading                |
use crate::flash::ERASED;
use vstd::prelude::*;

verus! {

/// Size of a stored record, in bytes.
pub const RECORD: u32 = 8;

/// Records in one sector of flash.
pub const SECTOR_RECORDS: u32 = 512;

/// Whether `offset` is a multiple of [`RECORD`].
pub open spec fn record_start(offset: int) -> bool {
    offset % 8 == 0
}

/// One CO2 reading with its timestamp.
#[derive(Clone, Copy, Debug, PartialEq, Eq, Structural)]
pub struct Record {
    pub boot_count: u16,
    pub uptime_s: u32,
    pub ppm: u16,
}

/// Byte number `k` of `x` in little-endian order.
pub open spec fn le_byte(x: int, k: int) -> u8 {
    if k == 0 {
        (x % 256) as u8
    } else if k == 1 {
        (x / 256 % 256) as u8
    } else if k == 2 {
        (x / 65536 % 256) as u8
    } else {
        (x / 16777216 % 256) as u8
    }
}

/// The stored form of `r`.
pub open spec fn encoded(r: Record) -> Seq<u8> {
    seq![
        le_byte(r.boot_count as int, 0),
        le_byte(r.boot_count as int, 1),
        le_byte(r.uptime_s as int, 0),
        le_byte(r.uptime_s as int, 1),
        le_byte(r.uptime_s as int, 2),
        le_byte(r.uptime_s as int, 3),
        le_byte(r.ppm as int, 0),
        le_byte(r.ppm as int, 1),
    ]
}

/// The record that the eight bytes from `at` on hold.
pub open spec fn record_at(image: Seq<u8>, at: int) -> Record {
    Record {
        boot_count: (image[at] + 256 * image[at + 1]) as u16,
        uptime_s: (image[at + 2] + 256 * image[at + 3] + 65536 * image[at + 4] + 16777216 * image[at
            + 5]) as u32,
        ppm: (image[at + 6] + 256 * image[at + 7]) as u16,
    }
}

/// Whether two records tell which of them was taken first. A boot count of 0
/// stands for a counter that was not available: it tells no order against
/// another count.
pub open spec fn comparable(a: Record, b: Record) -> bool {
    a.boot_count == b.boot_count || (a.boot_count != 0 && b.boot_count != 0)
}

/// Whether `a` was taken before `b`, as far as the two tell: in an earlier
/// session, or earlier in the same one.
pub open spec fn older(a: Record, b: Record) -> bool {
    &&& comparable(a, b)
    &&& a.boot_count < b.boot_count || (a.boot_count == b.boot_count && a.uptime_s < b.uptime_s)
}

/// Whether the order of time breaks from `a` to `b`: the two can be compared,
/// and `b` is not the later one.
pub open spec fn falls(a: Record, b: Record) -> bool {
    comparable(a, b) && !older(a, b)
}

/// Whether the eight bytes from `at` on all read as erased flash.
pub open spec fn blank_at(image: Seq<u8>, at: int) -> bool {
    forall|i: int| at <= i < at + RECORD ==> image[i] == ERASED
}

/// Whether every field of `r` has all its bits set. Such a record alone looks
/// like erased flash.
pub open spec fn all_ones(r: Record) -> bool {
    r.boot_count == 0xFFFF && r.uptime_s == 0xFFFF_FFFF && r.ppm == 0xFFFF
}

/// The four bytes of a number add up to it, each with the weight of its place.
proof fn bytes_add_up(x: u32)
    ensures
        le_byte(x as int, 0) + 256 * le_byte(x as int, 1) + 65536 * le_byte(x as int, 2) + 16777216
            * le_byte(x as int, 3) == x,
        x < 65536 ==> le_byte(x as int, 0) + 256 * le_byte(x as int, 1) == x,
{
    let a = x as int / 256;
    let b = a / 256;
    let c = b / 256;
    assert(x == 256 * a + x as int % 256);
    assert(a == 256 * b + a % 256);
    assert(b == 256 * c + b % 256);
    assert(x as int / 65536 == b);
    assert(x as int / 16777216 == c);
    assert(c < 256);
}

/// The stored form of a record is eight bytes: two for the boot count, four
/// for the seconds and two for the reading, the least significant first.
pub proof fn record_layout(r: Record)
    ensures
        encoded(r).len() == 8,
        encoded(r)[0] + 256 * encoded(r)[1] == r.boot_count,
        encoded(r)[2] + 256 * encoded(r)[3] + 65536 * encoded(r)[4] + 16777216 * encoded(r)[5]
            == r.uptime_s,
        encoded(r)[6] + 256 * encoded(r)[7] == r.ppm,
{
    bytes_add_up(r.boot_count as u32);
    bytes_add_up(r.uptime_s);
    bytes_add_up(r.ppm as u32);
}

/// Any eight bytes read as the record whose numbers they spell, and a slot is
/// blank if and only if all eight of them are 0xFF.
pub proof fn slot_layout(image: Seq<u8>, at: int)
    ensures
        record_at(image, at).boot_count == image[at] + 256 * image[at + 1],
        record_at(image, at).uptime_s == image[at + 2] + 256 * image[at + 3] + 65536 * image[at + 4]
            + 16777216 * image[at + 5],
        record_at(image, at).ppm == image[at + 6] + 256 * image[at + 7],
        blank_at(image, at) <==> image[at] == 0xFF && image[at + 1] == 0xFF && image[at + 2] == 0xFF
            && image[at + 3] == 0xFF && image[at + 4] == 0xFF && image[at + 5] == 0xFF && image[at
            + 6] == 0xFF && image[at + 7] == 0xFF,
{
    if image[at] == 0xFF && image[at + 1] == 0xFF && image[at + 2] == 0xFF && image[at + 3] == 0xFF
        && image[at + 4] == 0xFF && image[at + 5] == 0xFF && image[at + 6] == 0xFF && image[at + 7]
        == 0xFF {
        assert forall|i: int| at <= i < at + RECORD implies image[i] == ERASED by {
            let k = i - at;
            assert(k == 0 || k == 1 || k == 2 || k == 3 || k == 4 || k == 5 || k == 6 || k == 7);
        }
    }
    if blank_at(image, at) {
        assert(image[at] == ERASED && image[at + 1] == ERASED && image[at + 2] == ERASED
            && image[at + 3] == ERASED && image[at + 4] == ERASED && image[at + 5] == ERASED
            && image[at + 6] == ERASED && image[at + 7] == ERASED);
    }
}

/// Known records are ordered by boot count first and by seconds then: of two
/// of them at different times exactly one is older, and a third one that is
/// newer than the newer is newer than both. A count of 0 is ordered only in
/// itself.
pub proof fn records_are_ordered(a: Record, b: Record, c: Record)
    ensures
        a.boot_count == b.boot_count ==> (older(a, b) <==> a.uptime_s < b.uptime_s),
        a.boot_count != b.boot_count ==> (older(a, b) <==> 0 < a.boot_count < b.boot_count),
        !(older(a, b) && older(b, a)),
        a.boot_count > 0 && b.boot_count > 0 && !(a.boot_count == b.boot_count && a.uptime_s
            == b.uptime_s) ==> older(a, b) || older(b, a),
        older(a, b) && older(b, c) ==> older(a, c),
        a.boot_count == 0 && b.boot_count > 0 ==> !older(a, b) && !older(b, a) && !falls(a, b)
            && !falls(b, a),
        a.boot_count > 0 && b.boot_count > 0 ==> (falls(a, b) <==> !older(a, b)),
        a.boot_count == b.boot_count ==> (falls(a, b) <==> b.uptime_s <= a.uptime_s),
{
}

/// What is stored for a record reads back as that record, whatever surrounds
/// it.
pub proof fn stored_record_reads_back(r: Record, image: Seq<u8>, at: int)
    requires
        0 <= at,
        at + RECORD <= image.len(),
        image.subrange(at, at + RECORD) == encoded(r),
    ensures
        record_at(image, at) == r,
{
    let s = image.subrange(at, at + RECORD);
    assert(forall|k: int| 0 <= k < RECORD ==> #[trigger] s[k] == image[at + k]);
    assert(s[0] == image[at + 0] && s[1] == image[at + 1] && s[2] == image[at + 2] && s[3]
        == image[at + 3] && s[4] == image[at + 4] && s[5] == image[at + 5] && s[6] == image[at + 6]
        && s[7] == image[at + 7]);
    record_layout(r);
}

/// A stored record is taken for erased flash only if all its bits are set;
/// one with a reading of at most 32700 ppm never is.
pub proof fn stored_record_is_not_blank(r: Record, image: Seq<u8>, at: int)
    requires
        0 <= at,
        at + RECORD <= image.len(),
        image.subrange(at, at + RECORD) == encoded(r),
    ensures
        blank_at(image, at) <==> all_ones(r),
        r.ppm <= 32700 ==> !blank_at(image, at),
{
    let s = image.subrange(at, at + RECORD);
    stored_record_reads_back(r, image, at);
    if all_ones(r) {
        assert forall|i: int| at <= i < at + RECORD implies image[i] == ERASED by {
            assert(image[i] == s[i - at]);
            assert(encoded(r)[i - at] == ERASED);
        }
    }
    if blank_at(image, at) {
        assert(image[at] == ERASED && image[at + 1] == ERASED && image[at + 2] == ERASED
            && image[at + 3] == ERASED && image[at + 4] == ERASED && image[at + 5] == ERASED
            && image[at + 6] == ERASED && image[at + 7] == ERASED);
    }
}

impl Record {
    /// The eight bytes to store for this record.
    pub fn encode(&self) -> (bytes: [u8; 8])
        ensures
            bytes@ == encoded(*self),
            bytes@[0] + 256 * bytes@[1] == self.boot_count,
            bytes@[2] + 256 * bytes@[3] + 65536 * bytes@[4] + 16777216 * bytes@[5]
                == self.uptime_s,
            bytes@[6] + 256 * bytes@[7] == self.ppm,
    {
        proof {
            record_layout(*self);
        }
        let bytes: [u8; 8] = [
            (self.boot_count % 256) as u8,
            (self.boot_count / 256) as u8,
            (self.uptime_s % 256) as u8,
            (self.uptime_s / 256 % 256) as u8,
            (self.uptime_s / 65536 % 256) as u8,
            (self.uptime_s / 16777216) as u8,
            (self.ppm % 256) as u8,
            (self.ppm / 256) as u8,
        ];
        assert(bytes@ =~= encoded(*self));
        bytes
    }

    /// The record that the eight bytes from `at` on hold.
    pub fn decode(bytes: &[u8], at: usize) -> (record: Record)
        requires
            at + RECORD <= bytes@.len(),
        ensures
            record == record_at(bytes@, at as int),
            record.boot_count == bytes@[at as int] + 256 * bytes@[at + 1],
            record.uptime_s == bytes@[at + 2] + 256 * bytes@[at + 3] + 65536 * bytes@[at + 4]
                + 16777216 * bytes@[at + 5],
            record.ppm == bytes@[at + 6] + 256 * bytes@[at + 7],
    {
        Record {
            boot_count: bytes[at] as u16 + 256 * bytes[at + 1] as u16,
            uptime_s: bytes[at + 2] as u32 + 256 * bytes[at + 3] as u32 + 65536 * bytes[at
                + 4] as u32 + 16777216 * bytes[at + 5] as u32,
            ppm: bytes[at + 6] as u16 + 256 * bytes[at + 7] as u16,
        }
    }

    /// Whether this record and `other` tell which of them was taken first.
    pub fn is_comparable(&self, other: &Record) -> (is: bool)
        ensures
            is == comparable(*self, *other),
            is <==> self.boot_count == other.boot_count || (self.boot_count > 0
                && other.boot_count > 0),
    {
        self.boot_count == other.boot_count || (self.boot_count != 0 && other.boot_count != 0)
    }

    /// Whether this record was taken before `other`, as far as the two tell.
    pub fn is_older(&self, other: &Record) -> (is: bool)
        ensures
            is == older(*self, *other),
            self.boot_count == other.boot_count ==> (is <==> self.uptime_s < other.uptime_s),
            self.boot_count != other.boot_count ==> (is <==> 0 < self.boot_count
                < other.boot_count),
    {
        self.is_comparable(other) && (self.boot_count < other.boot_count || (self.boot_count
            == other.boot_count && self.uptime_s < other.uptime_s))
    }

    /// Whether the order of time breaks from this record to `next`.
    pub fn falls_to(&self, next: &Record) -> (is: bool)
        ensures
            is == falls(*self, *next),
            self.boot_count == next.boot_count ==> (is <==> next.uptime_s <= self.uptime_s),
            self.boot_count != next.boot_count ==> (is <==> 0 < next.boot_count < self.boot_count),
    {
        self.is_comparable(next) && !self.is_older(next)
    }
}

} // verus!
