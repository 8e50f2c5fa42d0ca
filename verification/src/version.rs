//! Single source of truth for the firmware version.
//!
//! Bump `MAJOR`/`MINOR` (and `DATE_CODE`) here for a release; everything else
//! derives from them:
//!
//! - the boot banner ([`string`])
//! - the Basic cluster `appVersion` attribute ([`APP_VERSION`]), which the
//!   converter shows as `v{n/10}.{n%10}`
//! - the Basic cluster `swBuildId` (the same text) and `dateCode`
use vstd::prelude::*;
use vstd::string::*;

verus! {

pub const MAJOR: u8 = 2;

pub const MINOR: u8 = 1;

pub const PATCH: u8 = 0;

/// Firmware build date (YYYYMMDD) for the Basic cluster's `dateCode`.
pub const DATE_CODE: &'static str = "20260705";

/// Encoding used by the Basic cluster's `appVersion` attribute (one byte).
/// Limits `MINOR` to 0-9; the patch level doesn't fit and is only visible in
/// [`string`].
pub const APP_VERSION: u8 = MAJOR * 10 + MINOR;

/// The `appVersion` byte of a version.
pub open spec fn app_version(major: int, minor: int) -> int {
    major * 10 + minor
}

/// The decimal digit `d`.
pub open spec fn digit(d: nat) -> char {
    (48 + d) as char
}

/// `n` in decimal, without leading zeros.
pub open spec fn decimal(n: nat) -> Seq<char>
    decreases n,
{
    if n < 10 {
        seq![digit(n)]
    } else {
        decimal(n / 10).push(digit(n % 10))
    }
}

/// The human-readable form of a version: `v`, then its three numbers in
/// decimal with dots between them.
pub open spec fn version_text(major: nat, minor: nat, patch: nat) -> Seq<char> {
    seq!['v'] + decimal(major) + seq!['.'] + decimal(minor) + seq!['.'] + decimal(patch)
}

/// The converter's decoding gives back the version: `appVersion / 10` is the
/// major and `appVersion % 10` the minor number, as long as the minor number
/// is a single digit. It is so for this firmware.
pub proof fn app_version_decodes(major: int, minor: int)
    requires
        0 <= minor <= 9,
    ensures
        app_version(major, minor) / 10 == major,
        app_version(major, minor) % 10 == minor,
        APP_VERSION == app_version(MAJOR as int, MINOR as int),
        0 <= MINOR <= 9,
{
}

/// The number that a text of decimal digits stands for.
pub open spec fn number(text: Seq<char>) -> int
    decreases text.len(),
{
    if text.len() == 0 {
        0
    } else {
        10 * number(text.drop_last()) + (text.last() as int - '0' as int)
    }
}

/// A number in decimal reads back as that number. It has only digits, and no
/// leading zero but for 0 itself.
pub proof fn decimal_reads_back(n: nat)
    ensures
        number(decimal(n)) == n,
        decimal(n).len() > 0,
        forall|i: int| 0 <= i < decimal(n).len() ==> '0' <= #[trigger] decimal(n)[i] <= '9',
        decimal(n)[0] == '0' ==> n == 0,
    decreases n,
{
    reveal_with_fuel(number, 2);
    let text = decimal(n);
    if n < 10 {
        assert(text.drop_last() =~= Seq::empty());
    } else {
        decimal_reads_back(n / 10);
        assert(text.drop_last() =~= decimal(n / 10));
        assert(text.last() == digit(n % 10));
    }
}

/// A version text is `v`, its three numbers and two dots, and the numbers read
/// back as those of the version.
pub proof fn version_text_reads_back(major: nat, minor: nat, patch: nat)
    ensures
        ({
            let text = version_text(major, minor, patch);
            let a = decimal(major).len() as int;
            let b = decimal(minor).len() as int;
            &&& text.len() == 3 + a + b + decimal(patch).len()
            &&& text[0] == 'v' && text[1 + a] == '.' && text[2 + a + b] == '.'
            &&& number(text.subrange(1, 1 + a)) == major
            &&& number(text.subrange(2 + a, 2 + a + b)) == minor
            &&& number(text.subrange(3 + a + b, text.len() as int)) == patch
        }),
{
    let text = version_text(major, minor, patch);
    let a = decimal(major).len() as int;
    let b = decimal(minor).len() as int;
    decimal_reads_back(major);
    decimal_reads_back(minor);
    decimal_reads_back(patch);
    assert(text.subrange(1, 1 + a) =~= decimal(major));
    assert(text.subrange(2 + a, 2 + a + b) =~= decimal(minor));
    assert(text.subrange(3 + a + b, text.len() as int) =~= decimal(patch));
}

fn digit_text(d: u8) -> (text: &'static str)
    requires
        d < 10,
    ensures
        text@ == seq![digit(d as nat)],
{
    proof {
        reveal_strlit("0");
        reveal_strlit("1");
        reveal_strlit("2");
        reveal_strlit("3");
        reveal_strlit("4");
        reveal_strlit("5");
        reveal_strlit("6");
        reveal_strlit("7");
        reveal_strlit("8");
        reveal_strlit("9");
    }
    let text = match d {
        0 => "0",
        1 => "1",
        2 => "2",
        3 => "3",
        4 => "4",
        5 => "5",
        6 => "6",
        7 => "7",
        8 => "8",
        _ => "9",
    };
    assert(text@ =~= seq![digit(d as nat)]);
    text
}

fn decimal_text(n: u8) -> (text: String)
    ensures
        text@ == decimal(n as nat),
    decreases n,
{
    if n < 10 {
        digit_text(n).to_owned()
    } else {
        let head = decimal_text(n / 10);
        let text = head.concat(digit_text(n % 10));
        assert(text@ =~= decimal(n as nat));
        text
    }
}

/// Human-readable version, e.g. "v2.0.1".
pub fn string() -> (text: String)
    ensures
        text@ == version_text(MAJOR as nat, MINOR as nat, PATCH as nat),
{
    proof {
        reveal_strlit("v");
        reveal_strlit(".");
    }
    let text = "v".to_owned();
    let text = text.concat(decimal_text(MAJOR).as_str());
    let text = text.concat(".");
    let text = text.concat(decimal_text(MINOR).as_str());
    let text = text.concat(".");
    let text = text.concat(decimal_text(PATCH).as_str());
    assert(text@ =~= version_text(MAJOR as nat, MINOR as nat, PATCH as nat));
    text
}

} // verus!
