//! The wall clock in log lines.

use vstd::prelude::*;
use vstd::string::*;
use vstd::utf8::encode_utf8;
use crate::text::{
    decimal, law_two_digits_read_back, number_in, trim, trimmed, two_digits, two_digits_text,
};

verus! {

/// Seconds in a day.
pub const DAY: i64 = 86_400;

/// True of the bytes of the digits.
pub open spec fn is_digit(b: u8) -> bool {
    48 <= b <= 57
}

/// The number that two bytes are: two digits, or a sign and a digit.
pub open spec fn number_of(a: u8, b: u8) -> Option<int> {
    if !is_digit(b) {
        None
    } else if is_digit(a) {
        Some(10 * (a - 48) + (b - 48))
    } else if a == 43 {
        Some(b - 48)
    } else if a == 45 {
        Some(48 - b)
    } else {
        None
    }
}

fn number(a: u8, b: u8) -> (n: Option<i64>)
    ensures
        match number_of(a, b) {
            Some(x) => n matches Some(y) && y == x && -9 <= y <= 99,
            None => n is None,
        },
{
    if b < 48 || 57 < b {
        None
    } else if 48 <= a && a <= 57 {
        Some(10 * (a as i64 - 48) + (b as i64 - 48))
    } else if a == 43 {
        Some(b as i64 - 48)
    } else if a == 45 {
        Some(48 - b as i64)
    } else {
        None
    }
}

/// The seconds east of UTC that an offset such as `+0530` or `-0800` stands
/// for: a sign, two characters for the hours and two for the minutes, and
/// anything behind them.
pub open spec fn offset_of(bytes: Seq<u8>) -> Option<int> {
    if bytes.len() < 5 {
        None
    } else {
        match (number_of(bytes[1], bytes[2]), number_of(bytes[3], bytes[4])) {
            (Some(h), Some(m)) => Some(
                if bytes[0] == 45 {
                    -(h * 3600 + m * 60)
                } else {
                    h * 3600 + m * 60
                },
            ),
            _ => None,
        }
    }
}

/// The seconds east of UTC that an offset such as `+0530` or `-0800` stands
/// for.
pub fn parse_utc_offset(z: &str) -> (offset: Option<i64>)
    ensures
        match offset_of(encode_utf8(z@)) {
            Some(s) => offset matches Some(o) && o == s,
            None => offset is None,
        },
{
    let bytes = z.as_bytes();
    if bytes.len() < 5 {
        return None;
    }
    match (number(bytes[1], bytes[2]), number(bytes[3], bytes[4])) {
        (Some(h), Some(m)) => {
            let seconds: i64 = h * 3600 + m * 60;
            if bytes[0] == 45u8 {
                Some(-seconds)
            } else {
                Some(seconds)
            }
        },
        _ => None,
    }
}

/// The offset that `date +%z` printed, or none where it did not.
pub fn utc_offset(printed: Option<&str>) -> (offset: i64)
    ensures
        offset == match printed {
            Some(text) => match offset_of(encode_utf8(trimmed(text@))) {
                Some(s) => s,
                None => 0,
            },
            None => 0,
        },
{
    match printed {
        Some(text) => match parse_utc_offset(trim(text)) {
            Some(o) => o,
            None => 0,
        },
        None => 0,
    }
}

/// The time of the day, `HH:MM:SS`, so many seconds after midnight.
pub open spec fn time_of_day(second: nat) -> Seq<char> {
    two_digits(second / 3600) + ":"@ + two_digits((second % 3600) / 60) + ":"@ + two_digits(
        second % 60,
    )
}

/// The time of the day `offset` seconds east of UTC, `epoch` seconds after the
/// start of 1970.
pub fn now_ts(epoch: i64, offset: i64) -> (text: String)
    requires
        i64::MIN <= epoch + offset <= i64::MAX,
    ensures
        text@ == time_of_day(((epoch + offset) % (DAY as int)) as nat),
        text@.len() == 8,
{
    let t: i64 = epoch + offset;
    let second: u64 = if t >= 0 {
        (t % DAY) as u64
    } else {
        (DAY - 1 - (-(t + 1)) % DAY) as u64
    };
    assert(second == (epoch + offset) % (DAY as int));
    let mut text = two_digits_text(second / 3600);
    text.append(":");
    text.append(two_digits_text((second % 3600) / 60).as_str());
    text.append(":");
    text.append(two_digits_text(second % 60).as_str());
    proof {
        reveal_strlit(":");
        lemma_two_digits((second / 3600) as nat);
        lemma_two_digits(((second % 3600) / 60) as nat);
        lemma_two_digits((second % 60) as nat);
    }
    text
}

/// Two digits are two characters.
proof fn lemma_two_digits(n: nat)
    requires
        n < 100,
    ensures
        two_digits(n).len() == 2,
{
    reveal_with_fuel(decimal, 2);
}

/// An offset is a sign and two digits each for hours and minutes, whatever
/// follows: so many seconds, to the west exactly if the sign is a minus.
pub proof fn law_offsets_are_hours_and_minutes(
    sign: u8,
    h: int,
    m: int,
    bytes: Seq<u8>,
)
    requires
        0 <= h < 100,
        0 <= m < 100,
        bytes.len() >= 5,
        bytes[0] == sign,
        bytes[1] == 48 + h / 10,
        bytes[2] == 48 + h % 10,
        bytes[3] == 48 + m / 10,
        bytes[4] == 48 + m % 10,
    ensures
        sign == 45 ==> offset_of(bytes) == Some(-3600 * h - 60 * m),
        sign != 45 ==> offset_of(bytes) == Some(3600 * h + 60 * m),
{
}

/// In place of the first digit of hours or minutes a sign of their own may
/// stand.
pub proof fn law_numbers_may_have_a_sign(a: u8, d: int)
    requires
        0 <= d < 10,
    ensures
        number_of(43, (48 + d) as u8) == Some(d),
        number_of(45, (48 + d) as u8) == Some(-d),
        a != 43 && a != 45 && !(48 <= a <= 57) ==> number_of(a, (48 + d) as u8) is None,
{
}

/// What is too short, or has something else where the digits should be, is no
/// offset.
pub proof fn law_other_texts_are_no_offsets(bytes: Seq<u8>)
    ensures
        bytes.len() < 5 ==> offset_of(bytes) is None,
        bytes.len() >= 5 && (number_of(bytes[1], bytes[2]) is None || number_of(
            bytes[3],
            bytes[4],
        ) is None) ==> offset_of(bytes) is None,
        forall|a: u8, b: u8| b < 48 || 57 < b ==> #[trigger] number_of(a, b) is None,
        bytes.len() >= 5 ==> (number_of(bytes[1], bytes[2]) matches Some(h) ==> (number_of(
            bytes[3],
            bytes[4],
        ) matches Some(m) ==> offset_of(bytes) == Some(
            if bytes[0] == 45 {
                -3600 * h - 60 * m
            } else {
                3600 * h + 60 * m
            },
        ))),
{
}

/// The time of the day reads back: its hours, minutes and seconds, with colons
/// between them, are the seconds since midnight.
pub proof fn law_time_of_day_reads_back(second: nat)
    requires
        second < 86_400,
    ensures
        ({
            let t = time_of_day(second);
            let h = number_in(t.subrange(0, 2), 10);
            let m = number_in(t.subrange(3, 5), 10);
            let s = number_in(t.subrange(6, 8), 10);
            &&& t.len() == 8 && t[2] == ':' && t[5] == ':'
            &&& h < 24 && m < 60 && s < 60
            &&& 3600 * h + 60 * m + s == second
        }),
{
    reveal_strlit(":");
    let (h, m, s) = (second / 3600, (second % 3600) / 60, second % 60);
    law_two_digits_read_back(h);
    law_two_digits_read_back(m);
    law_two_digits_read_back(s);
    let t = time_of_day(second);
    assert(t.subrange(0, 2) =~= two_digits(h));
    assert(t.subrange(3, 5) =~= two_digits(m));
    assert(t.subrange(6, 8) =~= two_digits(s));
}

} // verus!
