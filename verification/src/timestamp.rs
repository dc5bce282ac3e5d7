//! What a timestamp's fields weigh.
//!
//! `time` reads RFC 3339 timestamps; this says, of the plainest form a
//! deadline takes, what the reading comes to in terms of its digits.

use vstd::prelude::*;

use crate::text::{all_dec, dec_value, field, is_boundary, is_dec_digit};
use crate::time::{civil_days, date_of_bytes, last_sign, offset_of_bytes, timestamp_of_bytes};

verus! {

/// The number the two ASCII digits at `i` and `i + 1` spell.
pub open spec fn two_digits(b: Seq<u8>, i: int) -> int {
    (b[i] - 48) * 10 + (b[i + 1] - 48)
}

/// Whether `b` begins `YYYY-MM-DDThh:mm:ss` with every digit a digit.
pub open spec fn begins_with_time(b: Seq<u8>) -> bool {
    &&& b.len() >= 19
    &&& b[4] == 45 && b[7] == 45 && b[10] == 84 && b[13] == 58 && b[16] == 58
    &&& forall|i: int|
        0 <= i < 19 && i != 4 && i != 7 && i != 10 && i != 13 && i != 16 ==> is_dec_digit(
            #[trigger] b[i],
        )
}

/// Whether `b` is `YYYY-MM-DDThh:mm:ssZ` with every digit a digit.
pub open spec fn is_utc_timestamp(b: Seq<u8>) -> bool {
    &&& b.len() == 20
    &&& begins_with_time(b)
    &&& b[19] == 90
}

/// Whether `b` is `YYYY-MM-DDThh:mm:ss+HH:MM` or the same with `-`, with
/// every digit a digit.
pub open spec fn is_offset_timestamp(b: Seq<u8>) -> bool {
    &&& b.len() == 25
    &&& begins_with_time(b)
    &&& (b[19] == 43 || b[19] == 45)
    &&& is_dec_digit(b[20]) && is_dec_digit(b[21]) && b[22] == 58 && is_dec_digit(b[23])
        && is_dec_digit(b[24])
}

/// The seconds since the epoch that the date and time fields of `b` name,
/// read in UTC.
pub open spec fn fields_in_seconds(b: Seq<u8>) -> int {
    civil_days(two_digits(b, 0) * 100 + two_digits(b, 2), two_digits(b, 5), two_digits(b, 8))
        * 86400 + two_digits(b, 11) * 3600 + two_digits(b, 14) * 60 + two_digits(b, 17)
}

/// Whether the date and time fields of `b` are in range.
pub open spec fn fields_in_range(b: Seq<u8>) -> bool {
    &&& 1 <= two_digits(b, 5) <= 12
    &&& 1 <= two_digits(b, 8) <= 31
    &&& two_digits(b, 11) <= 23
    &&& two_digits(b, 14) <= 59
    &&& two_digits(b, 17) <= 60
}

/// A timestamp in UTC counts its fields at their weights: each day 86,400
/// seconds from the epoch, each hour 3,600, each minute 60 and each second
/// one. A later minute is exactly sixty seconds later.
pub proof fn law_a_utc_timestamp_counts_its_fields(b: Seq<u8>)
    requires
        is_utc_timestamp(b),
        fields_in_range(b),
    ensures
        timestamp_of_bytes(b) == Some(
            civil_days(two_digits(b, 0) * 100 + two_digits(b, 2), two_digits(b, 5), two_digits(b, 8))
                * 86400 + two_digits(b, 11) * 3600 + two_digits(b, 14) * 60 + two_digits(b, 17),
        ),
{
    lemma_time_fields(b);
    let t = b.subrange(10, b.len() as int).drop_first();
    assert(t.last() == 90);
    assert(offset_of_bytes(t) == Some(0int));
}

/// The fields of a timestamp that begins `YYYY-MM-DDThh:mm:ss` read as the
/// numbers their digits spell.
proof fn lemma_time_fields(b: Seq<u8>)
    requires
        begins_with_time(b),
        forall|i: int| 19 <= i < b.len() ==> #[trigger] b[i] < 0x80,
    ensures
        date_of_bytes(b) == (if 1 <= two_digits(b, 5) <= 12 && 1 <= two_digits(b, 8) <= 31 {
            Some(civil_days(two_digits(b, 0) * 100 + two_digits(b, 2), two_digits(b, 5), two_digits(b, 8)))
        } else {
            None
        }),
        is_boundary(b, 10),
        ({
            let t = b.subrange(10, b.len() as int).drop_first();
            &&& b.subrange(10, b.len() as int).len() > 0
            &&& b.subrange(10, b.len() as int)[0] == 84
            &&& field(t, 0, 2, true) == Some(two_digits(b, 11))
            &&& field(t, 3, 5, true) == Some(two_digits(b, 14))
            &&& field(t, 6, 8, true) == Some(two_digits(b, 17))
            &&& forall|i: int| 0 <= i <= t.len() ==> is_boundary(t, i)
        }),
{
    reveal_with_fuel(crate::text::dec_value, 5);
    assert forall|i: int| 0 <= i < b.len() implies #[trigger] b[i] < 0x80 by {
        if i < 19 && i != 4 && i != 7 && i != 10 && i != 13 && i != 16 {
            assert(is_dec_digit(b[i]));
        }
    }
    assert forall|i: int| 0 <= i <= b.len() implies is_boundary(b, i) by {
        if 0 < i < b.len() {
            assert(b[i] < 0x80);
        }
    }
    let y = b.subrange(0, 4);
    assert(is_dec_digit(b[0]) && is_dec_digit(b[1]) && is_dec_digit(b[2]) && is_dec_digit(b[3]));
    assert(all_dec(y));
    assert(y.drop_last().drop_last().drop_last().drop_last().len() == 0);
    assert(dec_value(y) == two_digits(b, 0) * 100 + two_digits(b, 2)) by {
        assert(y.drop_last() =~= b.subrange(0, 3));
        assert(y.drop_last().drop_last() =~= b.subrange(0, 2));
        assert(y.drop_last().drop_last().drop_last() =~= b.subrange(0, 1));
    }
    assert(field(b, 0, 4, true) == Some(two_digits(b, 0) * 100 + two_digits(b, 2)));
    lemma_two_digit_field(b, 5);
    lemma_two_digit_field(b, 8);
    let rest = b.subrange(10, b.len() as int);
    let t = rest.drop_first();
    assert(t =~= b.subrange(11, b.len() as int));
    assert forall|i: int| 0 <= i <= t.len() implies is_boundary(t, i) by {
        if 0 < i < t.len() {
            assert(t[i] == b[i + 11]);
            assert(b[i + 11] < 0x80);
        }
    }
    lemma_two_digit_field(t, 0);
    lemma_two_digit_field(t, 3);
    lemma_two_digit_field(t, 6);
    assert(two_digits(t, 0) == two_digits(b, 11));
    assert(two_digits(t, 3) == two_digits(b, 14));
    assert(two_digits(t, 6) == two_digits(b, 17));
}

/// A timestamp with a zone offset names the moment its fields name in UTC,
/// moved back by the offset: `+HH:MM` is `HH` hours and `MM` minutes ahead of
/// UTC, so the same clock reading there is that much earlier, and `-HH:MM`
/// that much later.
pub proof fn law_an_offset_moves_the_moment(b: Seq<u8>)
    requires
        is_offset_timestamp(b),
        fields_in_range(b),
    ensures
        b[19] == 43 ==> timestamp_of_bytes(b) == Some(
            fields_in_seconds(b) - (two_digits(b, 20) * 3600 + two_digits(b, 23) * 60),
        ),
        b[19] == 45 ==> timestamp_of_bytes(b) == Some(
            fields_in_seconds(b) + (two_digits(b, 20) * 3600 + two_digits(b, 23) * 60),
        ),
{
    assert forall|i: int| 19 <= i < b.len() implies #[trigger] b[i] < 0x80 by {
        if i != 19 && i != 22 {
            assert(is_dec_digit(b[i]));
        }
    }
    lemma_time_fields(b);
    let t = b.subrange(10, b.len() as int).drop_first();
    assert(t =~= b.subrange(11, 25));
    assert(t.len() == 14);
    assert(t.last() == b[24]);
    assert(is_dec_digit(b[24]));
    assert(t.drop_last() =~= t.take(13));
    assert(t.take(13).drop_last() =~= t.take(12));
    assert(t.take(12).drop_last() =~= t.take(11));
    assert(t.take(11).drop_last() =~= t.take(10));
    assert(t.take(10).drop_last() =~= t.take(9));
    assert(t.take(13).last() == b[23]);
    assert(t.take(12).last() == b[22]);
    assert(t.take(11).last() == b[21]);
    assert(t.take(10).last() == b[20]);
    assert(t.take(9).last() == b[19]);
    assert(last_sign(t.take(9)) == Some(8int));
    assert(last_sign(t.take(10)) == Some(8int));
    assert(last_sign(t.take(11)) == Some(8int));
    assert(last_sign(t.take(12)) == Some(8int));
    assert(last_sign(t.take(13)) == Some(8int));
    assert(last_sign(t) == Some(8int));
    let o = t.subrange(9, 14);
    assert(o =~= b.subrange(20, 25));
    assert forall|i: int| 0 <= i <= o.len() implies is_boundary(o, i) by {
        if 0 < i < o.len() {
            assert(o[i] == b[i + 20]);
        }
    }
    lemma_two_digit_field(o, 0);
    lemma_two_digit_field(o, 3);
    assert(two_digits(o, 0) == two_digits(b, 20));
    assert(two_digits(o, 3) == two_digits(b, 23));
    assert(t[8] == b[19]);
    assert(is_boundary(t, 9));
    assert(t.subrange(9, t.len() as int) == o);
    let secs = two_digits(b, 20) * 3600 + two_digits(b, 23) * 60;
    assert(offset_of_bytes(t) == Some(
        if b[19] == 45 {
            -secs
        } else {
            secs
        },
    ));
    assert(date_of_bytes(b) == Some(
        civil_days(two_digits(b, 0) * 100 + two_digits(b, 2), two_digits(b, 5), two_digits(b, 8)),
    ));
}

/// Two digits at `i`, between boundaries, read as the number they spell.
proof fn lemma_two_digit_field(b: Seq<u8>, i: int)
    requires
        0 <= i,
        i + 2 <= b.len(),
        is_dec_digit(b[i]),
        is_dec_digit(b[i + 1]),
        is_boundary(b, i),
        is_boundary(b, i + 2),
    ensures
        field(b, i, i + 2, true) == Some(two_digits(b, i)),
        field(b, i, i + 2, false) == Some(two_digits(b, i)),
{
    reveal_with_fuel(crate::text::dec_value, 3);
    let s = b.subrange(i, i + 2);
    assert(s[0] == b[i] && s[1] == b[i + 1]);
    assert(all_dec(s));
    assert(s.drop_last() =~= seq![b[i]]);
    assert(s.drop_last().drop_last().len() == 0);
}


} // verus!
