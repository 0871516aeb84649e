//! The laws the library states about its own operations: the reader of
//! the backing-file format recovers exactly what the writer wrote, and
//! completing a habit twice on one day is the same as completing it
//! once.

use vstd::prelude::*;
use crate::date::DateTime;
use crate::habit::{HabitData, all_dates_valid};
use crate::codec::{
    digit_char,
    hex_char,
    dec_chars,
    datetime_chars,
    esc_char,
    esc_chars,
    habit_chars,
    habits_body,
    habits_chars,
    is_digit,
    digit_val,
    is_hex_digit,
    hex_val,
    lit_at,
    spec_parse_string,
    spec_parse_num_rest,
    spec_parse_u32,
    spec_parse_datetime,
    spec_parse_habit,
    spec_parse_items,
    spec_parse_habits,
};
use crate::ops::{spec_complete, has_name, first_with_name, counts_today, lemma_first_with_name};

verus! {

broadcast use vstd::utf8::char_is_scalar, vstd::utf8::char_u32_cast;

/// Powers of ten.
pub open spec fn pow10(k: nat) -> int
    decreases k,
{
    if k == 0 {
        1
    } else {
        10 * pow10((k - 1) as nat)
    }
}

/// The digit characters carry their values.
proof fn lemma_digit_char_val(d: int)
    requires
        0 <= d <= 9,
    ensures
        is_digit(digit_char(d)),
        digit_val(digit_char(d)) == d,
        d >= 1 ==> digit_char(d) != '0',
{
}

/// The hexadecimal digit characters carry their values.
proof fn lemma_hex_char_val(d: int)
    requires
        0 <= d <= 15,
    ensures
        is_hex_digit(hex_char(d)),
        hex_val(hex_char(d)) == d,
{
}

/// Every character of a decimal rendering is a digit.
proof fn lemma_dec_all_digits(n: int)
    requires
        n >= 0,
    ensures
        forall|k: int| 0 <= k < dec_chars(n).len() ==> is_digit(#[trigger] dec_chars(n)[k]),
        dec_chars(n).len() >= 1,
    decreases n,
{
    if n < 10 {
        lemma_digit_char_val(n);
    } else {
        lemma_dec_all_digits(n / 10);
        lemma_digit_char_val(n % 10);
        assert forall|k: int| 0 <= k < dec_chars(n).len() implies is_digit(
            #[trigger] dec_chars(n)[k],
        ) by {
            if k < dec_chars(n / 10).len() {
                assert(dec_chars(n)[k] == dec_chars(n / 10)[k]);
            } else {
                assert(dec_chars(n)[k] == digit_char(n % 10));
            }
        }
    }
}

/// A positive number's rendering does not begin with a zero.
proof fn lemma_dec_leading(n: int)
    requires
        n >= 1,
    ensures
        dec_chars(n)[0] != '0',
    decreases n,
{
    if n < 10 {
        lemma_digit_char_val(n);
    } else {
        lemma_dec_leading(n / 10);
        assert(dec_chars(n)[0] == dec_chars(n / 10)[0]);
    }
}

/// Reading the digits of `n` from position `i` carries the accumulator
/// past them, multiplied through by the digits consumed.
proof fn lemma_parse_digits(s: Seq<char>, i: int, acc: u32, n: u32)
    requires
        0 <= i,
        i + dec_chars(n as int).len() <= s.len(),
        s.subrange(i, i + dec_chars(n as int).len() as int) == dec_chars(n as int),
        acc * pow10(dec_chars(n as int).len() as nat) + n <= u32::MAX,
    ensures
        spec_parse_num_rest(s, i, acc) == spec_parse_num_rest(
            s,
            i + dec_chars(n as int).len() as int,
            ((acc * pow10(dec_chars(n as int).len() as nat) + n) as u32),
        ),
    decreases n,
{
    let ds = dec_chars(n as int);
    let len = ds.len() as int;
    if n < 10 {
        lemma_digit_char_val(n as int);
        assert(s[i] == ds[0]);
        assert(pow10(0nat) == 1);
        assert(pow10(1nat) == 10);
        assert(acc * 10 + n <= u32::MAX);
    } else {
        let m = (n / 10) as u32;
        let dlast = (n % 10) as int;
        let dm = dec_chars(m as int);
        let lm = dm.len() as int;
        assert(ds == dm.push(digit_char(dlast)));
        assert(len == lm + 1);
        assert(s.subrange(i, i + lm) =~= dm) by {
            assert forall|k: int| 0 <= k < lm implies s.subrange(i, i + lm)[k] == dm[k] by {
                assert(s.subrange(i, i + len)[k] == s[i + k]);
                assert(ds[k] == dm[k]);
            }
        }
        assert(pow10(len as nat) == 10 * pow10(lm as nat));
        assert((acc * pow10(lm as nat) + m) * 10 + dlast == acc * pow10(len as nat) + n) by {
            assert((acc * pow10(lm as nat) + m) * 10 == acc * (pow10(lm as nat) * 10) + m * 10)
                by (nonlinear_arith);
            assert(m * 10 + dlast == n);
            assert(pow10(lm as nat) * 10 == 10 * pow10(lm as nat));
        }
        lemma_pow10_pos(lm as nat);
        assert(acc * pow10(lm as nat) >= 0) by (nonlinear_arith)
            requires
                acc >= 0,
                pow10(lm as nat) >= 1,
        ;
        assert(acc * pow10(lm as nat) + m <= u32::MAX);
        lemma_parse_digits(s, i, acc, m);
        let mid = ((acc * pow10(lm as nat) + m) as u32) as int;
        assert(s[i + lm] == ds[lm]) by {
            assert(s.subrange(i, i + len)[lm] == s[i + lm]);
        }
        assert(ds[lm] == digit_char(dlast));
        lemma_digit_char_val(dlast);
        assert(spec_parse_num_rest(s, i + lm, (mid) as u32) == spec_parse_num_rest(
            s,
            i + len,
            ((mid * 10 + dlast) as u32),
        ));
    }
}

/// Powers of ten are positive.
proof fn lemma_pow10_pos(k: nat)
    ensures
        pow10(k) >= 1,
    decreases k,
{
    if k > 0 {
        lemma_pow10_pos((k - 1) as nat);
    }
}

/// A part of a sequence that stands inside a matched region stands in
/// the enclosing sequence at its shifted position.
proof fn lemma_subrange_part(s: Seq<char>, i: int, whole: Seq<char>, off: int, part: Seq<char>)
    requires
        0 <= i,
        i + whole.len() <= s.len(),
        s.subrange(i, i + whole.len() as int) == whole,
        0 <= off,
        off + part.len() <= whole.len(),
        forall|k: int| 0 <= k < part.len() ==> whole[off + k] == #[trigger] part[k],
    ensures
        s.subrange(i + off, i + off + part.len() as int) == part,
{
    assert forall|k: int| 0 <= k < part.len() implies s.subrange(
        i + off,
        i + off + part.len() as int,
    )[k] == part[k] by {
        assert(s.subrange(i, i + whole.len() as int)[off + k] == s[i + off + k]);
    }
    assert(s.subrange(i + off, i + off + part.len() as int) =~= part);
}

/// The characters of a matched region stand in the enclosing sequence.
proof fn lemma_subrange_index(s: Seq<char>, i: int, whole: Seq<char>)
    requires
        0 <= i,
        i + whole.len() <= s.len(),
        s.subrange(i, i + whole.len() as int) == whole,
    ensures
        forall|k: int| 0 <= k < whole.len() ==> s[i + k] == #[trigger] whole[k],
{
    assert forall|k: int| 0 <= k < whole.len() implies s[i + k] == #[trigger] whole[k] by {
        assert(s.subrange(i, i + whole.len() as int)[k] == s[i + k]);
    }
}

/// A name's written form, followed by the closing quote, reads back as
/// exactly the name.
proof fn lemma_parse_string_complete(s: Seq<char>, i: int, name: Seq<char>)
    requires
        0 <= i,
        i + esc_chars(name).len() + 1 <= s.len(),
        s.subrange(i, i + esc_chars(name).len() as int) == esc_chars(name),
        s[i + esc_chars(name).len() as int] == '"',
    ensures
        spec_parse_string(s, i) == Some((name, i + esc_chars(name).len() + 1)),
    decreases name.len(),
{
    let whole = esc_chars(name);
    let len = whole.len() as int;
    lemma_subrange_index(s, i, whole);
    if name.len() == 0 {
        assert(s[i] == '"');
        assert(name =~= Seq::<char>::empty());
    } else {
        let c = name[0];
        let e = esc_char(c);
        let tail = name.skip(1);
        let et = esc_chars(tail);
        assert(whole == e + et);
        let elen = e.len() as int;
        assert forall|k: int| 0 <= k < elen implies s[i + k] == #[trigger] e[k] by {
            assert(whole[k] == e[k]);
        }
        let j = i + elen;
        lemma_subrange_part(s, i, whole, elen, et);
        assert(s[j + et.len() as int] == '"');
        lemma_parse_string_complete(s, j, tail);
        let end = j + et.len() as int + 1;
        assert(spec_parse_string(s, j) == Some((tail, end)));
        if c == '"' {
            assert(e == seq!['\\', '"']);
            assert(s[i] == '\\' && s[i + 1] == '"');
            assert(spec_parse_string(s, i) == Some((seq![c] + tail, end)));
            assert(seq![c] + tail =~= name);
        } else if c == '\\' {
            assert(e == seq!['\\', '\\']);
            assert(s[i] == '\\' && s[i + 1] == '\\');
            assert(spec_parse_string(s, i) == Some((seq![c] + tail, end)));
            assert(seq![c] + tail =~= name);
        } else if (c as u32) < 32 {
            let hi = ((c as u32) / 16) as int;
            let lo = ((c as u32) % 16) as int;
            assert(e == seq!['\\', 'u', '0', '0', hex_char(hi), hex_char(lo)]);
            assert(s[i] == '\\' && s[i + 1] == 'u' && s[i + 2] == '0' && s[i + 3] == '0');
            assert(s[i + 4] == hex_char(hi) && s[i + 5] == hex_char(lo));
            lemma_hex_char_val(0);
            lemma_hex_char_val(hi);
            lemma_hex_char_val(lo);
            assert(hex_val('0') == 0);
            assert(is_hex_digit(s[i + 2]) && is_hex_digit(s[i + 3]) && is_hex_digit(s[i + 4])
                && is_hex_digit(s[i + 5]));
            let v = ((hex_val(s[i + 2]) * 16 + hex_val(s[i + 3])) * 16 + hex_val(s[i + 4])) * 16
                + hex_val(s[i + 5]);
            assert(v == hi * 16 + lo);
            assert(v == c as u32);
            assert(v < 32);
            let c2 = (v as u8) as char;
            assert(c2 as u32 == v);
            vstd::utf8::char_u32_cast(c2, c2 as u32);
            vstd::utf8::char_u32_cast(c, c as u32);
            assert(c2 as u32 == c as u32);
            assert(c2 == c);
            assert(spec_parse_string(s, i) == Some((seq![c] + tail, end)));
            assert(seq![c] + tail =~= name);
        } else {
            assert(e == seq![c]);
            assert(s[i + 0] == e[0]);
            assert(e[0] == c);
            assert(s[i] == c);
            assert(spec_parse_string(s, i) == Some((seq![c] + tail, end)));
            assert(seq![c] + tail =~= name);
        }
    }
}

/// The canonical rendering of `n`, followed by anything but a digit,
/// reads back as exactly `n`.
proof fn lemma_parse_u32_complete(s: Seq<char>, i: int, n: u32)
    requires
        0 <= i,
        i + dec_chars(n as int).len() <= s.len(),
        s.subrange(i, i + dec_chars(n as int).len() as int) == dec_chars(n as int),
        i + dec_chars(n as int).len() == s.len() || !is_digit(s[i + dec_chars(n as int).len()]),
    ensures
        spec_parse_u32(s, i) == Some((n, i + dec_chars(n as int).len() as int)),
{
    let ds = dec_chars(n as int);
    let len = ds.len() as int;
    lemma_dec_all_digits(n as int);
    assert(s[i] == ds[0]) by {
        assert(s.subrange(i, i + len)[0] == s[i]);
    }
    if n == 0 {
        lemma_digit_char_val(0);
        assert(ds == seq![digit_char(0)]);
        assert(s[i] == '0');
    } else {
        lemma_dec_leading(n as int);
        assert(s[i] != '0');
        lemma_pow10_pos(ds.len());
        assert(0 * pow10(ds.len()) + n <= u32::MAX) by {
            assert(0 * pow10(ds.len()) == 0) by (nonlinear_arith);
        }
        lemma_parse_digits(s, i, 0, n);
        assert(0 * pow10(ds.len()) + n == n) by {
            assert(0 * pow10(ds.len()) == 0) by (nonlinear_arith);
        }
        assert(spec_parse_num_rest(s, i + len, n) == Some((n, i + len)));
    }
}

/// A valid timestamp's nineteen written characters read back as exactly
/// that timestamp.
#[verifier::rlimit(60)]
proof fn lemma_parse_datetime_complete(s: Seq<char>, i: int, t: DateTime)
    requires
        0 <= i,
        t.valid(),
        i + 19 <= s.len(),
        s.subrange(i, i + 19) == datetime_chars(t),
    ensures
        spec_parse_datetime(s, i) == Some((t, i + 19)),
{
    let y = t.year as int;
    let mo = t.month as int;
    let d = t.day as int;
    let h = t.hour as int;
    let mi = t.minute as int;
    let sec = t.second as int;
    let w = datetime_chars(t);
    assert(w =~= seq![
        digit_char(y / 1000),
        digit_char((y / 100) % 10),
        digit_char((y / 10) % 10),
        digit_char(y % 10),
        '-',
        digit_char(mo / 10),
        digit_char(mo % 10),
        '-',
        digit_char(d / 10),
        digit_char(d % 10),
        'T',
        digit_char(h / 10),
        digit_char(h % 10),
        ':',
        digit_char(mi / 10),
        digit_char(mi % 10),
        ':',
        digit_char(sec / 10),
        digit_char(sec % 10),
    ]);
    lemma_subrange_index(s, i, w);
    assert(s[i + 0] == w[0] && s[i + 1] == w[1] && s[i + 2] == w[2] && s[i + 3] == w[3]);
    assert(s[i + 4] == w[4] && s[i + 5] == w[5] && s[i + 6] == w[6] && s[i + 7] == w[7]);
    assert(s[i + 8] == w[8] && s[i + 9] == w[9] && s[i + 10] == w[10] && s[i + 11] == w[11]);
    assert(s[i + 12] == w[12] && s[i + 13] == w[13] && s[i + 14] == w[14] && s[i + 15] == w[15]);
    assert(s[i + 16] == w[16] && s[i + 17] == w[17] && s[i + 18] == w[18]);
    lemma_digit_char_val(y / 1000);
    lemma_digit_char_val((y / 100) % 10);
    lemma_digit_char_val((y / 10) % 10);
    lemma_digit_char_val(y % 10);
    lemma_digit_char_val(mo / 10);
    lemma_digit_char_val(mo % 10);
    lemma_digit_char_val(d / 10);
    lemma_digit_char_val(d % 10);
    lemma_digit_char_val(h / 10);
    lemma_digit_char_val(h % 10);
    lemma_digit_char_val(mi / 10);
    lemma_digit_char_val(mi % 10);
    lemma_digit_char_val(sec / 10);
    lemma_digit_char_val(sec % 10);
    assert((y / 1000) * 1000 + ((y / 100) % 10) * 100 + ((y / 10) % 10) * 10 + y % 10 == y);
    assert((mo / 10) * 10 + mo % 10 == mo);
    assert((d / 10) * 10 + d % 10 == d);
    assert((h / 10) * 10 + h % 10 == h);
    assert((mi / 10) * 10 + mi % 10 == mi);
    assert((sec / 10) * 10 + sec % 10 == sec);
}

/// A habit's written object reads back as exactly that habit.
#[verifier::rlimit(100)]
proof fn lemma_parse_habit_complete(s: Seq<char>, i: int, h: HabitData)
    requires
        0 <= i,
        h.last_done.valid(),
        i + habit_chars(h).len() <= s.len(),
        s.subrange(i, i + habit_chars(h).len() as int) == habit_chars(h),
    ensures
        spec_parse_habit(s, i) == Some((h, i + habit_chars(h).len() as int)),
        habit_chars(h).len() >= 1,
{
    reveal_strlit("{\"name\":\"");
    reveal_strlit("\",\"streak\":");
    reveal_strlit(",\"streak\":");
    reveal_strlit(",\"last_done\":\"");
    reveal_strlit("\"}");
    let l1 = "{\"name\":\""@;
    let e = esc_chars(h.name);
    let l2 = "\",\"streak\":"@;
    let r2 = ",\"streak\":"@;
    let d = dec_chars(h.streak as int);
    let l3 = ",\"last_done\":\""@;
    let dt = datetime_chars(h.last_done);
    let l4 = "\"}"@;
    let w = habit_chars(h);
    let elen = e.len() as int;
    let dlen = d.len() as int;
    assert(l1.len() == 9 && l2.len() == 11 && r2.len() == 10 && l3.len() == 14 && l4.len() == 2);
    assert(dt.len() == 19);
    assert(l2 =~= seq!['"'] + r2);
    assert(w.len() == 9 + elen + 11 + dlen + 14 + 19 + 2);
    lemma_subrange_index(s, i, w);
    // the object's opening literal
    lemma_subrange_part(s, i, w, 0, l1);
    assert(lit_at(s, i, l1));
    // the name, closed by the quote that begins the next literal
    lemma_subrange_part(s, i, w, 9, e);
    assert(w[9 + elen] == l2[0]);
    assert(s[i + 9 + elen] == '"');
    lemma_parse_string_complete(s, i + 9, h.name);
    let j = i + 9 + elen + 1;
    assert(spec_parse_string(s, i + 9) == Some((h.name, j)));
    // the streak literal, shorn of that quote
    lemma_subrange_part(s, i, w, 9 + elen + 1, r2);
    assert(lit_at(s, j, r2));
    // the streak digits, bounded by the comma of the next literal
    lemma_subrange_part(s, i, w, 20 + elen, d);
    assert(w[20 + elen + dlen] == l3[0]);
    assert(s[j + 10 + dlen] == ',');
    assert(!is_digit(','));
    lemma_parse_u32_complete(s, j + 10, h.streak);
    let k = j + 10 + dlen;
    assert(spec_parse_u32(s, j + 10) == Some((h.streak, k)));
    // the last-done literal and the timestamp
    lemma_subrange_part(s, i, w, 20 + elen + dlen, l3);
    assert(lit_at(s, k, l3));
    lemma_subrange_part(s, i, w, 34 + elen + dlen, dt);
    lemma_parse_datetime_complete(s, k + 14, h.last_done);
    let m = k + 14 + 19;
    // the closing literal
    lemma_subrange_part(s, i, w, 53 + elen + dlen, l4);
    assert(lit_at(s, m, l4));
    assert(HabitData { name: h.name, streak: h.streak, last_done: h.last_done } =~= h);
    assert(m + 2 == i + w.len());
}

/// The written items of a non-empty collection, ending at the closing
/// bracket, read back as exactly that collection.
proof fn lemma_parse_items_complete(s: Seq<char>, i: int, hs: Seq<HabitData>)
    requires
        0 <= i,
        hs.len() >= 1,
        all_dates_valid(hs),
        i + habits_body(hs).len() + 1 == s.len(),
        s.subrange(i, i + habits_body(hs).len() as int) == habits_body(hs),
        s[s.len() - 1] == ']',
    ensures
        spec_parse_items(s, i) == Some(hs),
    decreases hs.len(),
{
    let body = habits_body(hs);
    let h = hs[0];
    assert(h.last_done.valid());
    if hs.len() == 1 {
        assert(body == habit_chars(h));
        lemma_parse_habit_complete(s, i, h);
        let j = i + habit_chars(h).len() as int;
        assert(j == s.len() - 1);
        assert(s[j] == ']');
        assert(seq![h] =~= hs);
    } else {
        let tail = hs.skip(1);
        let hc = habit_chars(h);
        let hlen = hc.len() as int;
        assert(body == hc + seq![','] + habits_body(tail));
        lemma_subrange_index(s, i, body);
        lemma_subrange_part(s, i, body, 0, hc);
        lemma_parse_habit_complete(s, i, h);
        let j = i + hlen;
        assert(s[i + hlen] == ',') by {
            assert(body[hlen] == ',');
        }
        assert(all_dates_valid(tail)) by {
            assert(forall|q: int| 0 <= q < tail.len() ==> #[trigger] tail[q] == hs[q + 1]);
        }
        lemma_subrange_part(s, i, body, hlen + 1, habits_body(tail));
        lemma_parse_items_complete(s, j + 1, tail);
        assert(spec_parse_items(s, j + 1) == Some(tail));
        assert(seq![h] + tail =~= hs);
    }
}

/// Round trip: what the writer produces for any collection of habits
/// with valid timestamps, the reader parses back to exactly that
/// collection.
#[verifier::rlimit(60)]
pub proof fn lemma_round_trip(hs: Seq<HabitData>)
    requires
        all_dates_valid(hs),
    ensures
        spec_parse_habits(habits_chars(hs)) == Some(hs),
{
    let body = habits_body(hs);
    let s = habits_chars(hs);
    assert(s.len() == body.len() + 2);
    if hs.len() == 0 {
        assert(s =~= seq!['[', ']']);
        assert(Seq::<HabitData>::empty() =~= hs);
    } else {
        reveal_strlit("{\"name\":\"");
        let h = hs[0];
        assert(habit_chars(h).len() >= 9) by {
            assert(habit_chars(h) == "{\"name\":\""@ + (esc_chars(h.name) + "\",\"streak\":"@
                + dec_chars(h.streak as int) + ",\"last_done\":\""@ + datetime_chars(h.last_done)
                + "\"}"@));
        }
        assert(body.len() >= 9) by {
            if hs.len() == 1 {
                assert(body == habit_chars(h));
            } else {
                assert(body == habit_chars(h) + seq![','] + habits_body(hs.skip(1)));
            }
        }
        assert(s[0] == '[');
        assert(s[s.len() - 1] == ']') by {
            assert(s.len() - 1 == 1 + body.len());
        }
        assert(s.subrange(1, 1 + body.len() as int) =~= body) by {
            assert(forall|k: int| 0 <= k < body.len() ==> s[1 + k] == #[trigger] body[k]);
        }
        lemma_parse_items_complete(s, 1, hs);
        assert(s.len() != 2);
    }
}

/// The day numbers that the decay rule compares count real days: the
/// calendar date after `d` has day number one above `d`'s, across month
/// and year boundaries alike.
pub proof fn lemma_day_number_steps_by_one(d: DateTime)
    requires
        d.valid(),
        d.next_calendar_date().valid(),
    ensures
        d.next_calendar_date().day_number() == d.day_number() + 1,
{
    let y = d.year as int;
    let e = d.next_calendar_date();
    if d.day < crate::date::days_in_month(d.year, d.month) {
    } else if d.month < 12 {
        assert(crate::date::days_before_month(d.year, (d.month + 1) as u32)
            == crate::date::days_before_month(d.year, d.month) + crate::date::days_in_month(
            d.year,
            d.month,
        ) as int);
    } else {
        assert((y + 4) / 4 - (y + 3) / 4 + ((y + 400) / 400 - (y + 399) / 400) - ((y + 100) / 100
            - (y + 99) / 100) == if crate::date::is_leap_year(d.year) {
            1int
        } else {
            0int
        }) by {
            assert(y == 4 * (y / 4) + y % 4);
            assert(y == 100 * (y / 100) + y % 100);
            assert(y == 400 * (y / 400) + y % 400);
        }
    }
}

/// Every habit object the reader accepts carries a valid timestamp.
proof fn lemma_items_dates_valid(s: Seq<char>, i: int)
    ensures
        spec_parse_items(s, i) matches Some(hs) ==> all_dates_valid(hs),
    decreases s.len() - i,
{
    match spec_parse_habit(s, i) {
        None => {},
        Some((h, j)) => {
            assert(h.last_done.valid());
            if j < s.len() && s[j] == ',' && i < j + 1 {
                lemma_items_dates_valid(s, j + 1);
                match spec_parse_items(s, j + 1) {
                    None => {},
                    Some(rest) => {
                        assert forall|q: int| 0 <= q < (seq![h] + rest).len() implies (#[trigger] (
                        seq![h] + rest)[q]).last_done.valid() by {
                            if q > 0 {
                                assert((seq![h] + rest)[q] == rest[q - 1]);
                            }
                        }
                    },
                }
            }
        },
    }
}

/// Whatever collection a load accepts, every timestamp in it is valid.
pub proof fn lemma_loaded_dates_valid(text: Seq<char>)
    ensures
        all_dates_valid(crate::codec::spec_loaded(text)),
{
    if text.len() == 2 && text[0] == '[' && text[1] == ']' {
    } else if text.len() >= 2 && text[0] == '[' {
        lemma_items_dates_valid(text, 1);
    }
}

/// The position of the first habit with a name depends only on the
/// names, as does whether one exists.
proof fn lemma_first_with_name_names(a: Seq<HabitData>, b: Seq<HabitData>, name: Seq<char>)
    requires
        a.len() == b.len(),
        forall|k: int| 0 <= k < a.len() ==> (#[trigger] a[k]).name == (#[trigger] b[k]).name,
    ensures
        first_with_name(a, name) == first_with_name(b, name),
        has_name(a, name) == has_name(b, name),
    decreases a.len(),
{
    if a.len() == 0 {
    } else {
        assert(a[0].name == b[0].name);
        assert forall|k: int| 0 <= k < a.skip(1).len() implies (#[trigger] a.skip(1)[k]).name == (
        #[trigger] b.skip(1)[k]).name by {
            assert(a.skip(1)[k] == a[k + 1]);
            assert(b.skip(1)[k] == b[k + 1]);
        }
        lemma_first_with_name_names(a.skip(1), b.skip(1), name);
        if has_name(a, name) {
            let q = choose|q: int| 0 <= q < a.len() && (#[trigger] a[q]).name == name;
            assert(b[q].name == name);
        }
        if has_name(b, name) {
            let q = choose|q: int| 0 <= q < b.len() && (#[trigger] b[q]).name == name;
            assert(a[q].name == name);
        }
    }
}

/// Names stay unique: the add operation never puts a second habit of an
/// existing name into a collection whose names are unique, and the
/// completion operation renames nothing.
pub proof fn lemma_ops_keep_names_unique(
    hs: Seq<HabitData>,
    name: Seq<char>,
    now: DateTime,
)
    requires
        crate::habit::names_unique(hs),
    ensures
        crate::habit::names_unique(crate::ops::spec_add(hs, name, now)),
        crate::habit::names_unique(spec_complete(hs, name, now).0),
{
    let added = crate::ops::spec_add(hs, name, now);
    if !has_name(hs, name) {
        assert forall|a: int, b: int| 0 <= a < b < added.len() implies (#[trigger] added[a]).name
            != (#[trigger] added[b]).name by {
            if b == hs.len() as int {
                assert(added[a] == hs[a]);
                assert(!(hs[a].name == name));
            }
        }
    }
    let done = spec_complete(hs, name, now).0;
    if has_name(hs, name) {
        lemma_first_with_name(hs, name);
        let i = first_with_name(hs, name);
        if counts_today(hs[i], now) {
            assert forall|a: int, b: int| 0 <= a < b < done.len() implies (#[trigger] done[a]).name
                != (#[trigger] done[b]).name by {
                assert(done[a].name == hs[a].name);
                assert(done[b].name == hs[b].name);
            }
        }
    }
}

/// Completing a habit twice within one calendar date changes the
/// collection exactly as completing it once does: the second completion
/// is a no-op.
pub proof fn lemma_complete_twice_same_day(
    hs: Seq<HabitData>,
    name: Seq<char>,
    t1: DateTime,
    t2: DateTime,
)
    requires
        t1.same_calendar_date(t2),
        crate::habit::all_streaks_below_max(hs),
    ensures
        spec_complete(spec_complete(hs, name, t1).0, name, t2).0 == spec_complete(hs, name, t1).0,
{
    if !has_name(hs, name) {
        lemma_first_with_name_names(hs, hs, name);
    } else {
        lemma_first_with_name(hs, name);
        let i = first_with_name(hs, name);
        let h = hs[i];
        let hs1 = spec_complete(hs, name, t1).0;
        if counts_today(h, t1) {
            let h1 = HabitData { name: h.name, streak: (h.streak + 1) as u32, last_done: t1 };
            assert(hs1 == hs.update(i, h1));
            assert forall|k: int| 0 <= k < hs.len() implies (#[trigger] hs[k]).name == (
            #[trigger] hs1[k]).name by {}
            lemma_first_with_name_names(hs, hs1, name);
            assert(has_name(hs1, name));
            assert(first_with_name(hs1, name) == i);
            assert(hs1[i] == h1);
            assert(h1.streak > 0);
            assert(h1.last_done.same_calendar_date(t2));
            assert(!counts_today(h1, t2));
        } else {
            assert(hs1 == hs);
            assert(h.streak > 0);
            assert(h.last_done.same_calendar_date(t1));
            assert(h.last_done.same_calendar_date(t2));
            assert(!counts_today(h, t2));
        }
    }
}

} // verus!
