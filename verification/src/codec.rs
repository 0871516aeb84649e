//! The JSON backing-file format, as this library's own logic.
//!
//! A stored collection is one JSON array of objects, each with the
//! fields `name`, `streak` and `last_done` in that order and nothing
//! between the tokens; timestamps print as `YYYY-MM-DDTHH:MM:SS`. The
//! writer is pinned to the spec functions here character by character,
//! the reader to a spec parser, and the two are related by a proved
//! round-trip law in [`crate::laws`].

use vstd::prelude::*;
use crate::date::DateTime;
use crate::habit::{Habit, HabitData, views_of, all_dates_valid};

verus! {

broadcast use vstd::utf8::char_is_scalar, vstd::utf8::char_u32_cast;

/// The decimal digit character for `d` (0 to 9).
pub open spec fn digit_char(d: int) -> char {
    if d == 0 {
        '0'
    } else if d == 1 {
        '1'
    } else if d == 2 {
        '2'
    } else if d == 3 {
        '3'
    } else if d == 4 {
        '4'
    } else if d == 5 {
        '5'
    } else if d == 6 {
        '6'
    } else if d == 7 {
        '7'
    } else if d == 8 {
        '8'
    } else {
        '9'
    }
}

/// The lower-case hexadecimal digit character for `d` (0 to 15).
pub open spec fn hex_char(d: int) -> char {
    if d < 10 {
        digit_char(d)
    } else if d == 10 {
        'a'
    } else if d == 11 {
        'b'
    } else if d == 12 {
        'c'
    } else if d == 13 {
        'd'
    } else if d == 14 {
        'e'
    } else {
        'f'
    }
}

/// Canonical decimal rendering of `n`, without leading zeros.
pub open spec fn dec_chars(n: int) -> Seq<char>
    decreases n,
{
    if n < 10 {
        seq![digit_char(n)]
    } else {
        dec_chars(n / 10).push(digit_char(n % 10))
    }
}

/// Two-digit zero-padded rendering of `v` (0 to 99).
pub open spec fn pad2(v: int) -> Seq<char> {
    seq![digit_char(v / 10), digit_char(v % 10)]
}

/// Four-digit zero-padded rendering of `v` (0 to 9999).
pub open spec fn pad4(v: int) -> Seq<char> {
    seq![digit_char(v / 1000), digit_char((v / 100) % 10), digit_char((v / 10) % 10), digit_char(
        v % 10,
    )]
}

/// A timestamp as the nineteen characters `YYYY-MM-DDTHH:MM:SS`.
pub open spec fn datetime_chars(t: DateTime) -> Seq<char> {
    pad4(t.year as int) + seq!['-'] + pad2(t.month as int) + seq!['-'] + pad2(t.day as int)
        + seq!['T'] + pad2(t.hour as int) + seq![':'] + pad2(t.minute as int) + seq![':'] + pad2(
        t.second as int,
    )
}

/// How one character of a name is written inside a JSON string: quote
/// and backslash take an escape, control characters take `\u00` and two
/// hex digits, everything else stands as itself.
pub open spec fn esc_char(c: char) -> Seq<char> {
    if c == '"' {
        seq!['\\', '"']
    } else if c == '\\' {
        seq!['\\', '\\']
    } else if (c as u32) < 32 {
        seq!['\\', 'u', '0', '0', hex_char(((c as u32) / 16) as int), hex_char(((c as u32) % 16) as int)]
    } else {
        seq![c]
    }
}

/// A whole name written inside a JSON string.
pub open spec fn esc_chars(s: Seq<char>) -> Seq<char>
    decreases s.len(),
{
    if s.len() == 0 {
        Seq::empty()
    } else {
        esc_char(s[0]) + esc_chars(s.skip(1))
    }
}

/// One habit as a JSON object.
pub open spec fn habit_chars(h: HabitData) -> Seq<char> {
    "{\"name\":\""@ + esc_chars(h.name) + "\",\"streak\":"@ + dec_chars(h.streak as int)
        + ",\"last_done\":\""@ + datetime_chars(h.last_done) + "\"}"@
}

/// The comma-separated habit objects, without the surrounding brackets.
pub open spec fn habits_body(hs: Seq<HabitData>) -> Seq<char>
    decreases hs.len(),
{
    if hs.len() == 0 {
        Seq::empty()
    } else if hs.len() == 1 {
        habit_chars(hs[0])
    } else {
        habit_chars(hs[0]) + seq![','] + habits_body(hs.skip(1))
    }
}

/// A whole collection as a JSON array.
pub open spec fn habits_chars(hs: Seq<HabitData>) -> Seq<char> {
    seq!['['] + habits_body(hs) + seq![']']
}

/// Relies on `String::push`: appends the given character.
#[verifier::external_body]
pub(crate) fn push_char(out: &mut String, c: char)
    ensures
        final(out)@ == old(out)@.push(c),
{
    out.push(c);
}

/// Executable twin of [`digit_char`].
pub(crate) fn digit_char_x(d: u32) -> (c: char)
    requires
        d <= 9,
    ensures
        c == digit_char(d as int),
{
    if d == 0 {
        '0'
    } else if d == 1 {
        '1'
    } else if d == 2 {
        '2'
    } else if d == 3 {
        '3'
    } else if d == 4 {
        '4'
    } else if d == 5 {
        '5'
    } else if d == 6 {
        '6'
    } else if d == 7 {
        '7'
    } else if d == 8 {
        '8'
    } else {
        '9'
    }
}

/// Executable twin of [`hex_char`].
fn hex_char_x(d: u32) -> (c: char)
    requires
        d <= 15,
    ensures
        c == hex_char(d as int),
{
    if d < 10 {
        digit_char_x(d)
    } else if d == 10 {
        'a'
    } else if d == 11 {
        'b'
    } else if d == 12 {
        'c'
    } else if d == 13 {
        'd'
    } else if d == 14 {
        'e'
    } else {
        'f'
    }
}

/// Appends the canonical decimal rendering of `n`.
pub(crate) fn push_u32(out: &mut String, n: u32)
    ensures
        final(out)@ == old(out)@ + dec_chars(n as int),
    decreases n,
{
    if n < 10 {
        push_char(out, digit_char_x(n));
    } else {
        push_u32(out, n / 10);
        push_char(out, digit_char_x(n % 10));
    }
}

/// Appends the two-digit rendering of `v`.
pub(crate) fn push_pad2(out: &mut String, v: u32)
    requires
        v <= 99,
    ensures
        final(out)@ == old(out)@ + pad2(v as int),
{
    push_char(out, digit_char_x(v / 10));
    push_char(out, digit_char_x(v % 10));
    assert(final(out)@ =~= old(out)@ + pad2(v as int));
}

/// Appends the nineteen-character rendering of `t`.
fn push_datetime(out: &mut String, t: &DateTime)
    requires
        t.valid(),
    ensures
        final(out)@ == old(out)@ + datetime_chars(*t),
{
    push_char(out, digit_char_x(t.year / 1000));
    push_char(out, digit_char_x((t.year / 100) % 10));
    push_char(out, digit_char_x((t.year / 10) % 10));
    push_char(out, digit_char_x(t.year % 10));
    push_char(out, '-');
    push_pad2(out, t.month);
    push_char(out, '-');
    push_pad2(out, t.day);
    push_char(out, 'T');
    push_pad2(out, t.hour);
    push_char(out, ':');
    push_pad2(out, t.minute);
    push_char(out, ':');
    push_pad2(out, t.second);
    assert(final(out)@ =~= old(out)@ + datetime_chars(*t));
}

/// Appends the written form of one name character.
fn push_esc_char(out: &mut String, c: char)
    ensures
        final(out)@ == old(out)@ + esc_char(c),
{
    if c == '"' {
        push_char(out, '\\');
        push_char(out, '"');
        assert(final(out)@ =~= old(out)@ + esc_char(c));
    } else if c == '\\' {
        push_char(out, '\\');
        push_char(out, '\\');
        assert(final(out)@ =~= old(out)@ + esc_char(c));
    } else if (c as u32) < 32 {
        push_char(out, '\\');
        push_char(out, 'u');
        push_char(out, '0');
        push_char(out, '0');
        push_char(out, hex_char_x((c as u32) / 16));
        push_char(out, hex_char_x((c as u32) % 16));
        assert(final(out)@ =~= old(out)@ + esc_char(c));
    } else {
        push_char(out, c);
        assert(final(out)@ =~= old(out)@ + esc_char(c));
    }
}

/// Appends the written form of the name from character `i` on.
fn push_escaped_from(out: &mut String, s: &str, i: usize)
    requires
        i <= s@.len(),
    ensures
        final(out)@ == old(out)@ + esc_chars(s@.skip(i as int)),
    decreases s@.len() - i,
{
    let n = s.unicode_len();
    if i < n {
        let c = s.get_char(i);
        push_esc_char(out, c);
        push_escaped_from(out, s, i + 1);
        proof {
            assert(s@.skip(i as int)[0] == c);
            assert(s@.skip(i as int).skip(1) =~= s@.skip(i as int + 1));
            assert(final(out)@ =~= old(out)@ + esc_chars(s@.skip(i as int)));
        }
    } else {
        assert(s@.skip(i as int) =~= Seq::<char>::empty());
        assert(final(out)@ =~= old(out)@ + esc_chars(s@.skip(i as int)));
    }
}

/// Appends one habit as a JSON object.
fn push_habit(out: &mut String, h: &Habit)
    requires
        h.last_done.valid(),
    ensures
        final(out)@ == old(out)@ + habit_chars(h@),
{
    out.append("{\"name\":\"");
    push_escaped_from(out, h.name.as_str(), 0);
    out.append("\",\"streak\":");
    push_u32(out, h.streak);
    out.append(",\"last_done\":\"");
    push_datetime(out, &h.last_done);
    out.append("\"}");
    proof {
        assert(h.name@.skip(0) =~= h.name@);
        assert(final(out)@ =~= old(out)@ + habit_chars(h@));
    }
}

/// The whole collection serialized as its JSON array.
pub fn habits_to_json(habits: &Vec<Habit>) -> (r: String)
    requires
        all_dates_valid(views_of(habits@)),
    ensures
        r@ == habits_chars(views_of(habits@)),
{
    let ghost hs = views_of(habits@);
    let mut out = String::new();
    push_char(&mut out, '[');
    let mut i: usize = 0;
    while i < habits.len()
        invariant
            i <= habits.len(),
            hs == views_of(habits@),
            all_dates_valid(hs),
            out@ == seq!['['] + habits_body(hs.take(i as int)),
        decreases habits.len() - i,
    {
        if i > 0 {
            push_char(&mut out, ',');
        }
        assert(hs[i as int] == habits@[i as int]@);
        assert(hs[i as int].last_done.valid());
        push_habit(&mut out, &habits[i]);
        proof {
            lemma_habits_body_snoc(hs.take(i as int), hs[i as int]);
            assert(hs.take(i as int).push(hs[i as int]) =~= hs.take(i as int + 1));
        }
        i += 1;
    }
    push_char(&mut out, ']');
    proof {
        assert(hs.take(hs.len() as int) =~= hs);
        assert(out@ =~= habits_chars(hs));
    }
    out
}

/// `c` is a decimal digit character.
pub open spec fn is_digit(c: char) -> bool {
    48 <= c as u32 <= 57
}

/// The value of a decimal digit character.
pub open spec fn digit_val(c: char) -> int {
    c as u32 - 48
}

/// `c` is a hexadecimal digit character, in either case.
pub open spec fn is_hex_digit(c: char) -> bool {
    is_digit(c) || 97 <= c as u32 <= 102 || 65 <= c as u32 <= 70
}

/// The value of a hexadecimal digit character.
pub open spec fn hex_val(c: char) -> int {
    if is_digit(c) {
        digit_val(c)
    } else if 97 <= c as u32 {
        c as u32 - 87
    } else {
        c as u32 - 55
    }
}

/// The given literal stands in `s` at position `i`.
pub open spec fn lit_at(s: Seq<char>, i: int, lit: Seq<char>) -> bool {
    0 <= i && i + lit.len() <= s.len() && s.subrange(i, i + lit.len()) == lit
}

/// Prepends a character to the remainder of a parsed string.
pub open spec fn prepended(c: char, r: Option<(Seq<char>, int)>) -> Option<(Seq<char>, int)> {
    match r {
        None => None,
        Some((t, j)) => Some((seq![c] + t, j)),
    }
}

/// Reads a JSON string body starting after its opening quote, up to and
/// including the closing quote: raw characters, the short escapes, and
/// `\u00`-style escapes below 128.
pub open spec fn spec_parse_string(s: Seq<char>, i: int) -> Option<(Seq<char>, int)>
    decreases s.len() - i,
{
    if i < 0 || i >= s.len() {
        None
    } else if s[i] == '"' {
        Some((Seq::empty(), i + 1))
    } else if s[i] == '\\' {
        if i + 2 > s.len() {
            None
        } else {
            let e = s[i + 1];
            if e == '"' || e == '\\' || e == '/' {
                prepended(e, spec_parse_string(s, i + 2))
            } else if e == 'n' {
                prepended('\n', spec_parse_string(s, i + 2))
            } else if e == 't' {
                prepended('\t', spec_parse_string(s, i + 2))
            } else if e == 'r' {
                prepended('\r', spec_parse_string(s, i + 2))
            } else if e == 'b' {
                prepended('\u{8}', spec_parse_string(s, i + 2))
            } else if e == 'f' {
                prepended('\u{c}', spec_parse_string(s, i + 2))
            } else if e == 'u' {
                if i + 6 <= s.len() && is_hex_digit(s[i + 2]) && is_hex_digit(s[i + 3])
                    && is_hex_digit(s[i + 4]) && is_hex_digit(s[i + 5]) {
                    let v = ((hex_val(s[i + 2]) * 16 + hex_val(s[i + 3])) * 16 + hex_val(s[i + 4]))
                        * 16 + hex_val(s[i + 5]);
                    if v < 128 {
                        prepended((v as u8) as char, spec_parse_string(s, i + 6))
                    } else {
                        None
                    }
                } else {
                    None
                }
            } else {
                None
            }
        }
    } else if (s[i] as u32) < 32 {
        None
    } else {
        prepended(s[i], spec_parse_string(s, i + 1))
    }
}

/// Reads the remaining digits of a number onto the accumulator; fails on
/// a value that leaves `u32`.
pub open spec fn spec_parse_num_rest(s: Seq<char>, i: int, acc: u32) -> Option<(u32, int)>
    decreases s.len() - i,
{
    if 0 <= i < s.len() && is_digit(s[i]) {
        if acc as int * 10 + digit_val(s[i]) <= u32::MAX as int {
            spec_parse_num_rest(s, i + 1, (acc as int * 10 + digit_val(s[i])) as u32)
        } else {
            None
        }
    } else {
        Some((acc, i))
    }
}

/// Reads a canonical decimal number: digits without a leading zero.
pub open spec fn spec_parse_u32(s: Seq<char>, i: int) -> Option<(u32, int)> {
    if 0 <= i < s.len() && is_digit(s[i]) {
        if s[i] == '0' {
            if i + 1 < s.len() && is_digit(s[i + 1]) {
                None
            } else {
                Some((0u32, i + 1))
            }
        } else {
            spec_parse_num_rest(s, i, 0)
        }
    } else {
        None
    }
}

/// Two digit characters stand at `i`.
pub open spec fn digits2_at(s: Seq<char>, i: int) -> bool {
    is_digit(s[i]) && is_digit(s[i + 1])
}

/// The value of the two digits at `i`.
pub open spec fn val2_at(s: Seq<char>, i: int) -> int {
    digit_val(s[i]) * 10 + digit_val(s[i + 1])
}

/// Reads the nineteen fixed-width characters of a timestamp and accepts
/// only a valid calendar date and time.
pub open spec fn spec_parse_datetime(s: Seq<char>, i: int) -> Option<(DateTime, int)> {
    if 0 <= i && i + 19 <= s.len() && is_digit(s[i]) && is_digit(s[i + 1]) && is_digit(s[i + 2])
        && is_digit(s[i + 3]) && s[i + 4] == '-' && digits2_at(s, i + 5) && s[i + 7] == '-'
        && digits2_at(s, i + 8) && s[i + 10] == 'T' && digits2_at(s, i + 11) && s[i + 13] == ':'
        && digits2_at(s, i + 14) && s[i + 16] == ':' && digits2_at(s, i + 17) {
        let t = DateTime {
            year: (digit_val(s[i]) * 1000 + digit_val(s[i + 1]) * 100 + digit_val(s[i + 2]) * 10
                + digit_val(s[i + 3])) as u32,
            month: val2_at(s, i + 5) as u32,
            day: val2_at(s, i + 8) as u32,
            hour: val2_at(s, i + 11) as u32,
            minute: val2_at(s, i + 14) as u32,
            second: val2_at(s, i + 17) as u32,
        };
        if t.valid() {
            Some((t, i + 19))
        } else {
            None
        }
    } else {
        None
    }
}

/// Reads one habit object, fields in their written order.
pub open spec fn spec_parse_habit(s: Seq<char>, i: int) -> Option<(HabitData, int)> {
    if lit_at(s, i, "{\"name\":\""@) {
        match spec_parse_string(s, i + 9) {
            None => None,
            Some((name, j)) => if lit_at(s, j, ",\"streak\":"@) {
                match spec_parse_u32(s, j + 10) {
                    None => None,
                    Some((streak, k)) => if lit_at(s, k, ",\"last_done\":\""@) {
                        match spec_parse_datetime(s, k + 14) {
                            None => None,
                            Some((t, m)) => if lit_at(s, m, "\"}"@) {
                                Some((HabitData { name, streak, last_done: t }, m + 2))
                            } else {
                                None
                            },
                        }
                    } else {
                        None
                    },
                }
            } else {
                None
            },
        }
    } else {
        None
    }
}

/// Reads the habit objects from inside the array, comma-separated, up to
/// the closing bracket, which must end the input.
pub open spec fn spec_parse_items(s: Seq<char>, i: int) -> Option<Seq<HabitData>>
    decreases s.len() - i,
{
    match spec_parse_habit(s, i) {
        None => None,
        Some((h, j)) => if j < s.len() && s[j] == ',' {
            if i < j + 1 {
                match spec_parse_items(s, j + 1) {
                    None => None,
                    Some(rest) => Some(seq![h] + rest),
                }
            } else {
                None
            }
        } else if j == s.len() - 1 && s[j] == ']' {
            Some(seq![h])
        } else {
            None
        },
    }
}

/// Reads a whole stored collection: a JSON array of habit objects with
/// nothing before or after it.
pub open spec fn spec_parse_habits(s: Seq<char>) -> Option<Seq<HabitData>> {
    if s.len() == 2 && s[0] == '[' && s[1] == ']' {
        Some(Seq::empty())
    } else if s.len() >= 2 && s[0] == '[' {
        spec_parse_items(s, 1)
    } else {
        None
    }
}

/// What a load yields from the file text: the parsed collection, or an
/// empty one when the text does not parse.
pub open spec fn spec_loaded(text: Seq<char>) -> Seq<HabitData> {
    match spec_parse_habits(text) {
        Some(hs) => hs,
        None => Seq::empty(),
    }
}

/// Executable twin of [`is_digit`].
fn is_digit_x(c: char) -> (b: bool)
    ensures
        b == is_digit(c),
{
    let x = c as u32;
    48 <= x && x <= 57
}

/// Executable twin of [`is_hex_digit`].
fn is_hex_digit_x(c: char) -> (b: bool)
    ensures
        b == is_hex_digit(c),
{
    let x = c as u32;
    (48 <= x && x <= 57) || (97 <= x && x <= 102) || (65 <= x && x <= 70)
}

/// Executable twin of [`digit_val`].
fn digit_val_x(c: char) -> (v: u32)
    requires
        is_digit(c),
    ensures
        v == digit_val(c),
{
    c as u32 - 48
}

/// Executable twin of [`hex_val`].
fn hex_val_x(c: char) -> (v: u32)
    requires
        is_hex_digit(c),
    ensures
        v == hex_val(c),
{
    let x = c as u32;
    if x <= 57 {
        x - 48
    } else if 97 <= x {
        x - 87
    } else {
        x - 55
    }
}

/// Whether the given literal stands in `s` at position `i`.
fn lit_at_x(s: &Vec<char>, i: usize, lit: &str) -> (b: bool)
    ensures
        b == lit_at(s@, i as int, lit@),
{
    let n = lit.unicode_len();
    let len = s.len();
    if i > len || len - i < n {
        return false;
    }
    let mut k: usize = 0;
    while k < n
        invariant
            k <= n,
            n == lit@.len(),
            len == s@.len(),
            i + n <= len,
            forall|m: int| 0 <= m < k ==> s@[i + m] == lit@[m],
        decreases n - k,
    {
        if s[i + k] != lit.get_char(k) {
            proof {
                if lit_at(s@, i as int, lit@) {
                    let p: int = i as int + k;
                    assert(s@.subrange(i as int, i as int + lit@.len() as int)[k as int] == s@[p]);
                }
            }
            return false;
        }
        k += 1;
    }
    proof {
        assert(s@.subrange(i as int, i as int + lit@.len() as int) =~= lit@);
    }
    true
}

/// The characters of `s`, in order.
pub fn str_to_chars(s: &str) -> (v: Vec<char>)
    ensures
        v@ == s@,
{
    let n = s.unicode_len();
    let mut v: Vec<char> = Vec::new();
    let mut i: usize = 0;
    while i < n
        invariant
            i <= n,
            n == s@.len(),
            v@ == s@.subrange(0, i as int),
        decreases n - i,
    {
        v.push(s.get_char(i));
        i += 1;
        proof {
            assert(v@ =~= s@.subrange(0, i as int));
        }
    }
    proof {
        assert(s@.subrange(0, n as int) =~= s@);
    }
    v
}

/// Puts one already-read character in front of the rest of a parsed
/// string.
fn with_prefix(c: char, rest: Option<(String, usize)>) -> (r: Option<(String, usize)>)
    ensures
        r is None <==> rest is None,
        r matches Some(p) ==> (rest matches Some(q) && p.0@ == seq![c] + q.0@ && p.1 == q.1),
{
    match rest {
        None => None,
        Some((t, j)) => {
            let mut out = String::new();
            push_char(&mut out, c);
            out.append(t.as_str());
            proof {
                assert(out@ =~= seq![c] + t@);
            }
            Some((out, j))
        },
    }
}

/// Reads a JSON string body as [`spec_parse_string`] does.
fn parse_string_x(s: &Vec<char>, i: usize) -> (r: Option<(String, usize)>)
    ensures
        (spec_parse_string(s@, i as int) == (match r {
            None => None::<(Seq<char>, int)>,
            Some(p) => Some((p.0@, p.1 as int)),
        })),
    decreases s@.len() - i,
{
    if i >= s.len() {
        return None;
    }
    let c = s[i];
    if c == '"' {
        return Some((String::new(), i + 1));
    }
    if c == '\\' {
        if s.len() - i < 2 {
            return None;
        }
        let e = s[i + 1];
        if e == '"' || e == '\\' || e == '/' {
            return with_prefix(e, parse_string_x(s, i + 2));
        }
        if e == 'n' {
            return with_prefix('\n', parse_string_x(s, i + 2));
        }
        if e == 't' {
            return with_prefix('\t', parse_string_x(s, i + 2));
        }
        if e == 'r' {
            return with_prefix('\r', parse_string_x(s, i + 2));
        }
        if e == 'b' {
            return with_prefix('\u{8}', parse_string_x(s, i + 2));
        }
        if e == 'f' {
            return with_prefix('\u{c}', parse_string_x(s, i + 2));
        }
        if e == 'u' {
            if s.len() - i < 6 {
                return None;
            }
            if !(is_hex_digit_x(s[i + 2]) && is_hex_digit_x(s[i + 3]) && is_hex_digit_x(s[i + 4])
                && is_hex_digit_x(s[i + 5])) {
                return None;
            }
            let v = ((hex_val_x(s[i + 2]) * 16 + hex_val_x(s[i + 3])) * 16 + hex_val_x(s[i + 4]))
                * 16 + hex_val_x(s[i + 5]);
            if v < 128 {
                return with_prefix((v as u8) as char, parse_string_x(s, i + 6));
            }
            return None;
        }
        return None;
    }
    if (c as u32) < 32 {
        return None;
    }
    with_prefix(c, parse_string_x(s, i + 1))
}

/// Reads the remaining digits of a number as [`spec_parse_num_rest`]
/// does.
fn parse_num_rest_x(s: &Vec<char>, i: usize, acc: u32) -> (r: Option<(u32, usize)>)
    ensures
        (spec_parse_num_rest(s@, i as int, acc) == (match r {
            None => None::<(u32, int)>,
            Some(p) => Some((p.0, p.1 as int)),
        })),
    decreases s@.len() - i,
{
    if i < s.len() {
        let c = s[i];
        if is_digit_x(c) {
            let d = c as u32 - 48;
            if acc < 429496729 || (acc == 429496729 && d <= 5) {
                return parse_num_rest_x(s, i + 1, acc * 10 + d);
            } else {
                return None;
            }
        }
    }
    Some((acc, i))
}

/// Reads a canonical decimal number as [`spec_parse_u32`] does.
fn parse_u32_x(s: &Vec<char>, i: usize) -> (r: Option<(u32, usize)>)
    ensures
        (spec_parse_u32(s@, i as int) == (match r {
            None => None::<(u32, int)>,
            Some(p) => Some((p.0, p.1 as int)),
        })),
{
    if i < s.len() && is_digit_x(s[i]) {
        if s[i] == '0' {
            if i + 1 < s.len() && is_digit_x(s[i + 1]) {
                None
            } else {
                Some((0, i + 1))
            }
        } else {
            parse_num_rest_x(s, i, 0)
        }
    } else {
        None
    }
}

/// The value of two digit characters.
fn val2_of(c0: char, c1: char) -> (v: u32)
    requires
        is_digit(c0),
        is_digit(c1),
    ensures
        v == digit_val(c0) * 10 + digit_val(c1),
        v <= 99,
{
    digit_val_x(c0) * 10 + digit_val_x(c1)
}

/// Reads a timestamp as [`spec_parse_datetime`] does.
fn parse_datetime_x(s: &Vec<char>, i: usize) -> (r: Option<(DateTime, usize)>)
    ensures
        (spec_parse_datetime(s@, i as int) == (match r {
            None => None::<(DateTime, int)>,
            Some(p) => Some((p.0, p.1 as int)),
        })),
{
    if i > s.len() || s.len() - i < 19 {
        return None;
    }
    if !(is_digit_x(s[i]) && is_digit_x(s[i + 1]) && is_digit_x(s[i + 2]) && is_digit_x(s[i + 3])
        && s[i + 4] == '-' && is_digit_x(s[i + 5]) && is_digit_x(s[i + 6]) && s[i + 7] == '-'
        && is_digit_x(s[i + 8]) && is_digit_x(s[i + 9]) && s[i + 10] == 'T' && is_digit_x(
        s[i + 11],
    ) && is_digit_x(s[i + 12]) && s[i + 13] == ':' && is_digit_x(s[i + 14]) && is_digit_x(
        s[i + 15],
    ) && s[i + 16] == ':' && is_digit_x(s[i + 17]) && is_digit_x(s[i + 18])) {
        return None;
    }
    let year = digit_val_x(s[i]) * 1000 + digit_val_x(s[i + 1]) * 100 + digit_val_x(s[i + 2]) * 10
        + digit_val_x(s[i + 3]);
    let t = DateTime {
        year,
        month: val2_of(s[i + 5], s[i + 6]),
        day: val2_of(s[i + 8], s[i + 9]),
        hour: val2_of(s[i + 11], s[i + 12]),
        minute: val2_of(s[i + 14], s[i + 15]),
        second: val2_of(s[i + 17], s[i + 18]),
    };
    if !crate::date::valid_x(&t) {
        return None;
    }
    Some((t, i + 19))
}

/// Reads one habit object as [`spec_parse_habit`] does.
fn parse_habit_x(s: &Vec<char>, i: usize) -> (r: Option<(Habit, usize)>)
    ensures
        (spec_parse_habit(s@, i as int) == (match r {
            None => None::<(HabitData, int)>,
            Some(p) => Some((p.0@, p.1 as int)),
        })),
{
    let n = s.len();
    if !lit_at_x(s, i, "{\"name\":\"") {
        return None;
    }
    proof {
        reveal_strlit("{\"name\":\"");
        assert(s@.len() == n);
    }
    let (name, j) = match parse_string_x(s, i + 9) {
        None => return None,
        Some(p) => p,
    };
    if !lit_at_x(s, j, ",\"streak\":") {
        return None;
    }
    proof {
        reveal_strlit(",\"streak\":");
    }
    let (streak, k) = match parse_u32_x(s, j + 10) {
        None => return None,
        Some(p) => p,
    };
    if !lit_at_x(s, k, ",\"last_done\":\"") {
        return None;
    }
    proof {
        reveal_strlit(",\"last_done\":\"");
    }
    let (t, m) = match parse_datetime_x(s, k + 14) {
        None => return None,
        Some(p) => p,
    };
    if !lit_at_x(s, m, "\"}") {
        return None;
    }
    proof {
        reveal_strlit("\"}");
    }
    Some((Habit { name, streak, last_done: t }, m + 2))
}

/// Reads the array items as [`spec_parse_items`] does.
fn parse_items_x(s: &Vec<char>, i: usize) -> (r: Option<Vec<Habit>>)
    ensures
        (spec_parse_items(s@, i as int) == (match r {
            None => None::<Seq<HabitData>>,
            Some(v) => Some(views_of(v@)),
        })),
    decreases s@.len() - i,
{
    match parse_habit_x(s, i) {
        None => None,
        Some((h, j)) => {
            if j < s.len() && s[j] == ',' {
                if i <= j {
                    match parse_items_x(s, j + 1) {
                        None => None,
                        Some(mut rest) => {
                            let ghost hv = h@;
                            let ghost rv = views_of(rest@);
                            rest.insert(0, h);
                            proof {
                                assert(views_of(rest@) =~= seq![hv] + rv);
                            }
                            Some(rest)
                        },
                    }
                } else {
                    None
                }
            } else if j == s.len() - 1 && s[j] == ']' {
                let mut one: Vec<Habit> = Vec::new();
                let ghost hv = h@;
                one.push(h);
                proof {
                    assert(views_of(one@) =~= seq![hv]);
                }
                Some(one)
            } else {
                None
            }
        },
    }
}

/// Reads a stored collection from the file text: the whole text must be
/// one JSON array of habit objects.
pub fn parse_habits(text: &str) -> (r: Option<Vec<Habit>>)
    ensures
        (spec_parse_habits(text@) == (match r {
            None => None::<Seq<HabitData>>,
            Some(v) => Some(views_of(v@)),
        })),
{
    let cs = str_to_chars(text);
    if cs.len() == 2 && cs[0] == '[' && cs[1] == ']' {
        let empty: Vec<Habit> = Vec::new();
        proof {
            assert(views_of(empty@) =~= Seq::<HabitData>::empty());
        }
        return Some(empty);
    }
    if cs.len() >= 2 && cs[0] == '[' {
        return parse_items_x(&cs, 1);
    }
    None
}

/// Appending one habit to the body appends a comma (when the body was
/// not empty) and the habit's object.
proof fn lemma_habits_body_snoc(hs: Seq<HabitData>, h: HabitData)
    ensures
        habits_body(hs.push(h)) == if hs.len() == 0 {
            habit_chars(h)
        } else {
            habits_body(hs) + seq![','] + habit_chars(h)
        },
    decreases hs.len(),
{
    let whole = hs.push(h);
    if hs.len() == 0 {
        assert(whole.len() == 1);
        assert(whole[0] == h);
    } else {
        assert(whole[0] == hs[0]);
        assert(whole.skip(1) =~= hs.skip(1).push(h));
        lemma_habits_body_snoc(hs.skip(1), h);
        if hs.len() == 1 {
            assert(hs.skip(1).len() == 0);
            assert(habits_body(whole) =~= habits_body(hs) + seq![','] + habit_chars(h));
        } else {
            assert(habits_body(whole) =~= habits_body(hs) + seq![','] + habit_chars(h));
        }
    }
}

} // verus!
