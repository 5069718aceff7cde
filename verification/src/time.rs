//! The text of a modification time, to the minute, as `%Y-%m-%d %H:%M`
//! writes it.
use vstd::prelude::*;
use crate::entry::{key_order, lex_order, num_order, Entry, SortBy};
use crate::text::{decimal, decimal_text, digit_char, digits_value, push_char};

verus! {

/// A local date and time to the minute, as plain fields.
#[derive(Clone, Copy, Debug, PartialEq, Eq, Structural)]
pub struct LocalMinute {
    /// The year of the proleptic Gregorian calendar.
    pub year: i32,
    /// The month, 1 to 12.
    pub month: u32,
    /// The day of the month, 1 to 31.
    pub day: u32,
    /// The hour, 0 to 23.
    pub hour: u32,
    /// The minute, 0 to 59.
    pub minute: u32,
}

/// The fields are within their ranges.
pub open spec fn is_valid_minute(t: LocalMinute) -> bool {
    &&& 1 <= t.month <= 12
    &&& 1 <= t.day <= 31
    &&& t.hour < 24
    &&& t.minute < 60
}

/// `10` to the power `w`.
pub open spec fn pow10(w: nat) -> nat
    decreases w,
{
    if w == 0 { 1 } else { 10 * pow10((w - 1) as nat) }
}

/// The last `w` decimal digits of `n`, with leading zeros.
pub open spec fn fixed_digits(n: nat, w: nat) -> Seq<char>
    decreases w,
{
    if w == 0 {
        Seq::empty()
    } else {
        fixed_digits(n / 10, (w - 1) as nat).push(digit_char((n % 10) as int))
    }
}

/// The magnitude of a year.
pub open spec fn year_magnitude(y: i32) -> nat {
    if y < 0 { (-y) as nat } else { y as nat }
}

/// A year as `%Y` writes it: four digits with leading zeros for 0 to 9999;
/// otherwise its sign, then its digits, at least four.
pub open spec fn year_text(y: i32) -> Seq<char> {
    if 0 <= y <= 9999 {
        fixed_digits(y as nat, 4)
    } else {
        let m = year_magnitude(y);
        seq![if y < 0 { '-' } else { '+' }] + (if m < 10000 { fixed_digits(m, 4) } else { decimal(m) })
    }
}

/// The time as `%Y-%m-%d %H:%M` writes it.
pub open spec fn minute_text(t: LocalMinute) -> Seq<char> {
    year_text(t.year) + (seq!['-'] + (fixed_digits(t.month as nat, 2) + (seq!['-'] + (fixed_digits(
        t.day as nat,
        2,
    ) + (seq![' '] + (fixed_digits(t.hour as nat, 2) + (seq![':'] + fixed_digits(
        t.minute as nat,
        2,
    ))))))))
}

/// Which of two times comes first: -1, 0 or 1.
pub open spec fn time_order(a: LocalMinute, b: LocalMinute) -> int {
    if a.year != b.year {
        num_order(a.year as int, b.year as int)
    } else if a.month != b.month {
        num_order(a.month as int, b.month as int)
    } else if a.day != b.day {
        num_order(a.day as int, b.day as int)
    } else if a.hour != b.hour {
        num_order(a.hour as int, b.hour as int)
    } else {
        num_order(a.minute as int, b.minute as int)
    }
}

fn digit_of(d: u64) -> (c: char)
    requires
        d < 10,
    ensures
        c == digit_char(d as int),
{
    match d {
        0 => '0',
        1 => '1',
        2 => '2',
        3 => '3',
        4 => '4',
        5 => '5',
        6 => '6',
        7 => '7',
        8 => '8',
        _ => '9',
    }
}

/// The last `w` decimal digits of `n`, with leading zeros.
pub fn fixed_digits_text(n: u64, w: usize) -> (r: String)
    ensures
        r@ == fixed_digits(n as nat, w as nat),
    decreases w,
{
    if w == 0 {
        String::new()
    } else {
        let mut s = fixed_digits_text(n / 10, w - 1);
        push_char(&mut s, digit_of(n % 10));
        s
    }
}

/// A year as `%Y` writes it.
pub fn year_text_of(y: i32) -> (r: String)
    ensures
        r@ == year_text(y),
{
    if 0 <= y && y <= 9999 {
        fixed_digits_text(y as u64, 4)
    } else {
        let m: u64 = if y < 0 { (0i64 - (y as i64)) as u64 } else { y as u64 };
        let mut r = String::new();
        push_char(&mut r, if y < 0 { '-' } else { '+' });
        let digits = if m < 10000 { fixed_digits_text(m, 4) } else { decimal_text(m) };
        r.append(digits.as_str());
        assert(r@ =~= year_text(y));
        r
    }
}

/// The text of a modification time, as `%Y-%m-%d %H:%M` writes it.
pub fn modified_text(t: &LocalMinute) -> (r: String)
    requires
        is_valid_minute(*t),
    ensures
        r@ == minute_text(*t),
{
    let mut r = year_text_of(t.year);
    push_char(&mut r, '-');
    let f = fixed_digits_text(t.month as u64, 2);
    r.append(f.as_str());
    push_char(&mut r, '-');
    let f = fixed_digits_text(t.day as u64, 2);
    r.append(f.as_str());
    push_char(&mut r, ' ');
    let f = fixed_digits_text(t.hour as u64, 2);
    r.append(f.as_str());
    push_char(&mut r, ':');
    let f = fixed_digits_text(t.minute as u64, 2);
    r.append(f.as_str());
    assert(r@ =~= minute_text(*t));
    r
}

proof fn lemma_fixed_digits_len(n: nat, w: nat)
    ensures
        fixed_digits(n, w).len() == w,
    decreases w,
{
    if w > 0 {
        lemma_fixed_digits_len(n / 10, (w - 1) as nat);
    }
}

proof fn lemma_lex_order_self(a: Seq<char>)
    ensures
        lex_order(a, a) == 0,
    decreases a.len(),
{
    if a.len() > 0 {
        lemma_lex_order_self(a.drop_first());
    }
}

/// Comparing two texts whose first parts have one length: the first parts
/// decide unless they are equal.
proof fn lemma_lex_order_concat(p: Seq<char>, r: Seq<char>, q: Seq<char>, s: Seq<char>)
    requires
        p.len() == q.len(),
    ensures
        lex_order(p + r, q + s) == if lex_order(p, q) != 0 { lex_order(p, q) } else { lex_order(r, s) },
    decreases p.len(),
{
    if p.len() == 0 {
        assert(p + r =~= r);
        assert(q + s =~= s);
    } else {
        assert((p + r).drop_first() =~= p.drop_first() + r);
        assert((q + s).drop_first() =~= q.drop_first() + s);
        lemma_lex_order_concat(p.drop_first(), r, q.drop_first(), s);
    }
}

proof fn lemma_digit_char_code(d: int)
    requires
        0 <= d < 10,
    ensures
        digit_char(d) as u32 == 48 + d,
{
}

proof fn lemma_digit_order(x: int, y: int)
    requires
        0 <= x < 10,
        0 <= y < 10,
    ensures
        lex_order(seq![digit_char(x)], seq![digit_char(y)]) == num_order(x, y),
{
    lemma_digit_char_code(x);
    lemma_digit_char_code(y);
    let sx = seq![digit_char(x)];
    let sy = seq![digit_char(y)];
    assert(sx.drop_first() =~= Seq::<char>::empty());
    assert(sy.drop_first() =~= Seq::<char>::empty());
    assert(lex_order(Seq::<char>::empty(), Seq::<char>::empty()) == 0);
}

proof fn lemma_fixed_digits_order(a: nat, b: nat, w: nat)
    requires
        a < pow10(w),
        b < pow10(w),
    ensures
        lex_order(fixed_digits(a, w), fixed_digits(b, w)) == num_order(a as int, b as int),
    decreases w,
{
    if w == 0 {
        assert(a == 0 && b == 0);
    } else {
        let p = pow10((w - 1) as nat);
        assert(a / 10 < p && b / 10 < p) by (nonlinear_arith)
            requires
                a < 10 * p,
                b < 10 * p,
        ;
        lemma_fixed_digits_order(a / 10, b / 10, (w - 1) as nat);
        lemma_fixed_digits_len(a / 10, (w - 1) as nat);
        lemma_fixed_digits_len(b / 10, (w - 1) as nat);
        let pa = fixed_digits(a / 10, (w - 1) as nat);
        let pb = fixed_digits(b / 10, (w - 1) as nat);
        let da = seq![digit_char((a % 10) as int)];
        let db = seq![digit_char((b % 10) as int)];
        assert(fixed_digits(a, w) =~= pa + da);
        assert(fixed_digits(b, w) =~= pb + db);
        lemma_lex_order_concat(pa, da, pb, db);
        lemma_digit_order((a % 10) as int, (b % 10) as int);
        let qa = a / 10;
        let qb = b / 10;
        let ra = a % 10;
        let rb = b % 10;
        assert(a == 10 * qa + ra && b == 10 * qb + rb && ra < 10 && rb < 10);
        assert(qa < qb ==> a < b) by (nonlinear_arith)
            requires
                a == 10 * qa + ra,
                b == 10 * qb + rb,
                ra < 10,
        ;
        assert(qb < qa ==> b < a) by (nonlinear_arith)
            requires
                a == 10 * qa + ra,
                b == 10 * qb + rb,
                rb < 10,
        ;
    }
}

proof fn lemma_small_field_order(a: nat, b: nat)
    requires
        a < 100,
        b < 100,
    ensures
        lex_order(fixed_digits(a, 2), fixed_digits(b, 2)) == num_order(a as int, b as int),
        fixed_digits(a, 2).len() == 2,
{
    assert(pow10(0) == 1);
    assert(pow10(1) == 10);
    assert(pow10(2) == 100);
    lemma_fixed_digits_order(a, b, 2);
    lemma_fixed_digits_len(a, 2);
}

/// Comparing two texts that start with the same character: the rest decides.
proof fn lemma_lex_order_same_start(c: char, r: Seq<char>, s: Seq<char>)
    ensures
        lex_order(seq![c] + r, seq![c] + s) == lex_order(r, s),
{
    lemma_lex_order_self(seq![c]);
    lemma_lex_order_concat(seq![c], r, seq![c], s);
}

/// Law: for years 0 to 9999, the texts of two times order as the times do,
/// so sorting entries by their time text sorts them by modification time.
pub proof fn law_minute_text_order(a: LocalMinute, b: LocalMinute)
    requires
        is_valid_minute(a),
        is_valid_minute(b),
        0 <= a.year <= 9999,
        0 <= b.year <= 9999,
    ensures
        lex_order(minute_text(a), minute_text(b)) == time_order(a, b),
{
    assert(pow10(0) == 1);
    assert(pow10(1) == 10);
    assert(pow10(2) == 100);
    assert(pow10(3) == 1000);
    assert(pow10(4) == 10000);
    lemma_fixed_digits_order(a.year as nat, b.year as nat, 4);
    lemma_fixed_digits_len(a.year as nat, 4);
    lemma_fixed_digits_len(b.year as nat, 4);
    lemma_small_field_order(a.month as nat, b.month as nat);
    lemma_small_field_order(b.month as nat, a.month as nat);
    lemma_small_field_order(a.day as nat, b.day as nat);
    lemma_small_field_order(b.day as nat, a.day as nat);
    lemma_small_field_order(a.hour as nat, b.hour as nat);
    lemma_small_field_order(b.hour as nat, a.hour as nat);
    lemma_small_field_order(a.minute as nat, b.minute as nat);
    lemma_small_field_order(b.minute as nat, a.minute as nat);

    let ya = fixed_digits(a.year as nat, 4);
    let yb = fixed_digits(b.year as nat, 4);
    let ma = fixed_digits(a.month as nat, 2);
    let mb = fixed_digits(b.month as nat, 2);
    let da = fixed_digits(a.day as nat, 2);
    let db = fixed_digits(b.day as nat, 2);
    let ha = fixed_digits(a.hour as nat, 2);
    let hb = fixed_digits(b.hour as nat, 2);
    let na = fixed_digits(a.minute as nat, 2);
    let nb = fixed_digits(b.minute as nat, 2);

    let ra4 = seq![':'] + na;
    let rb4 = seq![':'] + nb;
    lemma_lex_order_same_start(':', na, nb);
    let ra3 = ha + ra4;
    let rb3 = hb + rb4;
    lemma_lex_order_concat(ha, ra4, hb, rb4);
    let ra2 = seq![' '] + ra3;
    let rb2 = seq![' '] + rb3;
    lemma_lex_order_same_start(' ', ra3, rb3);
    let ra1 = da + ra2;
    let rb1 = db + rb2;
    lemma_lex_order_concat(da, ra2, db, rb2);
    let ra0 = seq!['-'] + ra1;
    let rb0 = seq!['-'] + rb1;
    lemma_lex_order_same_start('-', ra1, rb1);
    let rm = ma + ra0;
    let rn = mb + rb0;
    lemma_lex_order_concat(ma, ra0, mb, rb0);
    let sa = seq!['-'] + rm;
    let sb = seq!['-'] + rn;
    lemma_lex_order_same_start('-', rm, rn);
    lemma_lex_order_concat(ya, sa, yb, sb);
    assert(minute_text(a) == ya + sa);
    assert(minute_text(b) == yb + sb);
}

proof fn lemma_fixed_digits_value(n: nat, w: nat)
    requires
        n < pow10(w),
    ensures
        digits_value(fixed_digits(n, w)) == n,
    decreases w,
{
    if w == 0 {
        assert(n == 0);
    } else {
        let p = pow10((w - 1) as nat);
        assert(n / 10 < p) by (nonlinear_arith)
            requires
                n < 10 * p,
        ;
        lemma_fixed_digits_value(n / 10, (w - 1) as nat);
        let prefix = fixed_digits(n / 10, (w - 1) as nat);
        let c = digit_char((n % 10) as int);
        lemma_digit_char_code((n % 10) as int);
        let d = fixed_digits(n, w);
        assert(d.drop_last() =~= prefix);
        assert(d.last() == c);
        assert(n == 10 * (n / 10) + n % 10);
    }
}

/// Law: for years 0 to 9999, the text of a time is sixteen characters: the
/// year in four digits, `-`, the month in two, `-`, the day in two, a blank,
/// the hour in two, `:` and the minute in two, each field reading back as its
/// number.
pub proof fn law_minute_text_fields(t: LocalMinute)
    requires
        is_valid_minute(t),
        0 <= t.year <= 9999,
    ensures
        minute_text(t).len() == 16,
        minute_text(t)[4] == '-',
        minute_text(t)[7] == '-',
        minute_text(t)[10] == ' ',
        minute_text(t)[13] == ':',
        digits_value(minute_text(t).subrange(0, 4)) == t.year,
        digits_value(minute_text(t).subrange(5, 7)) == t.month,
        digits_value(minute_text(t).subrange(8, 10)) == t.day,
        digits_value(minute_text(t).subrange(11, 13)) == t.hour,
        digits_value(minute_text(t).subrange(14, 16)) == t.minute,
{
    assert(pow10(0) == 1);
    assert(pow10(1) == 10);
    assert(pow10(2) == 100);
    assert(pow10(3) == 1000);
    assert(pow10(4) == 10000);
    let y = fixed_digits(t.year as nat, 4);
    let mo = fixed_digits(t.month as nat, 2);
    let d = fixed_digits(t.day as nat, 2);
    let h = fixed_digits(t.hour as nat, 2);
    let mi = fixed_digits(t.minute as nat, 2);
    lemma_fixed_digits_len(t.year as nat, 4);
    lemma_fixed_digits_len(t.month as nat, 2);
    lemma_fixed_digits_len(t.day as nat, 2);
    lemma_fixed_digits_len(t.hour as nat, 2);
    lemma_fixed_digits_len(t.minute as nat, 2);
    lemma_fixed_digits_value(t.year as nat, 4);
    lemma_fixed_digits_value(t.month as nat, 2);
    lemma_fixed_digits_value(t.day as nat, 2);
    lemma_fixed_digits_value(t.hour as nat, 2);
    lemma_fixed_digits_value(t.minute as nat, 2);
    let text = minute_text(t);
    let flat = y + seq!['-'] + mo + seq!['-'] + d + seq![' '] + h + seq![':'] + mi;
    assert(text =~= flat);
    assert(flat.subrange(0, 4) =~= y);
    assert(flat.subrange(5, 7) =~= mo);
    assert(flat.subrange(8, 10) =~= d);
    assert(flat.subrange(11, 13) =~= h);
    assert(flat.subrange(14, 16) =~= mi);
}

/// Law: for years 0 to 9999, sorting by time orders entries whose time texts
/// were written from local times as those times are ordered.
pub proof fn law_time_key_is_chronological(e1: Entry, e2: Entry, t1: LocalMinute, t2: LocalMinute)
    requires
        is_valid_minute(t1),
        is_valid_minute(t2),
        0 <= t1.year <= 9999,
        0 <= t2.year <= 9999,
        e1.modified@ == minute_text(t1),
        e2.modified@ == minute_text(t2),
    ensures
        key_order(SortBy::Time, e1, e2) == time_order(t1, t2),
{
    law_minute_text_order(t1, t2);
}

} // verus!
