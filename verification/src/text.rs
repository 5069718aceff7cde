//! Character-level helpers on strings.
use vstd::prelude::*;

verus! {

/// Appends one character to a string (`String::push`).
#[verifier::external_body]
pub(crate) fn push_char(s: &mut String, c: char)
    ensures
        final(s)@ == old(s)@.push(c),
{
    s.push(c);
}

/// The characters of `s`, in order.
pub fn chars_of(s: &str) -> (r: Vec<char>)
    ensures
        r@ == s@,
{
    let mut r: Vec<char> = Vec::new();
    for c in it: s.chars()
        invariant
            it.seq() == s@,
            r@ == s@.take(it.index() as int),
    {
        r.push(c);
    }
    assert(s@.take(s@.len() as int) == s@);
    r
}


/// The character for a decimal digit.
pub open spec fn digit_char(d: int) -> char {
    if d == 0 { '0' }
    else if d == 1 { '1' }
    else if d == 2 { '2' }
    else if d == 3 { '3' }
    else if d == 4 { '4' }
    else if d == 5 { '5' }
    else if d == 6 { '6' }
    else if d == 7 { '7' }
    else if d == 8 { '8' }
    else { '9' }
}

/// The decimal notation of `n`, without leading zeros.
pub open spec fn decimal(n: nat) -> Seq<char>
    decreases n,
{
    if n < 10 {
        seq![digit_char(n as int)]
    } else {
        decimal(n / 10).push(digit_char((n % 10) as int))
    }
}

/// `n` blanks.
pub open spec fn spaces(n: nat) -> Seq<char> {
    Seq::new(n, |i: int| ' ')
}

/// `s` preceded by blanks up to `width` characters (`{:>width}`).
pub open spec fn align_right(s: Seq<char>, width: nat) -> Seq<char> {
    if s.len() < width { spaces((width - s.len()) as nat) + s } else { s }
}

/// `s` followed by blanks up to `width` characters (`{:<width}`).
pub open spec fn align_left(s: Seq<char>, width: nat) -> Seq<char> {
    if s.len() < width { s + spaces((width - s.len()) as nat) } else { s }
}

/// The number that a text of decimal digits stands for, read by character code.
pub open spec fn digits_value(s: Seq<char>) -> int
    decreases s.len(),
{
    if s.len() == 0 {
        0
    } else {
        10 * digits_value(s.drop_last()) + ((s.last() as u32) - 48)
    }
}

/// Law: the decimal notation of `n` is made of the digits `0` to `9` only,
/// starts with a digit other than `0` unless `n` is zero, and reads back as `n`.
pub proof fn law_decimal_reads_back(n: nat)
    ensures
        decimal(n).len() >= 1,
        forall|i: int| 0 <= i < decimal(n).len() ==> 48 <= (#[trigger] decimal(n)[i] as u32) <= 57,
        n > 0 ==> decimal(n)[0] != '0',
        digits_value(decimal(n)) == n,
    decreases n,
{
    if n < 10 {
        let d = decimal(n);
        assert(digit_char(n as int) as u32 == 48 + n);
        assert(d.drop_last() =~= Seq::<char>::empty());
        assert(digits_value(Seq::<char>::empty()) == 0);
        assert(d.last() == digit_char(n as int));
        assert(d[0] == digit_char(n as int));
    } else {
        let q = n / 10;
        assert(q >= 1);
        law_decimal_reads_back(q);
        let prefix = decimal(q);
        let c = digit_char((n % 10) as int);
        assert(c as u32 == 48 + n % 10);
        let d = decimal(n);
        assert(d == prefix.push(c));
        assert(d.drop_last() =~= prefix);
        assert(d.last() == c);
        assert(d[0] == prefix[0]);
        assert forall|i: int| 0 <= i < d.len() implies 48 <= (#[trigger] d[i] as u32) <= 57 by {
            if i < prefix.len() {
                assert(d[i] == prefix[i]);
            }
        }
        assert(n == 10 * q + n % 10);
    }
}

/// Law: aligning fills a field of `width` characters, or keeps a longer text
/// whole: to the right, blanks come first and the text ends the field; to the
/// left, the text starts the field and blanks follow.
pub proof fn law_alignment_fills_field(s: Seq<char>, width: nat)
    ensures
        align_right(s, width).len() == (if s.len() < width { width } else { s.len() }),
        align_left(s, width).len() == (if s.len() < width { width } else { s.len() }),
        align_right(s, width).skip(align_right(s, width).len() - s.len()) == s,
        align_left(s, width).take(s.len() as int) == s,
        forall|i: int| 0 <= i < align_right(s, width).len() - s.len() ==> #[trigger] align_right(s, width)[i] == ' ',
        forall|i: int| s.len() <= i < align_left(s, width).len() ==> #[trigger] align_left(s, width)[i] == ' ',
{
    let r = align_right(s, width);
    let l = align_left(s, width);
    assert(r.skip(r.len() - s.len()) =~= s);
    assert(l.take(s.len() as int) =~= s);
}

fn digit(d: u64) -> (c: char)
    requires
        d < 10,
    ensures
        c == digit_char(d as int),
{
    match d {
        0 => '0',
        1 => '1',
        2 => '2',
        3 => '3',
        4 => '4',
        5 => '5',
        6 => '6',
        7 => '7',
        8 => '8',
        _ => '9',
    }
}

/// The decimal notation of `n`.
pub fn decimal_text(n: u64) -> (r: String)
    ensures
        r@ == decimal(n as nat),
    decreases n,
{
    if n < 10 {
        let mut s = String::new();
        push_char(&mut s, digit(n));
        s
    } else {
        let mut s = decimal_text(n / 10);
        push_char(&mut s, digit(n % 10));
        s
    }
}

/// Appends `n` blanks to `s`.
pub fn push_spaces(s: &mut String, n: usize)
    ensures
        final(s)@ == old(s)@ + spaces(n as nat),
{
    let mut i: usize = 0;
    while i < n
        invariant
            i <= n,
            s@ == old(s)@ + spaces(i as nat),
        decreases n - i,
    {
        push_char(s, ' ');
        i = i + 1;
        assert(s@ =~= old(s)@ + spaces(i as nat));
    }
}

/// The number of characters of `s`.
pub fn char_count(s: &str) -> (n: usize)
    ensures
        n == s@.len(),
{
    chars_of(s).len()
}

/// `s` right-aligned in a field of `width` characters.
pub fn align_right_text(s: &str, width: usize) -> (r: String)
    ensures
        r@ == align_right(s@, width as nat),
{
    let n = char_count(s);
    let mut r = String::new();
    if n < width {
        push_spaces(&mut r, width - n);
    }
    r.append(s);
    assert(r@ =~= align_right(s@, width as nat));
    r
}

/// `s` left-aligned in a field of `width` characters.
pub fn align_left_text(s: &str, width: usize) -> (r: String)
    ensures
        r@ == align_left(s@, width as nat),
{
    let n = char_count(s);
    let mut r = String::new();
    r.append(s);
    if n < width {
        push_spaces(&mut r, width - n);
    }
    assert(r@ =~= align_left(s@, width as nat));
    r
}


/// Whether two strings hold the same characters.
pub fn same_text(a: &str, b: &str) -> (r: bool)
    ensures
        r == (a@ == b@),
{
    let ca = chars_of(a);
    let cb = chars_of(b);
    if ca.len() != cb.len() {
        return false;
    }
    let mut i: usize = 0;
    while i < ca.len()
        invariant
            ca@ == a@,
            cb@ == b@,
            ca.len() == cb.len(),
            i <= ca.len(),
            forall|j: int| 0 <= j < i ==> a@[j] == b@[j],
        decreases ca.len() - i,
    {
        if ca[i] != cb[i] {
            return false;
        }
        i = i + 1;
    }
    assert(a@ =~= b@);
    true
}

/// `s` with every double quote preceded by a backslash.
pub open spec fn escape_quotes(s: Seq<char>) -> Seq<char>
    decreases s.len(),
{
    if s.len() == 0 {
        Seq::empty()
    } else if s.last() == '"' {
        escape_quotes(s.drop_last()) + seq!['\\', '"']
    } else {
        escape_quotes(s.drop_last()).push(s.last())
    }
}

/// Law: escaping works character by character: a double quote becomes a
/// backslash and a double quote, every other character stays as it is, and the
/// escaped text of two texts in a row is their escaped texts in a row.
pub proof fn law_escape_quotes_by_character(a: Seq<char>, b: Seq<char>, c: char)
    ensures
        escape_quotes(a + b) == escape_quotes(a) + escape_quotes(b),
        escape_quotes(seq![c]) == (if c == '"' { seq!['\\', '"'] } else { seq![c] }),
    decreases b.len(),
{
    let one = seq![c];
    assert(one.drop_last() =~= Seq::<char>::empty());
    assert(one.last() == c);
    assert(escape_quotes(Seq::<char>::empty()) == Seq::<char>::empty());
    assert(escape_quotes(one) == escape_quotes(one.drop_last()) + seq!['\\', '"'] || escape_quotes(one)
        == escape_quotes(one.drop_last()).push(c));
    assert(Seq::<char>::empty() + seq!['\\', '"'] =~= seq!['\\', '"']);
    assert(Seq::<char>::empty().push(c) =~= one);
    if b.len() == 0 {
        assert(a + b =~= a);
        assert(escape_quotes(a) + escape_quotes(b) =~= escape_quotes(a));
    } else {
        let ab = a + b;
        assert(ab.last() == b.last());
        assert(ab.drop_last() =~= a + b.drop_last());
        law_escape_quotes_by_character(a, b.drop_last(), c);
        if b.last() == '"' {
            assert(escape_quotes(a) + escape_quotes(b.drop_last()) + seq!['\\', '"']
                =~= escape_quotes(a) + (escape_quotes(b.drop_last()) + seq!['\\', '"']));
        } else {
            assert((escape_quotes(a) + escape_quotes(b.drop_last())).push(b.last())
                =~= escape_quotes(a) + escape_quotes(b.drop_last()).push(b.last()));
        }
    }
}

/// Escapes the double quotes of `name` with backslashes.
pub fn escape_double_quote(name: &str) -> (r: String)
    ensures
        r@ == escape_quotes(name@),
{
    let cs = chars_of(name);
    let mut r = String::new();
    let mut i: usize = 0;
    while i < cs.len()
        invariant
            cs@ == name@,
            i <= cs.len(),
            r@ == escape_quotes(name@.take(i as int)),
        decreases cs.len() - i,
    {
        let c = cs[i];
        assert(name@.take(i + 1).drop_last() =~= name@.take(i as int));
        if c == '"' {
            push_char(&mut r, '\\');
            push_char(&mut r, '"');
        } else {
            push_char(&mut r, c);
        }
        i = i + 1;
        assert(r@ =~= escape_quotes(name@.take(i as int)));
    }
    assert(name@.take(cs.len() as int) =~= name@);
    r
}


/// Whether `c` ends an ANSI control sequence (`@` to `~`).
pub open spec fn is_final_char(c: char) -> bool {
    0x40 <= (c as u32) && (c as u32) <= 0x7e
}

/// What follows the body of a control sequence: everything after its final
/// character, or nothing when the sequence is not closed.
pub open spec fn after_control(s: Seq<char>) -> Seq<char>
    decreases s.len(),
{
    if s.len() == 0 {
        s
    } else if is_final_char(s[0]) {
        s.drop_first()
    } else {
        after_control(s.drop_first())
    }
}

pub proof fn lemma_after_control_shorter(s: Seq<char>)
    ensures
        after_control(s).len() <= s.len(),
    decreases s.len(),
{
    if s.len() > 0 && !is_final_char(s[0]) {
        lemma_after_control_shorter(s.drop_first());
    }
}

/// `s` without its ANSI control sequences (escape, `[`, parameters, final character).
pub open spec fn strip_ansi(s: Seq<char>) -> Seq<char>
    decreases s.len(),
{
    if s.len() == 0 {
        Seq::empty()
    } else if s[0] == '\u{1b}' && s.len() >= 2 && s[1] == '[' {
        proof {
            lemma_after_control_shorter(s.skip(2));
        }
        strip_ansi(after_control(s.skip(2)))
    } else {
        seq![s[0]] + strip_ansi(s.drop_first())
    }
}

/// The text of `s` that a terminal shows: `s` without ANSI control sequences.
pub fn strip_ansi_text(s: &str) -> (r: String)
    ensures
        r@ == strip_ansi(s@),
{
    let cs = chars_of(s);
    let mut r = String::new();
    let mut i: usize = 0;
    assert(s@.skip(0) =~= s@);
    while i < cs.len()
        invariant
            cs@ == s@,
            i <= cs.len(),
            strip_ansi(s@) == r@ + strip_ansi(s@.skip(i as int)),
        decreases cs.len() - i,
    {
        let ghost rest = s@.skip(i as int);
        let c = cs[i];
        if c == '\u{1b}' && i + 1 < cs.len() && cs[i + 1] == '[' {
            let mut j: usize = i + 2;
            assert(s@.skip(i as int).skip(2) =~= s@.skip(j as int));
            while j < cs.len() && !(0x40 <= (cs[j] as u32) && (cs[j] as u32) <= 0x7e)
                invariant
                    cs@ == s@,
                    i + 2 <= j <= cs.len(),
                    after_control(rest.skip(2)) == after_control(s@.skip(j as int)),
                decreases cs.len() - j,
            {
                assert(s@.skip(j as int).drop_first() =~= s@.skip(j + 1));
                j = j + 1;
            }
            if j < cs.len() {
                assert(s@.skip(j as int).drop_first() =~= s@.skip(j + 1));
                i = j + 1;
            } else {
                assert(s@.skip(j as int).len() == 0);
                i = j;
                assert(s@.skip(i as int) =~= s@.skip(j as int));
            }
        } else {
            push_char(&mut r, c);
            assert(rest.drop_first() =~= s@.skip(i + 1));
            i = i + 1;
        }
    }
    assert(s@.skip(i as int) =~= Seq::<char>::empty());
    r
}


/// `s` holds no escape character.
pub open spec fn escape_free(s: Seq<char>) -> bool {
    forall|i: int| 0 <= i < s.len() ==> s[i] != '\u{1b}'
}

/// `s` could stand between `ESC [` and the final character of a control
/// sequence: none of its characters is a final one.
pub open spec fn is_parameter_text(s: Seq<char>) -> bool {
    forall|i: int| 0 <= i < s.len() ==> !is_final_char(#[trigger] s[i])
}

proof fn lemma_after_control_skips(params: Seq<char>, fin: char, rest: Seq<char>)
    requires
        is_parameter_text(params),
        is_final_char(fin),
    ensures
        after_control(params + seq![fin] + rest) == rest,
    decreases params.len(),
{
    let s = params + seq![fin] + rest;
    if params.len() == 0 {
        assert(s[0] == fin);
        assert(s.drop_first() =~= rest);
    } else {
        assert(s[0] == params[0]);
        assert(s.drop_first() =~= params.drop_first() + seq![fin] + rest);
        lemma_after_control_skips(params.drop_first(), fin, rest);
    }
}

/// Text without escape characters passes through `strip_ansi` unchanged, and
/// what follows it is stripped on its own.
pub proof fn lemma_strip_escape_free_prefix(s: Seq<char>, rest: Seq<char>)
    requires
        escape_free(s),
    ensures
        strip_ansi(s + rest) == s + strip_ansi(rest),
    decreases s.len(),
{
    if s.len() == 0 {
        assert(s + rest =~= rest);
    } else {
        let t = s + rest;
        assert(t[0] == s[0]);
        assert(t.drop_first() =~= s.drop_first() + rest);
        lemma_strip_escape_free_prefix(s.drop_first(), rest);
        assert(s =~= seq![s[0]] + s.drop_first());
    }
}

/// Law: colouring a text with an ANSI control sequence before it and the reset
/// sequence `ESC [ 0 m` after it leaves what a terminal shows unchanged, so
/// coloured and plain names take the same width.
pub proof fn law_colour_codes_invisible(params: Seq<char>, fin: char, s: Seq<char>)
    requires
        is_parameter_text(params),
        is_final_char(fin),
        escape_free(s),
    ensures
        strip_ansi(seq!['\u{1b}', '['] + params + seq![fin] + s + seq!['\u{1b}', '[', '0', 'm']) == s,
{
    let reset = seq!['\u{1b}', '[', '0', 'm'];
    let whole = seq!['\u{1b}', '['] + params + seq![fin] + s + reset;
    assert(whole[0] == '\u{1b}' && whole[1] == '[');
    assert(whole.skip(2) =~= params + seq![fin] + (s + reset));
    lemma_after_control_skips(params, fin, s + reset);
    lemma_strip_escape_free_prefix(s, reset);
    assert(reset.skip(2) =~= seq!['0'] + seq!['m'] + Seq::<char>::empty());
    assert(is_parameter_text(seq!['0']));
    lemma_after_control_skips(seq!['0'], 'm', Seq::<char>::empty());
    assert(reset[0] == '\u{1b}' && reset[1] == '[' && reset.len() >= 2);
    assert(after_control(reset.skip(2)) == Seq::<char>::empty());
    assert(strip_ansi(Seq::<char>::empty()) == Seq::<char>::empty());
    assert(strip_ansi(reset) == Seq::<char>::empty());
    assert(s + Seq::<char>::empty() =~= s);
}

} // verus!
