//! Text: comparison, trimming, case, digits and UTF-8.
use vstd::prelude::*;
use vstd::string::*;
use vstd::utf8::*;

verus! {

/// The white space of ASCII.
pub open spec fn ascii_space(c: char) -> bool {
    c == ' ' || 9 <= c as u32 <= 13
}

/// Whether a character outside ASCII has the Unicode property White_Space.
pub uninterp spec fn unicode_white_space(c: char) -> bool;

/// Whether a character counts as white space.
pub open spec fn is_space(c: char) -> bool {
    if (c as u32) < 0x80 {
        ascii_space(c)
    } else {
        unicode_white_space(c)
    }
}

/// Calls `char::is_whitespace`. Of ASCII it claims that the space and the
/// characters 9 to 13 are white space; of the rest, that the answer depends on
/// the character alone.
#[verifier::external_body]
fn white_space(c: char) -> (r: bool)
    ensures
        r == (if (c as u32) < 0x80 {
            ascii_space(c)
        } else {
            unicode_white_space(c)
        }),
{
    c.is_whitespace()
}

/// `s` without the white space at its two ends.
pub open spec fn trimmed(s: Seq<char>) -> Seq<char>
    decreases s.len(),
{
    if s.len() == 0 {
        s
    } else if is_space(s[0]) {
        trimmed(s.skip(1))
    } else if is_space(s.last()) {
        trimmed(s.drop_last())
    } else {
        s
    }
}

/// The small letter of an ASCII capital; any other character is kept.
pub open spec fn ascii_lower(c: char) -> char {
    if 'A' <= c && c <= 'Z' {
        ((c as u8) + 32) as char
    } else {
        c
    }
}

/// The lowercase mapping of a text that is not pure ASCII.
pub uninterp spec fn unicode_lowercase(s: Seq<char>) -> Seq<char>;

/// A text in lower case.
pub open spec fn lowered(s: Seq<char>) -> Seq<char> {
    if is_ascii_chars(s) {
        s.map_values(|c: char| ascii_lower(c))
    } else {
        unicode_lowercase(s)
    }
}

/// Calls `str::to_lowercase`. Of an ASCII text it claims that the capitals are
/// replaced by their small letters and that nothing else changes; of any other
/// text, that the result depends on the text alone.
#[verifier::external_body]
fn lower_case(s: &str) -> (r: String)
    ensures
        r@ == (if is_ascii_chars(s@) {
            s@.map_values(|c: char| ascii_lower(c))
        } else {
            unicode_lowercase(s@)
        }),
{
    s.to_lowercase()
}

/// The capital of an ASCII small letter; any other character is kept.
pub open spec fn ascii_upper(c: char) -> char {
    if 'a' <= c && c <= 'z' {
        ((c as u8) - 32) as char
    } else {
        c
    }
}

/// The uppercase mapping of a text that is not pure ASCII.
pub uninterp spec fn unicode_uppercase(s: Seq<char>) -> Seq<char>;

/// A text in upper case.
pub open spec fn raised(s: Seq<char>) -> Seq<char> {
    if is_ascii_chars(s) {
        s.map_values(|c: char| ascii_upper(c))
    } else {
        unicode_uppercase(s)
    }
}

/// Calls `str::to_uppercase`. Of an ASCII text it claims that the small letters
/// are replaced by their capitals and that nothing else changes; of any other
/// text, that the result depends on the text alone.
#[verifier::external_body]
fn upper_case(s: &str) -> (r: String)
    ensures
        r@ == (if is_ascii_chars(s@) {
            s@.map_values(|c: char| ascii_upper(c))
        } else {
            unicode_uppercase(s@)
        }),
{
    s.to_uppercase()
}

/// `s` in lower case.
pub fn lowercase(s: &str) -> (r: String)
    ensures
        r@ == lowered(s@),
{
    lower_case(s)
}

/// `s` in upper case.
pub fn uppercase(s: &str) -> (r: String)
    ensures
        r@ == raised(s@),
{
    upper_case(s)
}

/// `s` without the white space at its two ends.
pub fn trim(s: &str) -> (r: &str)
    ensures
        r@ == trimmed(s@),
{
    let n: usize = s.unicode_len();
    let mut from: usize = 0;
    assert(s@.subrange(0, n as int) =~= s@);
    while from < n && white_space(s.get_char(from))
        invariant
            from <= n,
            n == s@.len(),
            trimmed(s@) == trimmed(s@.subrange(from as int, n as int)),
        ensures
            from <= n,
            n == s@.len(),
            trimmed(s@) == trimmed(s@.subrange(from as int, n as int)),
            from < n ==> !is_space(s@[from as int]),
        decreases n - from,
    {
        proof {
            let t = s@.subrange(from as int, n as int);
            assert(t.skip(1) =~= s@.subrange(from + 1, n as int));
        }
        from = from + 1;
    }
    let mut to: usize = n;
    while from < to && white_space(s.get_char(to - 1))
        invariant
            from <= to <= n,
            n == s@.len(),
            trimmed(s@) == trimmed(s@.subrange(from as int, to as int)),
            from < to ==> !is_space(s@[from as int]),
        ensures
            from <= to <= n,
            n == s@.len(),
            trimmed(s@) == trimmed(s@.subrange(from as int, to as int)),
            from < to ==> !is_space(s@[from as int]),
            from < to ==> !is_space(s@[to - 1]),
        decreases to,
    {
        proof {
            let t = s@.subrange(from as int, to as int);
            assert(t.drop_last() =~= s@.subrange(from as int, to - 1));
        }
        to = to - 1;
    }
    s.substring_char(from, to)
}

/// Whether two texts are equal.
pub fn same(a: &str, b: &str) -> (r: bool)
    ensures
        r == (a@ == b@),
{
    let r = crate::bytes::same_bytes(a.as_bytes(), b.as_bytes());
    proof {
        if r {
            encode_utf8_decode_utf8(a@);
            encode_utf8_decode_utf8(b@);
        }
    }
    r
}

/// Appends one character to a string, as `String::push` is documented to do.
pub assume_specification[ String::push ](s: &mut String, c: char)
    ensures
        final(s)@ == old(s)@.push(c),
;

/// The digit that stands for a number below ten.
pub open spec fn digit(d: nat) -> char {
    ((48 + d) as u8) as char
}

/// A number in decimal, without leading zeros.
pub open spec fn decimal(n: nat) -> Seq<char>
    decreases n,
{
    if n < 10 {
        seq![digit(n)]
    } else {
        decimal(n / 10).push(digit(n % 10))
    }
}

/// Appends a number in decimal.
pub fn push_decimal(out: &mut String, n: u64)
    ensures
        final(out)@ == old(out)@ + decimal(n as nat),
    decreases n,
{
    if n < 10 {
        out.push((48 + n as u8) as char);
    } else {
        push_decimal(out, n / 10);
        out.push((48 + (n % 10) as u8) as char);
    }
    assert(out@ =~= old(out)@ + decimal(n as nat));
}

/// A number in decimal.
pub fn decimal_text(n: u64) -> (r: String)
    ensures
        r@ == decimal(n as nat),
{
    let mut r = String::new();
    push_decimal(&mut r, n);
    assert(r@ =~= decimal(n as nat));
    r
}

/// Whether a character is one of the ten ASCII digits.
pub open spec fn is_digit(c: char) -> bool {
    '0' <= c && c <= '9'
}

/// The number below ten that a digit stands for.
pub open spec fn digit_value(c: char) -> nat {
    (c as u32 - 48) as nat
}

/// The number that a string of digits denotes.
pub open spec fn digits_value(s: Seq<char>) -> nat
    decreases s.len(),
{
    if s.len() == 0 {
        0
    } else {
        digits_value(s.drop_last()) * 10 + digit_value(s.last())
    }
}

/// Whether a text consists of digits, at least one.
pub open spec fn all_digits(s: Seq<char>) -> bool {
    s.len() > 0 && forall|i: int| 0 <= i < s.len() ==> is_digit(#[trigger] s[i])
}

/// The text behind an optional plus sign.
pub open spec fn unsigned_part(s: Seq<char>) -> Seq<char> {
    if s.len() > 0 && s[0] == '+' {
        s.skip(1)
    } else {
        s
    }
}

/// The number that a text denotes in decimal, a leading plus sign allowed, where
/// it is at most `max`.
pub open spec fn parsed_number(s: Seq<char>, max: nat) -> Option<nat> {
    let d = unsigned_part(s);
    if all_digits(d) && digits_value(d) <= max {
        Some(digits_value(d))
    } else {
        None
    }
}

proof fn lemma_digits_prefix_small(s: Seq<char>, k: int)
    requires
        0 <= k <= s.len(),
        all_digits(s),
    ensures
        digits_value(s.take(k)) <= digits_value(s),
    decreases s.len() - k,
{
    if k < s.len() {
        lemma_digits_prefix_small(s, k + 1);
        assert(s.take(k + 1).drop_last() =~= s.take(k));
    } else {
        assert(s.take(k) =~= s);
    }
}

/// Reads an unsigned decimal number that is at most `max`.
pub fn parse_number(s: &str, max: u64) -> (r: Option<u64>)
    ensures
        match parsed_number(s@, max as nat) {
            Some(v) => r == Some(v as u64) && v <= max,
            None => r is None,
        },
{
    let n: usize = s.unicode_len();
    let mut i: usize = 0;
    if n > 0 && s.get_char(0) == '+' {
        i = 1;
    }
    let ghost d = unsigned_part(s@);
    let ghost start = i as int;
    assert(d =~= s@.skip(start));
    if i >= n {
        return None;
    }
    let mut v: u64 = 0;
    assert(d.take(0) =~= Seq::<char>::empty());
    while i < n
        invariant
            start <= i <= n,
            n == s@.len(),
            0 <= start < n,
            d == s@.skip(start),
            d == unsigned_part(s@),
            forall|j: int| 0 <= j < i - start ==> is_digit(#[trigger] d[j]),
            v == digits_value(d.take(i - start)),
            v <= max,
        decreases n - i,
    {
        let c = s.get_char(i);
        assert(c == d[i - start]);
        if !('0' <= c && c <= '9') {
            assert(!is_digit(d[i - start]));
            return None;
        }
        let x: u64 = (c as u32 - 48) as u64;
        proof {
            assert(d.take(i - start + 1).drop_last() =~= d.take(i - start));
            assert(digits_value(d.take(i - start + 1)) == v * 10 + x);
            if all_digits(d) {
                lemma_digits_prefix_small(d, i - start + 1);
            }
        }
        if x > max || v > (max - x) / 10 {
            return None;
        }
        v = v * 10 + x;
        i = i + 1;
    }
    assert(d.take(n - start) =~= d);
    Some(v)
}

/// The parts of a text between the separators.
pub open spec fn fields(s: Seq<char>, sep: char) -> Seq<Seq<char>>
    decreases s.len(),
{
    if s.len() == 0 {
        seq![Seq::<char>::empty()]
    } else {
        let f = fields(s.drop_last(), sep);
        if s.last() == sep {
            f.push(Seq::empty())
        } else {
            f.update(f.len() - 1, f.last().push(s.last()))
        }
    }
}

pub proof fn lemma_fields_nonempty(s: Seq<char>, sep: char)
    ensures
        fields(s, sep).len() > 0,
    decreases s.len(),
{
    if s.len() > 0 {
        lemma_fields_nonempty(s.drop_last(), sep);
    }
}

/// The characters of texts.
pub open spec fn texts(v: Seq<String>) -> Seq<Seq<char>> {
    v.map_values(|t: String| t@)
}

/// The parts of a text between the separators.
pub fn split_on(s: &str, sep: char) -> (r: Vec<String>)
    ensures
        texts(r@) == fields(s@, sep),
{
    let mut out: Vec<String> = Vec::new();
    let mut part = String::new();
    assert(s@.take(0) =~= Seq::<char>::empty());
    assert(texts(out@).push(part@) =~= fields(s@.take(0), sep));
    for c in it: s.chars()
        invariant
            it.seq() == s@,
            texts(out@).push(part@) == fields(s@.take(it.index() as int), sep),
    {
        let ghost before = texts(out@).push(part@);
        let ghost i = it.index() as int;
        assert(s@.take(i + 1).drop_last() =~= s@.take(i));
        if c == sep {
            let done = part;
            part = String::new();
            out.push(done);
            assert(texts(out@).push(part@) =~= before.push(Seq::empty()));
        } else {
            part.push(c);
            assert(texts(out@).push(part@) =~= before.update(before.len() - 1, before.last().push(c)));
        }
    }
    assert(s@.take(s@.len() as int) =~= s@);
    let ghost before = texts(out@).push(part@);
    out.push(part);
    assert(texts(out@) =~= before);
    out
}

/// Two texts in a row.
pub fn join2(a: &str, b: &str) -> (r: String)
    ensures
        r@ == a@ + b@,
{
    let mut r = a.to_owned();
    r.append(b);
    r
}

/// Three texts in a row.
pub fn join3(a: &str, b: &str, c: &str) -> (r: String)
    ensures
        r@ == a@ + b@ + c@,
{
    let mut r = a.to_owned();
    r.append(b);
    r.append(c);
    r
}

/// Adds a line to a report.
pub fn say(lines: &mut Vec<String>, line: String)
    ensures
        texts(final(lines)@) == texts(old(lines)@).push(line@),
{
    lines.push(line);
    assert(texts(lines@) =~= texts(old(lines)@).push(line@));
}

/// Writing a number in decimal and reading it back gives the number.
pub proof fn lemma_decimal_round_trip(n: nat)
    ensures
        all_digits(decimal(n)),
        digits_value(decimal(n)) == n,
        decimal(n).len() > 0 && decimal(n)[0] != '+',
    decreases n,
{
    if n < 10 {
        assert(decimal(n).drop_last() =~= Seq::<char>::empty());
        assert(digits_value(Seq::<char>::empty()) == 0);
    } else {
        lemma_decimal_round_trip(n / 10);
        assert(decimal(n).drop_last() =~= decimal(n / 10));
    }
}

/// A trimmed text has no white space at its ends.
pub proof fn lemma_trimmed_twice(s: Seq<char>)
    ensures
        trimmed(trimmed(s)) == trimmed(s),
    decreases s.len(),
{
    if s.len() == 0 {
    } else if is_space(s[0]) {
        lemma_trimmed_twice(s.skip(1));
    } else if is_space(s.last()) {
        lemma_trimmed_twice(s.drop_last());
    }
}

/// The parts of a text around a separator are the parts before it and those behind it.
pub proof fn lemma_fields_split(x: Seq<char>, y: Seq<char>, sep: char)
    ensures
        fields(x.push(sep) + y, sep) == fields(x, sep) + fields(y, sep),
    decreases y.len(),
{
    let all = x.push(sep) + y;
    lemma_fields_nonempty(x, sep);
    if y.len() == 0 {
        assert(all =~= x.push(sep));
        assert(all.drop_last() =~= x);
        assert(fields(y, sep) =~= seq![Seq::<char>::empty()]);
        assert(fields(all, sep) =~= fields(x, sep) + fields(y, sep));
    } else {
        lemma_fields_split(x, y.drop_last(), sep);
        lemma_fields_nonempty(y.drop_last(), sep);
        assert(all.drop_last() =~= x.push(sep) + y.drop_last());
        assert(all.last() == y.last());
        assert(fields(all, sep) =~= fields(x, sep) + fields(y, sep));
    }
}

/// Trimming takes away just the white space at the two ends.
pub proof fn trimming_takes_white_space_only(s: Seq<char>) -> (from: int)
    ensures
        0 <= from <= from + trimmed(s).len() <= s.len(),
        trimmed(s) == s.subrange(from, from + trimmed(s).len()),
        forall|i: int| 0 <= i < from ==> is_space(#[trigger] s[i]),
        forall|i: int| from + trimmed(s).len() <= i < s.len() ==> is_space(#[trigger] s[i]),
        trimmed(s).len() > 0 ==> !is_space(trimmed(s)[0]) && !is_space(trimmed(s).last()),
    decreases s.len(),
{
    if s.len() == 0 {
        assert(trimmed(s) =~= s.subrange(0, 0));
        0
    } else if is_space(s[0]) {
        let k = trimming_takes_white_space_only(s.skip(1));
        let t = trimmed(s);
        assert(t =~= s.subrange(k + 1, k + 1 + t.len()));
        assert forall|i: int| 0 <= i < k + 1 implies is_space(#[trigger] s[i]) by {
            if i > 0 {
                assert(s.skip(1)[i - 1] == s[i]);
            }
        }
        assert forall|i: int| k + 1 + t.len() <= i < s.len() implies is_space(#[trigger] s[i]) by {
            assert(s.skip(1)[i - 1] == s[i]);
        }
        k + 1
    } else if is_space(s.last()) {
        let k = trimming_takes_white_space_only(s.drop_last());
        let t = trimmed(s);
        assert(t =~= s.subrange(k, k + t.len()));
        assert forall|i: int| 0 <= i < k implies is_space(#[trigger] s[i]) by {
            assert(s.drop_last()[i] == s[i]);
        }
        assert forall|i: int| k + t.len() <= i < s.len() implies is_space(#[trigger] s[i]) by {
            if i < s.len() - 1 {
                assert(s.drop_last()[i] == s[i]);
            }
        }
        k
    } else {
        assert(trimmed(s) =~= s.subrange(0, s.len() as int));
        0
    }
}

/// A number that was written out reads as itself, with a plus sign before it or without,
/// where it is no larger than what is allowed, and as nothing where it is larger.
pub proof fn numbers_are_read_back(n: nat, max: nat)
    ensures
        parsed_number(decimal(n), max) == (if n <= max {
            Some(n)
        } else {
            None
        }),
        parsed_number(seq!['+'] + decimal(n), max) == parsed_number(decimal(n), max),
        parsed_number(Seq::<char>::empty(), max) is None,
        parsed_number(seq!['-'] + decimal(n), max) is None,
{
    lemma_decimal_round_trip(n);
    let d = decimal(n);
    assert(is_digit(d[0]));
    assert(unsigned_part(d) == d);
    let p = seq!['+'] + d;
    assert(p[0] == '+');
    assert(p.skip(1) =~= d);
    let m = seq!['-'] + d;
    assert(m[0] == '-');
    assert(unsigned_part(m) == m);
    assert(!is_digit(m[0]));
}

} // verus!
