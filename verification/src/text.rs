//! Small text routines: decimal numbers, trimming, and one-line titles.
use vstd::prelude::*;

verus! {

// ---------- building strings ----------

/// Appends one character to a string (`String::push`).
#[verifier::external_body]
pub(crate) fn push_char(s: &mut String, c: char)
    ensures
        final(s)@ == old(s)@.push(c),
{
    s.push(c);
}

/// Appends a string slice to a string.
pub(crate) fn push_str(s: &mut String, t: &str)
    ensures
        final(s)@ == old(s)@ + t@,
{
    s.append(t);
}

// ---------- decimal numbers ----------

/// The character of a decimal digit `d` (0..=9).
pub open spec fn digit_char(d: int) -> char {
    if d == 0 { '0' }
    else if d == 1 { '1' }
    else if d == 2 { '2' }
    else if d == 3 { '3' }
    else if d == 4 { '4' }
    else if d == 5 { '5' }
    else if d == 6 { '6' }
    else if d == 7 { '7' }
    else if d == 8 { '8' }
    else { '9' }
}

/// The value of an ASCII decimal digit character.
pub open spec fn digit_value(c: char) -> int {
    (c as int) - ('0' as int)
}

/// Whether `c` is one of `0`..=`9`.
pub open spec fn is_digit(c: char) -> bool {
    '0' <= c && c <= '9'
}

/// The shortest decimal rendering of `n`, without sign or leading zeros.
pub open spec fn spec_decimal(n: nat) -> Seq<char>
    decreases n,
{
    if n < 10 {
        seq![digit_char(n as int)]
    } else {
        spec_decimal(n / 10).push(digit_char((n % 10) as int))
    }
}

/// The value that a sequence of decimal digits denotes.
pub open spec fn digits_value(s: Seq<char>) -> nat
    decreases s.len(),
{
    if s.len() == 0 {
        0
    } else {
        (digits_value(s.drop_last()) * 10 + digit_value(s.last())) as nat
    }
}

fn digit_to_char(d: u64) -> (c: char)
    requires
        d < 10,
    ensures
        c == digit_char(d as int),
{
    if d == 0 { '0' }
    else if d == 1 { '1' }
    else if d == 2 { '2' }
    else if d == 3 { '3' }
    else if d == 4 { '4' }
    else if d == 5 { '5' }
    else if d == 6 { '6' }
    else if d == 7 { '7' }
    else if d == 8 { '8' }
    else { '9' }
}

/// Appends the decimal rendering of `n` to `s`.
pub(crate) fn push_decimal(s: &mut String, n: u64)
    ensures
        final(s)@ == old(s)@ + spec_decimal(n as nat),
    decreases n,
{
    if n >= 10 {
        push_decimal(s, n / 10);
    }
    push_char(s, digit_to_char(n % 10));
    proof {
        if n >= 10 {
            assert(old(s)@ + spec_decimal(n as nat) =~= old(s)@ + spec_decimal((n / 10) as nat) + seq![digit_char((n % 10) as int)]);
        } else {
            assert(old(s)@ + spec_decimal(n as nat) =~= old(s)@.push(digit_char(n as int)));
        }
    }
}

/// Renders `n` in decimal, as `n.to_string()` does.
pub fn decimal_string(n: u64) -> (s: String)
    ensures
        s@ == spec_decimal(n as nat),
{
    let mut s = String::new();
    push_decimal(&mut s, n);
    assert(s@ =~= spec_decimal(n as nat));
    s
}

/// `s` padded on the left with `0` up to `width` characters.
pub open spec fn zero_padded(s: Seq<char>, width: nat) -> Seq<char> {
    if s.len() < width {
        Seq::new((width - s.len()) as nat, |i: int| '0') + s
    } else {
        s
    }
}

/// Renders `n` in decimal, padded with leading zeros to at least `width`
/// digits (as the format `{n:0width$}` does).
pub fn zero_padded_decimal(n: u64, width: usize) -> (s: String)
    ensures
        s@ == zero_padded(spec_decimal(n as nat), width as nat),
{
    let digits = decimal_string(n);
    let len = digits.as_str().unicode_len();
    let mut s = String::new();
    let mut k: usize = len;
    while k < width
        invariant
            len == digits@.len(),
            len <= k <= width || (k == len && len >= width),
            s@ == Seq::new((k - len) as nat, |i: int| '0'),
        decreases width - k,
    {
        push_char(&mut s, '0');
        k = k + 1;
        assert(s@ =~= Seq::new((k - len) as nat, |i: int| '0'));
    }
    push_str(&mut s, digits.as_str());
    proof {
        if len < width {
            assert(k == width);
        } else {
            assert(s@ =~= digits@);
        }
    }
    s
}

// ---------- parsing ----------

/// `s` with one leading `+` removed, if it has one.
pub open spec fn unsigned_body(s: Seq<char>) -> Seq<char> {
    if s.len() > 0 && s[0] == '+' { s.drop_first() } else { s }
}

/// What `s.parse::<usize>()` gives: an optional `+`, then one or more
/// decimal digits whose value fits in a `usize`.
pub open spec fn spec_parse_usize(s: Seq<char>) -> Option<usize> {
    let body = unsigned_body(s);
    if body.len() > 0 && (forall|i: int| 0 <= i < body.len() ==> #[trigger] is_digit(body[i]))
        && digits_value(body) <= usize::MAX {
        Some(digits_value(body) as usize)
    } else {
        None
    }
}

proof fn lemma_digits_value_prefix(s: Seq<char>, k: int)
    requires
        0 <= k <= s.len(),
        forall|i: int| 0 <= i < s.len() ==> #[trigger] is_digit(s[i]),
    ensures
        digits_value(s.take(k)) <= digits_value(s),
    decreases s.len(),
{
    if k < s.len() {
        assert(s.drop_last().take(k) =~= s.take(k));
        assert forall|i: int| 0 <= i < s.drop_last().len() implies #[trigger] is_digit(s.drop_last()[i]) by {
            assert(is_digit(s[i]));
        }
        lemma_digits_value_prefix(s.drop_last(), k);
        assert(is_digit(s[s.len() - 1]));
    } else {
        assert(s.take(k) =~= s);
    }
}

/// Parses the characters of `s` in positions `start..end` as an unsigned
/// decimal number without sign.
fn parse_digits(s: &str, start: usize, end: usize) -> (r: Option<usize>)
    requires
        start <= end <= s@.len(),
    ensures
        ({
            let body = s@.subrange(start as int, end as int);
            r == if body.len() > 0 && (forall|i: int| 0 <= i < body.len() ==> #[trigger] is_digit(body[i]))
                && digits_value(body) <= usize::MAX {
                Some(digits_value(body) as usize)
            } else {
                None
            }
        }),
{
    let ghost body = s@.subrange(start as int, end as int);
    if start == end {
        return None;
    }
    let mut value: usize = 0;
    let mut i: usize = start;
    while i < end
        invariant
            start <= i <= end <= s@.len(),
            body == s@.subrange(start as int, end as int),
            forall|j: int| 0 <= j < i - start ==> #[trigger] is_digit(body[j]),
            value as nat == digits_value(body.take(i - start)),
        decreases end - i,
    {
        let c = s.get_char(i);
        assert(c == body[i - start]);
        if !('0' <= c && c <= '9') {
            assert(!is_digit(body[i - start]));
            return None;
        }
        let d: usize = ((c as u32) - ('0' as u32)) as usize;
        assert(body.take(i - start + 1).drop_last() =~= body.take(i - start));
        match value.checked_mul(10) {
            None => {
                proof {
                    if forall|j: int| 0 <= j < body.len() ==> #[trigger] is_digit(body[j]) {
                        lemma_digits_value_prefix(body, i - start + 1);
                    }
                }
                return None;
            },
            Some(v10) => match v10.checked_add(d) {
                None => {
                    proof {
                        if forall|j: int| 0 <= j < body.len() ==> #[trigger] is_digit(body[j]) {
                            lemma_digits_value_prefix(body, i - start + 1);
                        }
                    }
                    return None;
                },
                Some(v) => {
                    value = v;
                },
            },
        }
        i = i + 1;
    }
    assert(body.take(end - start) =~= body);
    Some(value)
}

/// Parses `s` as `s.parse::<usize>()` does.
pub fn parse_usize(s: &str) -> (r: Option<usize>)
    ensures
        r == spec_parse_usize(s@),
{
    let len = s.unicode_len();
    if len > 0 && s.get_char(0) == '+' {
        assert(s@.subrange(1, len as int) =~= s@.drop_first());
        parse_digits(s, 1, len)
    } else {
        assert(s@.subrange(0, len as int) =~= s@);
        parse_digits(s, 0, len)
    }
}

/// Parsing the decimal rendering of a number gives the number back.
pub proof fn law_parse_decimal_roundtrip(n: usize)
    ensures
        spec_parse_usize(spec_decimal(n as nat)) == Some(n),
{
    lemma_decimal_digits(n as nat);
}

proof fn lemma_digit_char_value(d: int)
    requires
        0 <= d < 10,
    ensures
        is_digit(digit_char(d)),
        digit_value(digit_char(d)) == d,
        digit_char(d) != '+',
{
}

pub(crate) proof fn lemma_decimal_digits(n: nat)
    ensures
        spec_decimal(n).len() > 0,
        spec_decimal(n)[0] != '+',
        forall|i: int| 0 <= i < spec_decimal(n).len() ==> #[trigger] is_digit(spec_decimal(n)[i]),
        digits_value(spec_decimal(n)) == n,
    decreases n,
{
    lemma_digit_char_value((n % 10) as int);
    if n < 10 {
        assert(spec_decimal(n).drop_last() =~= Seq::<char>::empty());
        assert(digits_value(Seq::<char>::empty()) == 0);
        assert(digits_value(spec_decimal(n)) == digit_value(digit_char(n as int)));
    }
    if n >= 10 {
        lemma_decimal_digits(n / 10);
        assert(n == (n / 10) * 10 + n % 10);
        let s = spec_decimal(n);
        assert(s.drop_last() =~= spec_decimal(n / 10));
        assert(s.last() == digit_char((n % 10) as int));
        assert(digits_value(s) == digits_value(spec_decimal(n / 10)) * 10 + digit_value(digit_char((n % 10) as int)));
        assert forall|i: int| 0 <= i < s.len() implies #[trigger] is_digit(s[i]) by {
            if i < s.len() - 1 {
                assert(s[i] == spec_decimal(n / 10)[i]);
            }
        }
    }
}

// ---------- whitespace ----------

/// Unicode `White_Space`, the property that `char::is_whitespace` tests.
pub open spec fn is_whitespace(c: char) -> bool {
    ||| '\u{9}' <= c && c <= '\u{D}'
    ||| c == ' '
    ||| c == '\u{85}'
    ||| c == '\u{A0}'
    ||| c == '\u{1680}'
    ||| '\u{2000}' <= c && c <= '\u{200A}'
    ||| c == '\u{2028}'
    ||| c == '\u{2029}'
    ||| c == '\u{202F}'
    ||| c == '\u{205F}'
    ||| c == '\u{3000}'
}

fn char_is_whitespace(c: char) -> (b: bool)
    ensures
        b == is_whitespace(c),
{
    ('\u{9}' <= c && c <= '\u{D}') || c == ' ' || c == '\u{85}' || c == '\u{A0}' || c == '\u{1680}'
        || ('\u{2000}' <= c && c <= '\u{200A}') || c == '\u{2028}' || c == '\u{2029}'
        || c == '\u{202F}' || c == '\u{205F}' || c == '\u{3000}'
}

/// `s` without leading whitespace.
pub open spec fn trim_start(s: Seq<char>) -> Seq<char>
    decreases s.len(),
{
    if s.len() > 0 && is_whitespace(s[0]) { trim_start(s.drop_first()) } else { s }
}

/// `s` without trailing whitespace.
pub open spec fn trim_end(s: Seq<char>) -> Seq<char>
    decreases s.len(),
{
    if s.len() > 0 && is_whitespace(s.last()) { trim_end(s.drop_last()) } else { s }
}

/// `s` without leading and trailing whitespace, as `str::trim` gives it.
pub open spec fn trim(s: Seq<char>) -> Seq<char> {
    trim_end(trim_start(s))
}

/// The bounds `(start, end)` of `s.trim()` within `s`.
fn trim_bounds(s: &str) -> (r: (usize, usize))
    ensures
        r.0 <= r.1 <= s@.len(),
        s@.subrange(r.0 as int, r.1 as int) == trim(s@),
{
    let len = s.unicode_len();
    let mut start: usize = 0;
    assert(s@.skip(0) =~= s@);
    while start < len && char_is_whitespace(s.get_char(start))
        invariant
            len == s@.len(),
            start <= len,
            trim_start(s@) == trim_start(s@.skip(start as int)),
        decreases len - start,
    {
        assert(s@.skip(start as int).drop_first() =~= s@.skip(start + 1));
        start = start + 1;
    }
    assert(trim_start(s@.skip(start as int)) == s@.skip(start as int));
    let ghost t = s@.skip(start as int);
    let mut end: usize = len;
    while end > start && char_is_whitespace(s.get_char(end - 1))
        invariant
            len == s@.len(),
            start <= end <= len,
            t == s@.skip(start as int),
            trim_end(t) == trim_end(s@.subrange(start as int, end as int)),
        decreases end - start,
    {
        assert(s@.subrange(start as int, end as int).drop_last() =~= s@.subrange(start as int, end - 1));
        end = end - 1;
    }
    assert(t =~= s@.subrange(start as int, len as int));
    (start, end)
}

/// Parses `s` as `s.trim().parse::<usize>()` does.
pub fn parse_trimmed_usize(s: &str) -> (r: Option<usize>)
    ensures
        r == spec_parse_usize(trim(s@)),
{
    let (start, end) = trim_bounds(s);
    let ghost t = s@.subrange(start as int, end as int);
    if start < end && s.get_char(start) == '+' {
        assert(s@.subrange(start + 1, end as int) =~= t.drop_first());
        parse_digits(s, start + 1, end)
    } else {
        parse_digits(s, start, end)
    }
}

/// A decimal rendering has no surrounding whitespace.
pub(crate) proof fn lemma_trim_decimal(n: nat)
    ensures
        trim(spec_decimal(n)) == spec_decimal(n),
{
    lemma_decimal_digits(n);
    let s = spec_decimal(n);
    assert(is_digit(s[0]));
    assert(is_digit(s[s.len() - 1]));
    assert(trim_start(s) == s);
    assert(trim_end(s) == s);
}

// ---------- one-line titles ----------

/// A line break shown as a space.
pub open spec fn flatten_char(c: char) -> char {
    if c == '\n' || c == '\r' { ' ' } else { c }
}

/// `s` with every `\n` and `\r` replaced by a space.
pub open spec fn flatten_lines(s: Seq<char>) -> Seq<char> {
    s.map_values(|c: char| flatten_char(c))
}

/// `s` on one line, cut to `max` characters with `…` appended when longer.
pub open spec fn spec_truncate_chars(s: Seq<char>, max: nat) -> Seq<char> {
    if s.len() <= max {
        flatten_lines(s)
    } else {
        flatten_lines(s).take(max as int).push('…')
    }
}

/// Puts `s` on one line (line breaks become spaces) and, when it has more
/// than `max` characters, keeps the first `max` and appends `…`.
pub fn truncate_chars(s: &str, max: usize) -> (r: String)
    ensures
        r@ == spec_truncate_chars(s@, max as nat),
{
    let len = s.unicode_len();
    let keep = if len <= max { len } else { max };
    let mut out = String::new();
    let mut i: usize = 0;
    while i < keep
        invariant
            len == s@.len(),
            keep <= len,
            i <= keep,
            out@ == flatten_lines(s@).take(i as int),
        decreases keep - i,
    {
        let c = s.get_char(i);
        let shown = if c == '\n' || c == '\r' { ' ' } else { c };
        push_char(&mut out, shown);
        i = i + 1;
        assert(out@ =~= flatten_lines(s@).take(i as int));
    }
    if len > max {
        push_char(&mut out, '…');
    } else {
        assert(out@ =~= flatten_lines(s@));
    }
    out
}

/// The first `n` characters of `s` (all of them when it is shorter), as
/// `s.chars().take(n).collect()` gives them.
pub fn first_chars(s: &str, n: usize) -> (r: String)
    ensures
        r@ == s@.take(if s@.len() <= n { s@.len() as int } else { n as int }),
{
    let len = s.unicode_len();
    let keep = if len <= n { len } else { n };
    let part = s.substring_char(0, keep);
    let mut out = String::new();
    push_str(&mut out, part);
    assert(out@ =~= s@.take(keep as int));
    out
}

} // verus!
