//! Character sequences: the vocabulary in which every contract of this crate
//! speaks about text, and the executable helpers that realise it on `&str`.

use vstd::prelude::*;
use vstd::string::StrSliceExecFns;

verus! {

/// `String::push` appends exactly one character to the end of the string.
pub assume_specification[ std::string::String::push ](s: &mut std::string::String, ch: char)
    ensures
        final(s)@ == old(s)@.push(ch),
;

/// The parts in order, with `sep` between each two neighbours.
pub open spec fn join(parts: Seq<Seq<char>>, sep: Seq<char>) -> Seq<char>
    decreases parts.len(),
{
    if parts.len() == 0 {
        Seq::empty()
    } else if parts.len() == 1 {
        parts[0]
    } else {
        join(parts.drop_last(), sep) + sep + parts.last()
    }
}

/// The parts in order, each one indented by two spaces and ended by a line feed.
pub open spec fn lines(parts: Seq<Seq<char>>) -> Seq<char>
    decreases parts.len(),
{
    if parts.len() == 0 {
        Seq::empty()
    } else {
        lines(parts.drop_last()) + "  "@ + parts.last() + "\n"@
    }
}

/// `s` between double quotes, with nothing escaped.
pub open spec fn quoted(s: Seq<char>) -> Seq<char> {
    "\""@ + s + "\""@
}

/// The characters that `str::trim` removes: those that Unicode classifies
/// as `White_Space`.
pub open spec fn is_whitespace(c: char) -> bool {
    ||| c == ' '
    ||| ('\u{9}' <= c && c <= '\u{d}')
    ||| c == '\u{85}'
    ||| c == '\u{a0}'
    ||| c == '\u{1680}'
    ||| ('\u{2000}' <= c && c <= '\u{200a}')
    ||| c == '\u{2028}'
    ||| c == '\u{2029}'
    ||| c == '\u{202f}'
    ||| c == '\u{205f}'
    ||| c == '\u{3000}'
}

/// `s` without its leading whitespace.
pub open spec fn trim_start(s: Seq<char>) -> Seq<char>
    decreases s.len(),
{
    if s.len() > 0 && is_whitespace(s[0]) {
        trim_start(s.drop_first())
    } else {
        s
    }
}

/// `s` without its trailing whitespace.
pub open spec fn trim_end(s: Seq<char>) -> Seq<char>
    decreases s.len(),
{
    if s.len() > 0 && is_whitespace(s.last()) {
        trim_end(s.drop_last())
    } else {
        s
    }
}

/// `s` without leading and trailing whitespace.
pub open spec fn trim(s: Seq<char>) -> Seq<char> {
    trim_end(trim_start(s))
}

/// The least index at or after `from` at which `c` stands in `s`.
pub open spec fn first_index(s: Seq<char>, c: char, from: int) -> Option<int>
    decreases s.len() - from,
{
    if from < 0 || from >= s.len() {
        None
    } else if s[from] == c {
        Some(from)
    } else {
        first_index(s, c, from + 1)
    }
}

/// The greatest index below `to` at which `c` stands in `s`.
pub open spec fn last_index(s: Seq<char>, c: char, to: int) -> Option<int>
    decreases to,
{
    if to <= 0 || to > s.len() {
        None
    } else if s[to - 1] == c {
        Some(to - 1)
    } else {
        last_index(s, c, to - 1)
    }
}

/// Whether `a` followed by `b` stands in `s` at index `i`.
pub open spec fn pair_at(s: Seq<char>, a: char, b: char, i: int) -> bool {
    0 <= i && i + 1 < s.len() && s[i] == a && s[i + 1] == b
}

/// The least index at or after `from` at which `a` followed by `b` stands in `s`.
pub open spec fn first_pair(s: Seq<char>, a: char, b: char, from: int) -> Option<int>
    decreases s.len() - from,
{
    if from < 0 || from + 1 >= s.len() {
        None
    } else if s[from] == a && s[from + 1] == b {
        Some(from)
    } else {
        first_pair(s, a, b, from + 1)
    }
}

/// How often `c` occurs in `s`.
pub open spec fn count_char(s: Seq<char>, c: char) -> nat
    decreases s.len(),
{
    if s.len() == 0 {
        0
    } else {
        count_char(s.drop_last(), c) + if s.last() == c {
            1nat
        } else {
            0nat
        }
    }
}

/// `s` with every `from` replaced by `to`.
pub open spec fn replace_char(s: Seq<char>, from: char, to: char) -> Seq<char> {
    Seq::new(
        s.len(),
        |i: int|
            if s[i] == from {
                to
            } else {
                s[i]
            },
    )
}

/// The pieces of `s` from index `from` on, cut at each occurrence of `sep`.
pub open spec fn split_from(s: Seq<char>, sep: char, from: int) -> Seq<Seq<char>>
    decreases s.len() - from,
    via split_from_decreases
{
    match first_index(s, sep, from) {
        None => seq![s.subrange(from, s.len() as int)],
        Some(i) => seq![s.subrange(from, i)] + split_from(s, sep, i + 1),
    }
}

#[via_fn]
proof fn split_from_decreases(s: Seq<char>, sep: char, from: int) {
    if from >= 0 {
        lemma_first_index_found(s, sep, from);
    }
}

/// The pieces of `s` between occurrences of `sep`: one piece more than there
/// are separators.
pub open spec fn split(s: Seq<char>, sep: char) -> Seq<Seq<char>> {
    split_from(s, sep, 0)
}

/// The decimal digit for `d`.
pub open spec fn digit(d: int) -> char {
    (('0' as int) + d) as char
}

/// `n` in decimal, without leading zeros.
pub open spec fn decimal(n: nat) -> Seq<char>
    decreases n,
{
    if n < 10 {
        seq![digit(n as int)]
    } else {
        decimal(n / 10).push(digit((n % 10) as int))
    }
}

/// `i` in decimal, with a minus sign in front of a negative number.
pub open spec fn int_text(i: int) -> Seq<char> {
    if i < 0 {
        seq!['-'] + decimal((-i) as nat)
    } else {
        decimal(i as nat)
    }
}

/// Whether `c` is one of the digits `0` to `9`.
pub open spec fn is_digit(c: char) -> bool {
    '0' <= c && c <= '9'
}

/// The number that the digits of `s` are the decimal text of; a character
/// that is no digit counts as 0.
pub open spec fn number(s: Seq<char>) -> nat
    decreases s.len(),
{
    if s.len() == 0 {
        0
    } else {
        number(s.drop_last()) * 10 + if is_digit(s.last()) {
            (s.last() as int - '0' as int) as nat
        } else {
            0nat
        }
    }
}

/// Whether `s` holds nothing but digits.
pub open spec fn all_digits(s: Seq<char>) -> bool {
    forall|i: int| 0 <= i < s.len() ==> is_digit(#[trigger] s[i])
}

/// The integer that `s` is the decimal text of, as `str::parse::<i64>`
/// reads it: an optional sign, then at least one digit and nothing but
/// digits, for a number that fits in 64 bits.
pub open spec fn parsed_integer(s: Seq<char>) -> Option<i64> {
    let signed = s.len() > 0 && (s[0] == '-' || s[0] == '+');
    let digits = if signed {
        s.drop_first()
    } else {
        s
    };
    let value = if s.len() > 0 && s[0] == '-' {
        -(number(digits) as int)
    } else {
        number(digits) as int
    };
    if digits.len() > 0 && all_digits(digits) && i64::MIN <= value <= i64::MAX {
        Some(value as i64)
    } else {
        None
    }
}

/// A longer text stands for a number that is no smaller.
pub proof fn lemma_number_grows(s: Seq<char>, k: int)
    requires
        0 <= k <= s.len(),
    ensures
        number(s.take(k)) <= number(s),
    decreases s.len() - k,
{
    if k < s.len() {
        lemma_number_grows(s, k + 1);
        assert(s.take(k + 1).drop_last() =~= s.take(k));
    } else {
        assert(s.take(k) =~= s);
    }
}

/// "true" or "false".
pub open spec fn bool_text(b: bool) -> Seq<char> {
    if b {
        "true"@
    } else {
        "false"@
    }
}

/// Joining one part more: the separator stands in front of it unless it is
/// the first.
pub proof fn lemma_join_push(parts: Seq<Seq<char>>, part: Seq<char>, sep: Seq<char>)
    ensures
        join(parts.push(part), sep) == if parts.len() == 0 {
            part
        } else {
            join(parts, sep) + sep + part
        },
{
    assert(parts.push(part).drop_last() =~= parts);
}

/// One line more.
pub proof fn lemma_lines_push(parts: Seq<Seq<char>>, part: Seq<char>)
    ensures
        lines(parts.push(part)) == lines(parts) + "  "@ + part + "\n"@,
{
    assert(parts.push(part).drop_last() =~= parts);
}

/// Replacing a character that does not occur changes nothing.
pub proof fn lemma_replace_absent(s: Seq<char>, from: char, to: char)
    requires
        !s.contains(from),
    ensures
        replace_char(s, from, to) == s,
{
    assert(replace_char(s, from, to) =~= s);
}

/// Replacing goes through a concatenation.
pub proof fn lemma_replace_concat(a: Seq<char>, b: Seq<char>, from: char, to: char)
    ensures
        replace_char(a + b, from, to) == replace_char(a, from, to) + replace_char(b, from, to),
{
    assert(replace_char(a + b, from, to) =~= replace_char(a, from, to) + replace_char(b, from, to));
}

/// What `first_index` finds is the first occurrence, and where it finds
/// nothing, there is none.
pub proof fn lemma_first_index_found(s: Seq<char>, c: char, from: int)
    requires
        0 <= from,
    ensures
        match first_index(s, c, from) {
            Some(i) => from <= i < s.len() && s[i] == c && forall|j: int|
                from <= j < i ==> s[j] != c,
            None => forall|j: int| from <= j < s.len() ==> s[j] != c,
        },
    decreases s.len() - from,
{
    if from < s.len() && s[from] != c {
        lemma_first_index_found(s, c, from + 1);
    }
}

/// What `last_index` finds is the last occurrence, and where it finds
/// nothing, there is none.
pub proof fn lemma_last_index_found(s: Seq<char>, c: char, to: int)
    requires
        to <= s.len(),
    ensures
        match last_index(s, c, to) {
            Some(i) => 0 <= i < to && s[i] == c && forall|j: int| i < j < to ==> s[j] != c,
            None => forall|j: int| 0 <= j < to ==> s[j] != c,
        },
    decreases to,
{
    if to > 0 && s[to - 1] != c {
        lemma_last_index_found(s, c, to - 1);
    }
}

/// What `first_pair` finds is the first occurrence of the pair, and where it
/// finds nothing, there is none.
pub proof fn lemma_first_pair_found(s: Seq<char>, a: char, b: char, from: int)
    requires
        0 <= from,
    ensures
        match first_pair(s, a, b, from) {
            Some(i) => from <= i && pair_at(s, a, b, i) && forall|j: int|
                from <= j < i ==> !pair_at(s, a, b, j),
            None => forall|j: int| from <= j ==> !pair_at(s, a, b, j),
        },
    decreases s.len() - from,
{
    if from + 1 < s.len() && !(s[from] == a && s[from + 1] == b) {
        lemma_first_pair_found(s, a, b, from + 1);
    }
}

/// The characters of `s`, in a vector that can be indexed in constant time.
pub(crate) fn chars_of(s: &str) -> (v: Vec<char>)
    ensures
        v@ == s@,
{
    let mut v: Vec<char> = Vec::new();
    for c in it: s.chars()
        invariant
            v@ == it.seq().take(it.index() as int),
            it.seq() == s@,
    {
        v.push(c);
    }
    v
}

/// Whether `str::trim` removes `c`, see [`is_whitespace`].
pub(crate) fn is_whitespace_char(c: char) -> (r: bool)
    ensures
        r == is_whitespace(c),
{
    c == ' ' || ('\u{9}' <= c && c <= '\u{d}') || c == '\u{85}' || c == '\u{a0}' || c
        == '\u{1680}' || ('\u{2000}' <= c && c <= '\u{200a}') || c == '\u{2028}' || c
        == '\u{2029}' || c == '\u{202f}' || c == '\u{205f}' || c == '\u{3000}'
}

/// The bounds of what `trim` keeps of `v[from..to]`.
pub(crate) fn trim_bounds(v: &Vec<char>, from: usize, to: usize) -> (r: (usize, usize))
    requires
        from <= to <= v.len(),
    ensures
        from <= r.0 <= r.1 <= to,
        v@.subrange(r.0 as int, r.1 as int) == trim(v@.subrange(from as int, to as int)),
{
    let mut a: usize = from;
    while a < to && is_whitespace_char(v[a])
        invariant
            from <= a <= to <= v.len(),
            trim_start(v@.subrange(from as int, to as int)) == trim_start(
                v@.subrange(a as int, to as int),
            ),
        decreases to - a,
    {
        proof {
            let cur = v@.subrange(a as int, to as int);
            assert(cur.drop_first() =~= v@.subrange(a + 1, to as int));
        }
        a += 1;
    }
    assert(trim_start(v@.subrange(a as int, to as int)) == v@.subrange(a as int, to as int));
    let mut b: usize = to;
    while a < b && is_whitespace_char(v[b - 1])
        invariant
            a <= b <= to <= v.len(),
            trim_end(v@.subrange(a as int, to as int)) == trim_end(v@.subrange(a as int, b as int)),
        decreases b - a,
    {
        proof {
            let cur = v@.subrange(a as int, b as int);
            assert(cur.drop_last() =~= v@.subrange(a as int, b - 1));
        }
        b -= 1;
    }
    assert(trim_end(v@.subrange(a as int, b as int)) == v@.subrange(a as int, b as int));
    (a, b)
}

/// `s.trim()`.
pub(crate) fn trimmed(s: &str) -> (r: &str)
    ensures
        r@ == trim(s@),
{
    let v = chars_of(s);
    let (a, b) = trim_bounds(&v, 0, v.len());
    assert(v@.subrange(0, v.len() as int) =~= v@);
    s.substring_char(a, b)
}

/// The first occurrence of `c` in `v` at or after `from`.
pub(crate) fn find_char(v: &Vec<char>, c: char, from: usize) -> (r: Option<usize>)
    ensures
        match r {
            Some(i) => from <= i < v.len() && first_index(v@, c, from as int) == Some(i as int),
            None => first_index(v@, c, from as int) is None,
        },
{
    let mut i: usize = from;
    while i < v.len()
        invariant
            from <= i,
            first_index(v@, c, from as int) == first_index(v@, c, i as int),
        decreases v.len() - i,
    {
        if v[i] == c {
            return Some(i);
        }
        i += 1;
    }
    None
}

/// The last occurrence of `c` in `v`.
pub(crate) fn rfind_char(v: &Vec<char>, c: char) -> (r: Option<usize>)
    ensures
        match r {
            Some(i) => i < v.len() && last_index(v@, c, v@.len() as int) == Some(i as int),
            None => last_index(v@, c, v@.len() as int) is None,
        },
{
    let mut i: usize = v.len();
    while i > 0
        invariant
            i <= v.len(),
            last_index(v@, c, v@.len() as int) == last_index(v@, c, i as int),
        decreases i,
    {
        if v[i - 1] == c {
            return Some(i - 1);
        }
        i -= 1;
    }
    None
}

/// The first occurrence of `a` followed by `b` in `v` at or after `from`.
pub(crate) fn find_pair(v: &Vec<char>, a: char, b: char, from: usize) -> (r: Option<usize>)
    ensures
        match r {
            Some(i) => from <= i && i + 1 < v.len() && first_pair(v@, a, b, from as int) == Some(
                i as int,
            ),
            None => first_pair(v@, a, b, from as int) is None,
        },
{
    let mut i: usize = from;
    while i < v.len() && i + 1 < v.len()
        invariant
            from <= i,
            first_pair(v@, a, b, from as int) == first_pair(v@, a, b, i as int),
        decreases v.len() - i,
    {
        if v[i] == a && v[i + 1] == b {
            return Some(i);
        }
        i += 1;
    }
    None
}

/// Whether `c` occurs in `s`.
pub(crate) fn contains_char(s: &str, c: char) -> (r: bool)
    ensures
        r == s@.contains(c),
{
    let v = chars_of(s);
    let found = find_char(&v, c, 0);
    proof {
        lemma_first_index_found(v@, c, 0);
    }
    found.is_some()
}

/// Whether `a` and `b` hold the same characters.
pub(crate) fn same_text(a: &str, b: &str) -> (r: bool)
    ensures
        r == (a@ == b@),
{
    let x = chars_of(a);
    let y = chars_of(b);
    if x.len() != y.len() {
        return false;
    }
    let mut i: usize = 0;
    while i < x.len()
        invariant
            i <= x.len(),
            x.len() == y.len(),
            x@ == a@,
            y@ == b@,
            forall|j: int| 0 <= j < i ==> x@[j] == y@[j],
        decreases x.len() - i,
    {
        if x[i] != y[i] {
            assert(a@[i as int] != b@[i as int]);
            return false;
        }
        i += 1;
    }
    assert(x@ =~= y@);
    true
}

/// Whether `s` is the one character `c`.
pub(crate) fn is_char(s: &str, c: char) -> (r: bool)
    ensures
        r == (s@ == seq![c]),
{
    let n = s.unicode_len();
    if n == 1 {
        let d = s.get_char(0);
        assert(d == c ==> s@ =~= seq![c]);
        d == c
    } else {
        false
    }
}

/// Appends the characters of `v` to `buf`, with every `a` replaced by `b`.
pub(crate) fn push_replaced(buf: &mut String, v: &Vec<char>, a: char, b: char)
    ensures
        final(buf)@ == old(buf)@ + replace_char(v@, a, b),
{
    let mut i: usize = 0;
    while i < v.len()
        invariant
            i <= v.len(),
            buf@ == old(buf)@ + replace_char(v@, a, b).take(i as int),
        decreases v.len() - i,
    {
        let c = v[i];
        buf.push(
            if c == a {
                b
            } else {
                c
            },
        );
        proof {
            let r = replace_char(v@, a, b);
            assert(r.take(i + 1) =~= r.take(i as int).push(r[i as int]));
        }
        i += 1;
    }
    assert(replace_char(v@, a, b).take(v.len() as int) =~= replace_char(v@, a, b));
}

/// A new string with the characters `v[from..to]`.
pub(crate) fn string_of(v: &Vec<char>, from: usize, to: usize) -> (r: String)
    requires
        from <= to <= v.len(),
    ensures
        r@ == v@.subrange(from as int, to as int),
{
    let mut r = String::new();
    let mut i: usize = from;
    while i < to
        invariant
            from <= i <= to <= v.len(),
            r@ == v@.subrange(from as int, i as int),
        decreases to - i,
    {
        r.push(v[i]);
        assert(v@.subrange(from as int, i + 1) =~= v@.subrange(from as int, i as int).push(
            v@[i as int],
        ));
        i += 1;
    }
    r
}

/// The integer that `s` is the decimal text of, see [`parsed_integer`].
pub(crate) fn parse_integer(s: &str) -> (r: Option<i64>)
    ensures
        r == parsed_integer(s@),
{
    let v = chars_of(s);
    let n = v.len();
    if n == 0 {
        return None;
    }
    let negative = v[0] == '-';
    let start: usize = if v[0] == '-' || v[0] == '+' {
        1
    } else {
        0
    };
    let ghost digits = v@.subrange(start as int, n as int);
    assert(digits =~= if start == 1 {
        s@.drop_first()
    } else {
        s@
    });
    if start == n {
        return None;
    }
    let mut value: i64 = 0;
    let mut i: usize = start;
    assert(digits.take(0) =~= Seq::empty());
    while i < n
        invariant
            start <= i <= n,
            n == v.len(),
            v@ == s@,
            n > 0,
            negative == (v@[0] == '-'),
            start == if v@[0] == '-' || v@[0] == '+' {
                1usize
            } else {
                0usize
            },
            digits == v@.subrange(start as int, n as int),
            digits == if start == 1 {
                s@.drop_first()
            } else {
                s@
            },
            forall|j: int| 0 <= j < i - start ==> is_digit(#[trigger] digits[j]),
            value == if negative {
                -(number(digits.take(i - start)) as int)
            } else {
                number(digits.take(i - start)) as int
            },
        decreases n - i,
    {
        let c = v[i];
        assert(digits[i - start] == c);
        if !('0' <= c && c <= '9') {
            assert(!is_digit(digits[i - start]));
            return None;
        }
        let d: i128 = (c as u32 - '0' as u32) as i128;
        let wide: i128 = if negative {
            (value as i128) * 10 - d
        } else {
            (value as i128) * 10 + d
        };
        proof {
            let longer = digits.take(i - start + 1);
            assert(longer.drop_last() =~= digits.take(i - start));
            assert(longer.last() == c);
            assert(number(longer) == number(digits.take(i - start)) * 10 + d);
            lemma_number_grows(digits, i - start + 1);
        }
        if wide < (i64::MIN as i128) || wide > (i64::MAX as i128) {
            return None;
        }
        value = wide as i64;
        i += 1;
    }
    assert(digits.take(n - start) =~= digits);
    Some(value)
}

/// Appends `i` in decimal to `buf`.
pub(crate) fn push_int(buf: &mut String, i: i64)
    ensures
        final(buf)@ == old(buf)@ + int_text(i as int),
{
    let mut digits: Vec<char> = Vec::new();
    let magnitude: u64 = if i < 0 {
        ((-(i + 1)) as u64) + 1
    } else {
        i as u64
    };
    let mut rest: u64 = magnitude;
    digits.push(((48 as u8) + (rest % 10) as u8) as char);
    rest = rest / 10;
    // `digits`, read backwards, is what follows `decimal(rest)` in `decimal(magnitude)`.
    while rest > 0
        invariant
            digits@.len() >= 1,
            rest > 0 ==> decimal(magnitude as nat) == decimal(rest as nat) + digits@.reverse(),
            rest == 0 ==> decimal(magnitude as nat) == digits@.reverse(),
        decreases rest,
    {
        let d = ((48 as u8) + (rest % 10) as u8) as char;
        proof {
            let before = digits@;
            let after = before.push(d);
            assert(after.reverse() =~= seq![d] + before.reverse());
            if rest >= 10 {
                assert(decimal(rest as nat) == decimal((rest / 10) as nat).push(d));
                assert(decimal((rest / 10) as nat).push(d) + before.reverse() =~= decimal(
                    (rest / 10) as nat,
                ) + after.reverse());
            } else {
                assert(decimal(rest as nat) == seq![d]);
            }
        }
        digits.push(d);
        rest = rest / 10;
    }
    if i < 0 {
        buf.push('-');
    }
    let ghost start = buf@;
    let mut k: usize = digits.len();
    while k > 0
        invariant
            k <= digits.len(),
            buf@ == start + digits@.reverse().take(digits.len() - k),
        decreases k,
    {
        k -= 1;
        buf.push(digits[k]);
        proof {
            let r = digits@.reverse();
            let n = digits.len() - k;
            assert(r.take(n) =~= r.take(n - 1).push(r[n - 1]));
        }
    }
    proof {
        let r = digits@.reverse();
        assert(r.take(digits.len() as int) =~= r);
        if i < 0 {
            assert(old(buf)@.push('-') + r =~= old(buf)@ + (seq!['-'] + r));
        }
    }
}

} // verus!
