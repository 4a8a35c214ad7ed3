//! Character-level helpers over strings.
//!
//! Contracts in this crate speak of a string through its view, the sequence
//! of its characters. The functions here move between strings and character
//! vectors and implement the comparisons and number formats the rest of the
//! crate relies on.

use vstd::prelude::*;

verus! {

/// The lower-case form of an ASCII upper-case letter; any other character
/// is left as it is.
pub open spec fn ascii_lower(c: char) -> char {
    if 'A' <= c && c <= 'Z' {
        ((c as u8) + 32) as char
    } else {
        c
    }
}

/// Two character sequences are equal up to the case of ASCII letters.
pub open spec fn eq_ignore_case(a: Seq<char>, b: Seq<char>) -> bool {
    &&& a.len() == b.len()
    &&& forall|i: int| 0 <= i < a.len() ==> ascii_lower(#[trigger] a[i]) == ascii_lower(b[i])
}

/// `p` is the beginning of `s`.
pub open spec fn is_prefix(p: Seq<char>, s: Seq<char>) -> bool {
    p.len() <= s.len() && s.subrange(0, p.len() as int) == p
}

/// `p` is the end of `s`.
pub open spec fn is_suffix(p: Seq<char>, s: Seq<char>) -> bool {
    p.len() <= s.len() && s.subrange(s.len() - p.len(), s.len() as int) == p
}

/// The character that writes the digit `d`.
pub open spec fn digit_char(d: int) -> char {
    (('0' as u8) + d) as char
}

/// `c` is one of the ten ASCII digits.
pub open spec fn is_digit(c: char) -> bool {
    '0' <= c && c <= '9'
}

/// The decimal numeral of a natural number, without leading zeros.
pub open spec fn decimal_nat(n: nat) -> Seq<char>
    decreases n,
{
    if n < 10 {
        seq![digit_char(n as int)]
    } else {
        decimal_nat(n / 10).push(digit_char((n % 10) as int))
    }
}

/// The decimal numeral of an integer, with a leading minus sign when it is
/// negative.
pub open spec fn decimal(i: int) -> Seq<char> {
    if i < 0 {
        seq!['-'] + decimal_nat((-i) as nat)
    } else {
        decimal_nat(i as nat)
    }
}

/// The number a sequence of digits writes in base ten; the empty sequence
/// writes zero.
pub open spec fn digits_value(s: Seq<char>) -> nat
    decreases s.len(),
{
    if s.len() == 0 {
        0
    } else {
        (digits_value(s.drop_last()) * 10 + (s.last() as u8 - '0' as u8)) as nat
    }
}

/// Every character of `s` is an ASCII digit.
pub open spec fn all_digits(s: Seq<char>) -> bool {
    forall|i: int| 0 <= i < s.len() ==> is_digit(#[trigger] s[i])
}

/// Appends one character to a string; wraps `String::push`, which adds the
/// character at the end and leaves the rest as it was.
#[verifier::external_body]
pub(crate) fn push_char(s: &mut String, c: char)
    ensures
        final(s)@ == old(s)@.push(c),
{
    s.push(c)
}

/// The characters of `s`, in order.
pub fn chars_of(s: &str) -> (v: Vec<char>)
    ensures
        v@ == s@,
{
    let mut v: Vec<char> = Vec::new();
    for c in it: s.chars()
        invariant
            v@ == it.seq().take(it.index() as int),
            it.seq() == s@,
    {
        v.push(c);
    }
    v
}

/// The string made of the characters of `v`, in order.
pub fn string_of(v: &Vec<char>) -> (s: String)
    ensures
        s@ == v@,
{
    let mut s = String::new();
    let mut i: usize = 0;
    while i < v.len()
        invariant
            i <= v.len(),
            s@ == v@.take(i as int),
        decreases v.len() - i,
    {
        push_char(&mut s, v[i]);
        i += 1;
        assert(v@.take(i as int) == v@.take(i as int - 1).push(v@[i as int - 1]));
    }
    assert(v@.take(v.len() as int) == v@);
    s
}

/// `a` followed by `b`.
pub fn joined(a: &str, b: &str) -> (s: String)
    ensures
        s@ == a@ + b@,
{
    let mut s = a.to_string();
    s.append(b);
    s
}

/// Whether two character vectors hold the same characters.
pub fn chars_eq(a: &Vec<char>, b: &Vec<char>) -> (r: bool)
    ensures
        r == (a@ == b@),
{
    if a.len() != b.len() {
        return false;
    }
    let mut i: usize = 0;
    while i < a.len()
        invariant
            i <= a.len(),
            a.len() == b.len(),
            forall|j: int| 0 <= j < i ==> a@[j] == b@[j],
        decreases a.len() - i,
    {
        if a[i] != b[i] {
            return false;
        }
        i += 1;
    }
    assert(a@ =~= b@);
    true
}

/// Whether two strings hold the same characters.
pub fn str_eq(a: &str, b: &str) -> (r: bool)
    ensures
        r == (a@ == b@),
{
    let x = chars_of(a);
    let y = chars_of(b);
    chars_eq(&x, &y)
}

/// The lower-case form of an ASCII upper-case letter.
pub fn to_ascii_lower(c: char) -> (r: char)
    ensures
        r == ascii_lower(c),
{
    if 'A' <= c && c <= 'Z' {
        ((c as u8) + 32) as char
    } else {
        c
    }
}

/// Whether two character vectors are equal up to the case of ASCII letters.
pub fn chars_eq_ignore_case(a: &Vec<char>, b: &Vec<char>) -> (r: bool)
    ensures
        r == eq_ignore_case(a@, b@),
{
    if a.len() != b.len() {
        return false;
    }
    let mut i: usize = 0;
    while i < a.len()
        invariant
            i <= a.len(),
            a.len() == b.len(),
            forall|j: int| 0 <= j < i ==> ascii_lower(#[trigger] a@[j]) == ascii_lower(b@[j]),
        decreases a.len() - i,
    {
        if to_ascii_lower(a[i]) != to_ascii_lower(b[i]) {
            return false;
        }
        i += 1;
    }
    true
}

/// Whether two strings are equal up to the case of ASCII letters.
pub fn eq_ignore_ascii_case(a: &str, b: &str) -> (r: bool)
    ensures
        r == eq_ignore_case(a@, b@),
{
    let x = chars_of(a);
    let y = chars_of(b);
    chars_eq_ignore_case(&x, &y)
}

/// Whether `p` is the beginning of `s`.
pub fn starts_with(s: &Vec<char>, p: &Vec<char>) -> (r: bool)
    ensures
        r == is_prefix(p@, s@),
{
    if p.len() > s.len() {
        return false;
    }
    let mut i: usize = 0;
    while i < p.len()
        invariant
            i <= p.len(),
            p.len() <= s.len(),
            forall|j: int| 0 <= j < i ==> s@[j] == p@[j],
        decreases p.len() - i,
    {
        if s[i] != p[i] {
            assert(s@.subrange(0, p.len() as int)[i as int] == s@[i as int]);
            return false;
        }
        i += 1;
    }
    assert(s@.subrange(0, p.len() as int) =~= p@);
    true
}

/// Whether `p` is the end of `s`.
pub fn ends_with(s: &Vec<char>, p: &Vec<char>) -> (r: bool)
    ensures
        r == is_suffix(p@, s@),
{
    if p.len() > s.len() {
        return false;
    }
    let off: usize = s.len() - p.len();
    let mut i: usize = 0;
    while i < p.len()
        invariant
            i <= p.len(),
            p.len() <= s.len(),
            off == s.len() - p.len(),
            forall|j: int| 0 <= j < i ==> s@[off + j] == p@[j],
        decreases p.len() - i,
    {
        if s[off + i] != p[i] {
            assert(s@.subrange(off as int, s.len() as int)[i as int] == s@[off + i]);
            return false;
        }
        i += 1;
    }
    assert(s@.subrange(off as int, s.len() as int) =~= p@);
    true
}

/// The characters of `s` from position `from` up to, not including, `to`.
pub fn slice_chars(s: &Vec<char>, from: usize, to: usize) -> (r: Vec<char>)
    requires
        from <= to <= s.len(),
    ensures
        r@ == s@.subrange(from as int, to as int),
{
    let mut r: Vec<char> = Vec::new();
    let mut i: usize = from;
    while i < to
        invariant
            from <= i <= to,
            to <= s.len(),
            r@ == s@.subrange(from as int, i as int),
        decreases to - i,
    {
        r.push(s[i]);
        i += 1;
        assert(s@.subrange(from as int, i as int) == s@.subrange(from as int, i as int - 1).push(
            s@[i as int - 1],
        ));
    }
    r
}

/// The decimal numeral of `n`.
pub fn decimal_digits(n: u64) -> (v: Vec<char>)
    ensures
        v@ == decimal_nat(n as nat),
{
    let mut rest: u64 = n;
    let mut v: Vec<char> = Vec::new();
    while rest >= 10
        invariant
            decimal_nat(n as nat) == decimal_nat(rest as nat) + v@,
        decreases rest,
    {
        let d: u8 = (rest % 10) as u8;
        let c = (('0' as u8) + d) as char;
        proof {
            assert(decimal_nat(rest as nat) == decimal_nat((rest / 10) as nat).push(c));
            assert(decimal_nat((rest / 10) as nat).push(c) + v@ == decimal_nat(
                (rest / 10) as nat,
            ) + v@.insert(0, c));
        }
        v.insert(0, c);
        rest = rest / 10;
    }
    let c = (('0' as u8) + (rest as u8)) as char;
    proof {
        assert(decimal_nat(rest as nat) + v@ == v@.insert(0, c));
    }
    v.insert(0, c);
    v
}

/// The decimal numeral of `i`, as `i32`'s own formatting writes it.
pub fn decimal_string(i: i32) -> (s: String)
    ensures
        s@ == decimal(i as int),
{
    if i < 0 {
        let mut v = decimal_digits((-(i as i64)) as u64);
        proof {
            assert(seq!['-'] + v@ == v@.insert(0, '-'));
        }
        v.insert(0, '-');
        string_of(&v)
    } else {
        let v = decimal_digits(i as u64);
        string_of(&v)
    }
}

/// The decimal numeral of `i`, as `i64`'s own formatting writes it.
pub fn decimal_i64(i: i64) -> (s: String)
    ensures
        s@ == decimal(i as int),
{
    if i < 0 {
        let mut v = decimal_digits((-(i as i128)) as u64);
        proof {
            assert(seq!['-'] + v@ == v@.insert(0, '-'));
        }
        v.insert(0, '-');
        string_of(&v)
    } else {
        let v = decimal_digits(i as u64);
        string_of(&v)
    }
}

/// The decimal numeral of `n`, as `usize`'s own formatting writes it.
pub fn decimal_usize(n: usize) -> (s: String)
    ensures
        s@ == decimal(n as int),
{
    let v = decimal_digits(n as u64);
    string_of(&v)
}

/// `c` is white space, as Unicode defines it.
pub open spec fn is_whitespace(c: char) -> bool {
    ||| ('\u{9}' <= c && c <= '\u{d}')
    ||| c == ' '
    ||| c == '\u{85}'
    ||| c == '\u{a0}'
    ||| c == '\u{1680}'
    ||| ('\u{2000}' <= c && c <= '\u{200a}')
    ||| c == '\u{2028}'
    ||| c == '\u{2029}'
    ||| c == '\u{202f}'
    ||| c == '\u{205f}'
    ||| c == '\u{3000}'
}

/// The characters that `trim` takes off: white space, or the double quote
/// where `quotes` is set.
pub open spec fn is_trimmed(c: char, quotes: bool) -> bool {
    if quotes {
        c == '"'
    } else {
        is_whitespace(c)
    }
}

/// `s` without the trimmed characters at its beginning.
pub open spec fn trim_start(s: Seq<char>, quotes: bool) -> Seq<char>
    decreases s.len(),
{
    if s.len() > 0 && is_trimmed(s[0], quotes) {
        trim_start(s.drop_first(), quotes)
    } else {
        s
    }
}

/// `s` without the trimmed characters at its end.
pub open spec fn trim_end(s: Seq<char>, quotes: bool) -> Seq<char>
    decreases s.len(),
{
    if s.len() > 0 && is_trimmed(s.last(), quotes) {
        trim_end(s.drop_last(), quotes)
    } else {
        s
    }
}

/// `s` without the trimmed characters at its beginning and at its end.
pub open spec fn trim(s: Seq<char>, quotes: bool) -> Seq<char> {
    trim_end(trim_start(s, quotes), quotes)
}

/// Where the trimmed characters at the beginning of `s` stop.
pub proof fn lemma_trim_start(s: Seq<char>, quotes: bool, i: int)
    requires
        0 <= i <= s.len(),
        forall|j: int| 0 <= j < i ==> is_trimmed(#[trigger] s[j], quotes),
        i == s.len() || !is_trimmed(s[i], quotes),
    ensures
        trim_start(s, quotes) == s.subrange(i, s.len() as int),
    decreases i,
{
    if i == 0 {
        assert(s.subrange(0, s.len() as int) =~= s);
    } else {
        assert(is_trimmed(s[0], quotes));
        let t = s.drop_first();
        assert forall|j: int| 0 <= j < i - 1 implies is_trimmed(#[trigger] t[j], quotes) by {
            assert(t[j] == s[j + 1]);
        }
        lemma_trim_start(t, quotes, i - 1);
        assert(t.subrange(i - 1, t.len() as int) =~= s.subrange(i, s.len() as int));
    }
}

/// Where the trimmed characters at the end of `s` begin.
pub proof fn lemma_trim_end(s: Seq<char>, quotes: bool, i: int)
    requires
        0 <= i <= s.len(),
        forall|j: int| i <= j < s.len() ==> is_trimmed(#[trigger] s[j], quotes),
        i == 0 || !is_trimmed(s[i - 1], quotes),
    ensures
        trim_end(s, quotes) == s.subrange(0, i),
    decreases s.len() - i,
{
    if i == s.len() {
        assert(s.subrange(0, s.len() as int) =~= s);
    } else {
        assert(is_trimmed(s[s.len() - 1], quotes));
        let t = s.drop_last();
        assert forall|j: int| i <= j < t.len() implies is_trimmed(#[trigger] t[j], quotes) by {
            assert(t[j] == s[j]);
        }
        lemma_trim_end(t, quotes, i);
        assert(t.subrange(0, i) =~= s.subrange(0, i));
    }
}

/// Whether `c` is white space.
pub fn is_whitespace_char(c: char) -> (r: bool)
    ensures
        r == is_whitespace(c),
{
    ('\u{9}' <= c && c <= '\u{d}') || c == ' ' || c == '\u{85}' || c == '\u{a0}' || c == '\u{1680}'
        || ('\u{2000}' <= c && c <= '\u{200a}') || c == '\u{2028}' || c == '\u{2029}' || c
        == '\u{202f}' || c == '\u{205f}' || c == '\u{3000}'
}

/// Whether `trim` takes `c` off.
pub fn is_trimmed_char(c: char, quotes: bool) -> (r: bool)
    ensures
        r == is_trimmed(c, quotes),
{
    if quotes {
        c == '"'
    } else {
        is_whitespace_char(c)
    }
}

/// `s` without the white space at its beginning and at its end; or, where
/// `quotes` is set, without the double quotes there.
pub fn trim_chars(s: &Vec<char>, quotes: bool) -> (r: Vec<char>)
    ensures
        r@ == trim(s@, quotes),
{
    let mut from: usize = 0;
    while from < s.len() && is_trimmed_char(s[from], quotes)
        invariant
            from <= s.len(),
            forall|j: int| 0 <= j < from ==> is_trimmed(#[trigger] s@[j], quotes),
        decreases s.len() - from,
    {
        from += 1;
    }
    proof {
        lemma_trim_start(s@, quotes, from as int);
    }
    let ghost rest = s@.subrange(from as int, s.len() as int);
    let mut to: usize = s.len();
    while to > from && is_trimmed_char(s[to - 1], quotes)
        invariant
            from <= to <= s.len(),
            forall|j: int| to <= j < s.len() ==> is_trimmed(#[trigger] s@[j], quotes),
        decreases to,
    {
        to -= 1;
    }
    proof {
        assert forall|j: int| to - from <= j < rest.len() implies is_trimmed(
            #[trigger] rest[j],
            quotes,
        ) by {
            assert(rest[j] == s@[j + from]);
        }
        if to > from {
            assert(rest[to - from - 1] == s@[to - 1]);
        }
        lemma_trim_end(rest, quotes, to - from);
        assert(rest.subrange(0, to - from) =~= s@.subrange(from as int, to as int));
    }
    slice_chars(s, from, to)
}

/// The position of the first `sep` in `s` at or after `from`, or the length
/// of `s` where there is none.
pub open spec fn find_from(s: Seq<char>, from: int, sep: char) -> int
    decreases s.len() - from,
{
    if from >= s.len() {
        s.len() as int
    } else if s[from] == sep {
        from
    } else {
        find_from(s, from + 1, sep)
    }
}

/// Where the first `sep` at or after `from` stands.
pub proof fn lemma_find_from(s: Seq<char>, from: int, sep: char, end: int)
    requires
        0 <= from <= end <= s.len(),
        forall|j: int| from <= j < end ==> #[trigger] s[j] != sep,
        end == s.len() || s[end] == sep,
    ensures
        find_from(s, from, sep) == end,
    decreases end - from,
{
    if from < end {
        lemma_find_from(s, from + 1, sep, end);
    }
}

/// The first `sep` at or after `from` stands at or after `from`, within `s`.
pub proof fn lemma_find_from_bounds(s: Seq<char>, from: int, sep: char)
    requires
        0 <= from <= s.len(),
    ensures
        from <= find_from(s, from, sep) <= s.len(),
    decreases s.len() - from,
{
    if from < s.len() && s[from] != sep {
        lemma_find_from_bounds(s, from + 1, sep);
    }
}

/// The pieces of `s` from position `from` on that `sep` separates: at least
/// one, and one more for every `sep`.
pub open spec fn split_from(s: Seq<char>, from: int, sep: char) -> Seq<Seq<char>>
    decreases s.len() - from,
{
    if from < 0 || from > s.len() {
        Seq::empty()
    } else {
        let end = find_from(s, from, sep);
        if end < s.len() {
            proof {
                lemma_find_from_bounds(s, from, sep);
            }
            seq![s.subrange(from, end)] + split_from(s, end + 1, sep)
        } else {
            seq![s.subrange(from, end)]
        }
    }
}

/// The pieces of `s` that `sep` separates.
pub open spec fn split(s: Seq<char>, sep: char) -> Seq<Seq<char>> {
    split_from(s, 0, sep)
}

/// The pieces of `s` that `sep` separates.
pub fn split_chars(s: &Vec<char>, sep: char) -> (pieces: Vec<Vec<char>>)
    ensures
        pieces@.len() > 0,
        pieces@.map_values(|p: Vec<char>| p@) == split(s@, sep),
{
    let mut pieces: Vec<Vec<char>> = Vec::new();
    let mut from: usize = 0;
    loop
        invariant
            from <= s.len(),
            pieces@.map_values(|p: Vec<char>| p@) + split_from(s@, from as int, sep) == split(
                s@,
                sep,
            ),
        decreases s.len() - from,
    {
        let mut end: usize = from;
        while end < s.len() && s[end] != sep
            invariant
                from <= end <= s.len(),
                forall|j: int| from <= j < end ==> #[trigger] s@[j] != sep,
            decreases s.len() - end,
        {
            end += 1;
        }
        proof {
            lemma_find_from(s@, from as int, sep, end as int);
        }
        let ghost before = pieces@.map_values(|p: Vec<char>| p@);
        let piece = slice_chars(s, from, end);
        pieces.push(piece);
        assert(pieces@.map_values(|p: Vec<char>| p@) =~= before.push(piece@));
        if end < s.len() {
            assert(before.push(piece@) + split_from(s@, end as int + 1, sep) =~= before + (
            seq![piece@] + split_from(s@, end as int + 1, sep)));
            from = end + 1;
        } else {
            assert(before.push(piece@) =~= before + seq![piece@]);
            return pieces;
        }
    }
}

/// `s` with every `{}` replaced by `with`, from left to right.
pub open spec fn fill_braces(s: Seq<char>, with: Seq<char>) -> Seq<char>
    decreases s.len(),
{
    if s.len() == 0 {
        s
    } else if s.len() >= 2 && s[0] == '{' && s[1] == '}' {
        with + fill_braces(s.subrange(2, s.len() as int), with)
    } else {
        seq![s[0]] + fill_braces(s.drop_first(), with)
    }
}

/// `s` with every `{}` replaced by `with`.
pub fn fill_braces_chars(s: &Vec<char>, with: &Vec<char>) -> (r: Vec<char>)
    ensures
        r@ == fill_braces(s@, with@),
{
    let mut r: Vec<char> = Vec::new();
    let mut i: usize = 0;
    assert(s@.subrange(0, s.len() as int) =~= s@);
    while i < s.len()
        invariant
            i <= s.len(),
            r@ + fill_braces(s@.subrange(i as int, s.len() as int), with@) == fill_braces(s@, with@),
        decreases s.len() - i,
    {
        let ghost rest = s@.subrange(i as int, s.len() as int);
        let ghost done = r@;
        if s[i] == '{' && i + 1 < s.len() && s[i + 1] == '}' {
            assert(rest[0] == '{' && rest[1] == '}');
            assert(rest.subrange(2, rest.len() as int) =~= s@.subrange(i as int + 2, s.len() as int));
            let mut k: usize = 0;
            while k < with.len()
                invariant
                    k <= with.len(),
                    r@ == done + with@.take(k as int),
                decreases with.len() - k,
            {
                r.push(with[k]);
                k += 1;
                assert(done + with@.take(k as int) =~= (done + with@.take(k as int - 1)).push(
                    with@[k as int - 1],
                ));
            }
            assert(with@.take(with.len() as int) =~= with@);
            assert((done + with@) + fill_braces(rest.subrange(2, rest.len() as int), with@) =~= done
                + (with@ + fill_braces(rest.subrange(2, rest.len() as int), with@)));
            i += 2;
        } else {
            assert(rest[0] == s@[i as int]);
            proof {
                if rest.len() >= 2 {
                    assert(rest[1] == s@[i as int + 1]);
                }
            }
            assert(rest.drop_first() =~= s@.subrange(i as int + 1, s.len() as int));
            r.push(s[i]);
            assert(done.push(rest[0]) + fill_braces(rest.drop_first(), with@) =~= done + (seq![
                rest[0],
            ] + fill_braces(rest.drop_first(), with@)));
            i += 1;
        }
    }
    assert(s@.subrange(s.len() as int, s.len() as int) =~= Seq::<char>::empty());
    assert(r@ + Seq::<char>::empty() =~= r@);
    r
}

/// A longer beginning of a digit sequence does not write a smaller number.
pub proof fn lemma_digits_value_grows(s: Seq<char>, i: int)
    requires
        all_digits(s),
        0 <= i <= s.len(),
    ensures
        digits_value(s.take(i)) <= digits_value(s),
    decreases s.len() - i,
{
    if i < s.len() {
        lemma_digits_value_grows(s, i + 1);
        assert(s.take(i + 1).drop_last() =~= s.take(i));
        assert(is_digit(s[i]));
        assert(s.take(i + 1).last() == s[i]);
    } else {
        assert(s.take(i) =~= s);
    }
}

/// The number that the digits `s` write, where all of `s` are digits, there
/// is at least one, and the number is no more than `i32::MAX`.
pub fn parse_digits(s: &Vec<char>) -> (r: Option<i32>)
    ensures
        match r {
            Some(n) => all_digits(s@) && s@.len() > 0 && n == digits_value(s@),
            None => !all_digits(s@) || s@.len() == 0 || digits_value(s@) > i32::MAX,
        },
{
    if s.len() == 0 {
        return None;
    }
    let mut value: u64 = 0;
    let mut i: usize = 0;
    assert(s@.take(0) =~= Seq::<char>::empty());
    while i < s.len()
        invariant
            i <= s.len(),
            forall|j: int| 0 <= j < i ==> is_digit(#[trigger] s@[j]),
            value == digits_value(s@.take(i as int)),
            value <= i32::MAX,
        decreases s.len() - i,
    {
        let c = s[i];
        if !('0' <= c && c <= '9') {
            return None;
        }
        let d: u64 = ((c as u8) - ('0' as u8)) as u64;
        assert(s@.take(i as int + 1).drop_last() =~= s@.take(i as int));
        assert(s@.take(i as int + 1).last() == c);
        let next = value * 10 + d;
        if next > 0x7fff_ffff {
            proof {
                if all_digits(s@) {
                    lemma_digits_value_grows(s@, i as int + 1);
                }
            }
            return None;
        }
        value = next;
        i += 1;
    }
    assert(s@.take(i as int) =~= s@);
    Some(value as i32)
}

/// `s` filled up with spaces at its end to `width` characters; `s` itself
/// where it is as long or longer.
pub open spec fn padded(s: Seq<char>, width: nat) -> Seq<char> {
    if s.len() >= width {
        s
    } else {
        s + Seq::new((width - s.len()) as nat, |i: int| ' ')
    }
}

/// `s` filled up with spaces at its end to `width` characters.
pub fn pad_right(s: &str, width: usize) -> (r: String)
    ensures
        r@ == padded(s@, width as nat),
{
    let mut v = chars_of(s);
    let ghost start = v@;
    if v.len() >= width {
        return s.to_string();
    }
    assert(v@ =~= start + Seq::new(0, |i: int| ' '));
    while v.len() < width
        invariant
            start.len() <= v@.len() <= width,
            v@ == start + Seq::new((v@.len() - start.len()) as nat, |i: int| ' '),
        decreases width - v.len(),
    {
        let ghost before = v@;
        v.push(' ');
        assert(v@ =~= start + Seq::new((before.len() + 1 - start.len()) as nat, |i: int| ' '));
    }
    string_of(&v)
}

} // verus!
