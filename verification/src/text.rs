//! Character-level text handling: whitespace, trimming, splitting,
//! searching and decimal numbers, all over sequences of `char`.
use vstd::prelude::*;
use vstd::utf8::{decode_utf8, valid_utf8};

verus! {

// ---------------------------------------------------------------------------
// Specifications
// ---------------------------------------------------------------------------

/// The Unicode `White_Space` property, which `char::is_whitespace` and
/// `str::trim` use.
pub open spec fn is_white_space(c: char) -> bool {
    ||| ('\t' <= c && c <= '\r')
    ||| c == ' '
    ||| c == '\u{85}'
    ||| c == '\u{a0}'
    ||| c == '\u{1680}'
    ||| ('\u{2000}' <= c && c <= '\u{200a}')
    ||| c == '\u{2028}'
    ||| c == '\u{2029}'
    ||| c == '\u{202f}'
    ||| c == '\u{205f}'
    ||| c == '\u{3000}'
}

/// An ASCII letter or an ASCII digit.
pub open spec fn is_ascii_alphanumeric(c: char) -> bool {
    ||| ('a' <= c && c <= 'z')
    ||| ('A' <= c && c <= 'Z')
    ||| ('0' <= c && c <= '9')
}

pub open spec fn is_ascii_digit(c: char) -> bool {
    '0' <= c && c <= '9'
}

/// `s` without its leading whitespace.
pub open spec fn trim_start(s: Seq<char>) -> Seq<char>
    decreases s.len(),
{
    if s.len() > 0 && is_white_space(s[0]) {
        trim_start(s.drop_first())
    } else {
        s
    }
}

/// `s` without its trailing whitespace.
pub open spec fn trim_end(s: Seq<char>) -> Seq<char>
    decreases s.len(),
{
    if s.len() > 0 && is_white_space(s.last()) {
        trim_end(s.drop_last())
    } else {
        s
    }
}

/// `s` without leading and trailing whitespace (what `str::trim` gives).
pub open spec fn trim(s: Seq<char>) -> Seq<char> {
    trim_end(trim_start(s))
}

/// The pieces of `s` between the occurrences of `sep`, in order
/// (what `str::split` with a character gives).
pub open spec fn split_on(s: Seq<char>, sep: char) -> Seq<Seq<char>>
    decreases s.len(),
{
    match s.index_of_first(sep) {
        Some(i) => {
            if 0 <= i < s.len() {
                seq![s.take(i)] + split_on(s.skip(i + 1), sep)
            } else {
                seq![s]
            }
        },
        None => seq![s],
    }
}

/// What `splitn(2, sep)` gives: the text before the first `sep`, and the
/// text after it when there is one.
pub open spec fn split_once(s: Seq<char>, sep: char) -> (Seq<char>, Option<Seq<char>>) {
    match s.index_of_first(sep) {
        Some(i) => (s.take(i), Some(s.skip(i + 1))),
        None => (s, None),
    }
}

/// `needle` occurs in `hay` as a contiguous piece.
pub open spec fn contains_seq(hay: Seq<char>, needle: Seq<char>) -> bool {
    exists|i: int|
        0 <= i && i + needle.len() <= hay.len() && #[trigger] hay.subrange(i, i + needle.len())
            == needle
}

/// The ASCII digit for `d`, which is below ten.
pub open spec fn digit_char(d: nat) -> char {
    if d == 0 {
        '0'
    } else if d == 1 {
        '1'
    } else if d == 2 {
        '2'
    } else if d == 3 {
        '3'
    } else if d == 4 {
        '4'
    } else if d == 5 {
        '5'
    } else if d == 6 {
        '6'
    } else if d == 7 {
        '7'
    } else if d == 8 {
        '8'
    } else {
        '9'
    }
}

/// The decimal representation of `n`, without sign or leading zeros.
pub open spec fn decimal(n: nat) -> Seq<char>
    decreases n,
{
    if n < 10 {
        seq![digit_char(n)]
    } else {
        decimal(n / 10).push(digit_char(n % 10))
    }
}

/// The value of an ASCII digit.
pub open spec fn digit_value(c: char) -> nat {
    (c as u32 - '0' as u32) as nat
}

/// The value of a string of ASCII digits, read in base ten.
pub open spec fn digits_value(s: Seq<char>) -> nat
    decreases s.len(),
{
    if s.len() == 0 {
        0
    } else {
        digits_value(s.drop_last()) * 10 + digit_value(s.last())
    }
}

pub open spec fn all_digits(s: Seq<char>) -> bool {
    forall|i: int| 0 <= i < s.len() ==> is_ascii_digit(#[trigger] s[i])
}

/// What `str::parse::<u16>` accepts and gives: an optional `+` followed by
/// at least one ASCII digit, with a value that fits in 16 bits.
pub open spec fn parse_u16(s: Seq<char>) -> Option<u16> {
    let digits = if s.len() > 1 && s[0] == '+' {
        s.drop_first()
    } else {
        s
    };
    parse_digits(digits)
}

/// A non-empty string of ASCII digits whose value fits in 16 bits.
pub open spec fn parse_digits(digits: Seq<char>) -> Option<u16> {
    if digits.len() > 0 && all_digits(digits) && digits_value(digits) <= 0xffff {
        Some(digits_value(digits) as u16)
    } else {
        None
    }
}

/// What `String::from_utf8_lossy` makes of `bytes`: their UTF-8 reading,
/// with U+FFFD in place of each invalid sequence.
pub uninterp spec fn utf8_lossy(bytes: Seq<u8>) -> Seq<char>;

// ---------------------------------------------------------------------------
// Executable helpers
// ---------------------------------------------------------------------------

/// Appends `c` to `s` (`String::push`).
#[verifier::external_body]
fn push_char(s: &mut String, c: char)
    ensures
        final(s)@ == old(s)@.push(c),
{
    s.push(c);
}

/// `String::from_utf8_lossy`: the text of `bytes`, which is their UTF-8
/// reading when they are valid UTF-8. How invalid sequences are replaced is
/// left to the name `utf8_lossy`.
#[verifier::external_body]
pub fn text_from_utf8_lossy(bytes: &[u8]) -> (res: String)
    ensures
        res@ == utf8_lossy(bytes@),
        valid_utf8(bytes@) ==> res@ == decode_utf8(bytes@),
{
    String::from_utf8_lossy(bytes).into_owned()
}

/// The characters of `s`, in order.
pub fn chars_of(s: &str) -> (res: Vec<char>)
    ensures
        res@ == s@,
{
    let mut res: Vec<char> = Vec::new();
    for c in it: s.chars()
        invariant
            res@ == it.seq().take(it.index() as int),
            it.seq() == s@,
    {
        res.push(c);
    }
    res
}

/// The text made of `v[start..end]`.
pub fn string_from_range(v: &Vec<char>, start: usize, end: usize) -> (res: String)
    requires
        start <= end <= v.len(),
    ensures
        res@ == v@.subrange(start as int, end as int),
{
    let mut res = String::new();
    let mut i = start;
    while i < end
        invariant
            start <= i <= end <= v.len(),
            res@ == v@.subrange(start as int, i as int),
        decreases end - i,
    {
        push_char(&mut res, v[i]);
        i += 1;
        assert(res@ =~= v@.subrange(start as int, i as int));
    }
    res
}

pub fn is_white_space_char(c: char) -> (res: bool)
    ensures
        res == is_white_space(c),
{
    ('\t' <= c && c <= '\r') || c == ' ' || c == '\u{85}' || c == '\u{a0}' || c == '\u{1680}' || (
    '\u{2000}' <= c && c <= '\u{200a}') || c == '\u{2028}' || c == '\u{2029}' || c == '\u{202f}'
        || c == '\u{205f}' || c == '\u{3000}'
}

pub fn is_ascii_alphanumeric_char(c: char) -> (res: bool)
    ensures
        res == is_ascii_alphanumeric(c),
{
    ('a' <= c && c <= 'z') || ('A' <= c && c <= 'Z') || ('0' <= c && c <= '9')
}

proof fn lemma_trim_start_step(s: Seq<char>)
    requires
        s.len() > 0,
        is_white_space(s[0]),
    ensures
        trim_start(s) == trim_start(s.subrange(1, s.len() as int)),
{
    assert(s.drop_first() =~= s.subrange(1, s.len() as int));
}

proof fn lemma_trim_end_step(s: Seq<char>)
    requires
        s.len() > 0,
        is_white_space(s.last()),
    ensures
        trim_end(s) == trim_end(s.subrange(0, s.len() - 1)),
{
}

/// The bounds of `trim(v[start..end])` inside `v`.
pub fn trim_bounds(v: &Vec<char>, start: usize, end: usize) -> (res: (usize, usize))
    requires
        start <= end <= v.len(),
    ensures
        start <= res.0 <= res.1 <= end,
        v@.subrange(res.0 as int, res.1 as int) == trim(v@.subrange(start as int, end as int)),
{
    let ghost s = v@.subrange(start as int, end as int);
    let mut i = start;
    while i < end && is_white_space_char(v[i])
        invariant
            start <= i <= end <= v.len(),
            s == v@.subrange(start as int, end as int),
            trim_start(s) == trim_start(v@.subrange(i as int, end as int)),
        decreases end - i,
    {
        proof {
            let t = v@.subrange(i as int, end as int);
            lemma_trim_start_step(t);
            assert(t.subrange(1, t.len() as int) =~= v@.subrange(i + 1, end as int));
        }
        i += 1;
    }
    assert(trim_start(s) == v@.subrange(i as int, end as int));
    let mut j = end;
    while j > i && is_white_space_char(v[j - 1])
        invariant
            start <= i <= j <= end <= v.len(),
            trim_end(trim_start(s)) == trim_end(v@.subrange(i as int, j as int)),
        decreases j - i,
    {
        proof {
            let t = v@.subrange(i as int, j as int);
            lemma_trim_end_step(t);
            assert(t.subrange(0, t.len() - 1) =~= v@.subrange(i as int, j - 1));
        }
        j -= 1;
    }
    (i, j)
}

/// The trimmed text of `s`, as a `String`.
pub fn trim_string(s: &str) -> (res: String)
    ensures
        res@ == trim(s@),
{
    let v = chars_of(s);
    let (a, b) = trim_bounds(&v, 0, v.len());
    assert(v@.subrange(0, v@.len() as int) =~= v@);
    string_from_range(&v, a, b)
}

/// The first position of `c` in `v[start..end]`, relative to `start`.
pub fn first_index_in(v: &Vec<char>, start: usize, end: usize, c: char) -> (res: Option<usize>)
    requires
        start <= end <= v.len(),
    ensures
        match res {
            Some(k) => v@.subrange(start as int, end as int).index_of_first(c) == Some(k as int),
            None => v@.subrange(start as int, end as int).index_of_first(c) is None,
        },
        res matches Some(k) ==> k < end - start && v@[start + k] == c,
{
    let ghost s = v@.subrange(start as int, end as int);
    proof {
        s.index_of_first_ensures(c);
    }
    let mut i = start;
    while i < end
        invariant
            start <= i <= end <= v.len(),
            s == v@.subrange(start as int, end as int),
            forall|k: int| 0 <= k < i - start ==> s[k] != c,
        decreases end - i,
    {
        if v[i] == c {
            proof {
                s.index_of_first_ensures(c);
                assert(s[i - start] == c);
                if s.index_of_first(c) != Some(i - start) {
                    let j = s.index_of_first(c).unwrap();
                    assert(s[j] == c);
                }
            }
            return Some(i - start);
        }
        i += 1;
    }
    proof {
        if s.index_of_first(c) is Some {
            let j = s.index_of_first(c).unwrap();
            assert(s[j] == c);
        }
    }
    None
}

/// The last position of `c` in `v[start..end]`, relative to `start`.
pub fn last_index_in(v: &Vec<char>, start: usize, end: usize, c: char) -> (res: Option<usize>)
    requires
        start <= end <= v.len(),
    ensures
        match res {
            Some(k) => v@.subrange(start as int, end as int).index_of_last(c) == Some(k as int),
            None => v@.subrange(start as int, end as int).index_of_last(c) is None,
        },
        res matches Some(k) ==> k < end - start && v@[start + k] == c,
{
    let ghost s = v@.subrange(start as int, end as int);
    proof {
        s.index_of_last_ensures(c);
    }
    let mut i = end;
    while i > start
        invariant
            start <= i <= end <= v.len(),
            s == v@.subrange(start as int, end as int),
            forall|k: int| i - start <= k < s.len() ==> s[k] != c,
        decreases i - start,
    {
        if v[i - 1] == c {
            proof {
                s.index_of_last_ensures(c);
                assert(s[i - 1 - start] == c);
                if s.index_of_last(c) != Some(i - 1 - start) {
                    let j = s.index_of_last(c).unwrap();
                    assert(s[j] == c);
                }
            }
            return Some(i - 1 - start);
        }
        i -= 1;
    }
    proof {
        if s.index_of_last(c) is Some {
            let j = s.index_of_last(c).unwrap();
            assert(s[j] == c);
        }
    }
    None
}

/// `split_once` on `v[start..end]`: where the first `c` is (or `end`), and
/// the text after it.
pub fn split_once_range(v: &Vec<char>, start: usize, end: usize, c: char) -> (res: (
    usize,
    Option<String>,
))
    requires
        start <= end <= v.len(),
    ensures
        start <= res.0 <= end,
        split_once(v@.subrange(start as int, end as int), c) == (
            v@.subrange(start as int, res.0 as int),
            res.1.deep_view(),
        ),
{
    let ghost s = v@.subrange(start as int, end as int);
    match first_index_in(v, start, end, c) {
        Some(k) => {
            let after = string_from_range(v, start + k + 1, end);
            assert(s.take(k as int) =~= v@.subrange(start as int, start + k));
            assert(s.skip(k + 1) =~= after@);
            (start + k, Some(after))
        },
        None => {
            assert(s =~= v@.subrange(start as int, end as int));
            (end, None)
        },
    }
}

/// Whether `v[start..end]` begins with the characters of `prefix`.
pub fn range_starts_with(v: &Vec<char>, start: usize, end: usize, prefix: &Vec<char>) -> (res:
    bool)
    requires
        start <= end <= v.len(),
    ensures
        res == prefix@.is_prefix_of(v@.subrange(start as int, end as int)),
{
    if prefix.len() > end - start {
        return false;
    }
    let mut i: usize = 0;
    while i < prefix.len()
        invariant
            i <= prefix.len() <= end - start,
            start <= end <= v.len(),
            forall|k: int| 0 <= k < i ==> prefix@[k] == v@[start + k],
        decreases prefix.len() - i,
    {
        if prefix[i] != v[start + i] {
            proof {
                let s = v@.subrange(start as int, end as int);
                assert(s.subrange(0, prefix@.len() as int)[i as int] == v@[start + i]);
            }
            return false;
        }
        i += 1;
    }
    assert(prefix@ =~= v@.subrange(start as int, end as int).subrange(0, prefix@.len() as int));
    true
}

/// Whether `s` begins with `prefix` (`str::starts_with`).
pub fn text_starts_with(s: &str, prefix: &str) -> (res: bool)
    ensures
        res == prefix@.is_prefix_of(s@),
{
    let v = chars_of(s);
    let p = chars_of(prefix);
    assert(v@.subrange(0, v@.len() as int) =~= v@);
    range_starts_with(&v, 0, v.len(), &p)
}

/// Whether `needle` occurs in `hay` as a contiguous piece.
pub fn contains_chars(hay: &Vec<char>, needle: &Vec<char>) -> (res: bool)
    ensures
        res == contains_seq(hay@, needle@),
{
    if needle.len() > hay.len() {
        return false;
    }
    let last = hay.len() - needle.len();
    let mut i: usize = 0;
    while i <= last
        invariant
            last == hay.len() - needle.len(),
            needle.len() <= hay.len(),
            forall|k: int|
                0 <= k < i ==> #[trigger] hay@.subrange(k, k + needle@.len()) != needle@,
        decreases last + 1 - i,
    {
        if range_starts_with(hay, i, hay.len(), needle) {
            assert(hay@.subrange(i as int, hay@.len() as int).subrange(0, needle@.len() as int)
                =~= hay@.subrange(i as int, i + needle@.len()));
            return true;
        }
        assert(hay@.subrange(i as int, hay@.len() as int).subrange(0, needle@.len() as int)
            =~= hay@.subrange(i as int, i + needle@.len()));
        if i == last {
            proof {
                lemma_no_match_up_to(hay@, needle@, i as int);
            }
            return false;
        }
        i += 1;
    }
    proof {
        lemma_no_match_up_to(hay@, needle@, last as int);
    }
    false
}

proof fn lemma_no_match_up_to(hay: Seq<char>, needle: Seq<char>, last: int)
    requires
        last == hay.len() - needle.len(),
        forall|k: int| 0 <= k <= last ==> #[trigger] hay.subrange(k, k + needle.len()) != needle,
    ensures
        !contains_seq(hay, needle),
{
}


/// The ASCII digit for `d`.
pub fn digit_to_char(d: u32) -> (res: char)
    requires
        d < 10,
    ensures
        res == digit_char(d as nat),
{
    if d == 0 {
        '0'
    } else if d == 1 {
        '1'
    } else if d == 2 {
        '2'
    } else if d == 3 {
        '3'
    } else if d == 4 {
        '4'
    } else if d == 5 {
        '5'
    } else if d == 6 {
        '6'
    } else if d == 7 {
        '7'
    } else if d == 8 {
        '8'
    } else {
        '9'
    }
}

/// The decimal representation of `n`.
pub fn decimal_chars(n: u32) -> (res: Vec<char>)
    ensures
        res@ == decimal(n as nat),
    decreases n,
{
    if n < 10 {
        let mut v: Vec<char> = Vec::new();
        v.push(digit_to_char(n));
        assert(v@ =~= seq![digit_char(n as nat)]);
        v
    } else {
        let mut v = decimal_chars(n / 10);
        v.push(digit_to_char(n % 10));
        v
    }
}

/// `str::parse::<u16>` on `v[start..end]`.
pub fn parse_u16_range(v: &Vec<char>, start: usize, end: usize) -> (res: Option<u16>)
    requires
        start <= end <= v.len(),
    ensures
        res == parse_u16(v@.subrange(start as int, end as int)),
{
    let ghost s = v@.subrange(start as int, end as int);
    let mut from = start;
    if end - start > 1 && v[start] == '+' {
        from = start + 1;
        assert(s.drop_first() =~= v@.subrange(from as int, end as int));
    } else {
        assert(s =~= v@.subrange(from as int, end as int));
    }
    if from == end {
        return None;
    }
    let mut acc: u32 = 0;
    let mut i = from;
    while i < end
        invariant
            start <= from <= i <= end <= v.len(),
            from < end,
            parse_u16(v@.subrange(start as int, end as int)) == parse_digits(
                v@.subrange(from as int, end as int),
            ),
            all_digits(v@.subrange(from as int, i as int)),
            acc as int == if digits_value(v@.subrange(from as int, i as int)) < 65536 {
                digits_value(v@.subrange(from as int, i as int)) as int
            } else {
                65536
            },
        decreases end - i,
    {
        let c = v[i];
        if !('0' <= c && c <= '9') {
            proof {
                let d = v@.subrange(from as int, end as int);
                assert(d[i - from] == c);
            }
            return None;
        }
        let d: u32 = (c as u32) - ('0' as u32);
        proof {
            let t = v@.subrange(from as int, i + 1);
            assert(t.drop_last() =~= v@.subrange(from as int, i as int));
            assert(t.last() == c);
        }
        if acc * 10 + d > 65536 {
            acc = 65536;
        } else {
            acc = acc * 10 + d;
        }
        i += 1;
        assert forall|k: int| 0 <= k < i - from implies is_ascii_digit(
            #[trigger] v@.subrange(from as int, i as int)[k],
        ) by {
            if k < i - 1 - from {
                assert(v@.subrange(from as int, i as int)[k] == v@.subrange(
                    from as int,
                    i - 1,
                )[k]);
            }
        }
    }
    if acc > 65535 {
        None
    } else {
        Some(acc as u16)
    }
}


// ---------------------------------------------------------------------------
// Laws of decimal numbers
// ---------------------------------------------------------------------------

proof fn lemma_digit_char(d: nat)
    requires
        d < 10,
    ensures
        is_ascii_digit(digit_char(d)),
        digit_value(digit_char(d)) == d,
{
}

/// A decimal representation is a non-empty string of ASCII digits whose
/// value is the number written.
pub proof fn lemma_decimal_digits(n: nat)
    ensures
        decimal(n).len() > 0,
        all_digits(decimal(n)),
        digits_value(decimal(n)) == n,
    decreases n,
{
    if n < 10 {
        lemma_digit_char(n);
        let s = decimal(n);
        assert(s.drop_last() =~= Seq::<char>::empty());
        assert(digits_value(s.drop_last()) == 0);
        assert(s.last() == digit_char(n));
    } else {
        lemma_decimal_digits(n / 10);
        lemma_digit_char(n % 10);
        let s = decimal(n);
        assert(s.drop_last() =~= decimal(n / 10));
        assert(s.last() == digit_char(n % 10));
        assert(digits_value(s) == digits_value(decimal(n / 10)) * 10 + digit_value(s.last()));
        assert(n == (n / 10) * 10 + n % 10);
        assert forall|i: int| 0 <= i < s.len() implies is_ascii_digit(#[trigger] s[i]) by {
            if i < s.len() - 1 {
                assert(s[i] == decimal(n / 10)[i]);
            }
        }
    }
}

/// Reading back a written number gives the number: a 16-bit value, written
/// in decimal, parses as itself.
pub proof fn law_u16_decimal_round_trip(n: u16)
    ensures
        parse_u16(decimal(n as nat)) == Some(n),
{
    lemma_decimal_digits(n as nat);
    let s = decimal(n as nat);
    if s.len() > 1 && s[0] == '+' {
        assert(is_ascii_digit(s[0]));
    }
}

/// Different numbers are written differently.
pub proof fn lemma_decimal_injective(a: nat, b: nat)
    requires
        decimal(a) == decimal(b),
    ensures
        a == b,
{
    lemma_decimal_digits(a);
    lemma_decimal_digits(b);
}


// ---------------------------------------------------------------------------
// Laws of searching and splitting
// ---------------------------------------------------------------------------

/// The first `c` of `s` is at `i` when `s[i]` is `c` and no `c` comes before.
pub proof fn lemma_first_index_at(s: Seq<char>, c: char, i: int)
    requires
        0 <= i < s.len(),
        s[i] == c,
        forall|j: int| 0 <= j < i ==> s[j] != c,
    ensures
        s.index_of_first(c) == Some(i),
{
    s.index_of_first_ensures(c);
    let k = s.index_of_first(c).unwrap();
    if k < i {
        assert(s[k] != c);
    }
    if k > i {
        assert(s[i] != c);
    }
}

/// `s` has no first `c` when it holds no `c`.
pub proof fn lemma_first_index_none(s: Seq<char>, c: char)
    requires
        forall|j: int| 0 <= j < s.len() ==> s[j] != c,
    ensures
        s.index_of_first(c) is None,
{
    s.index_of_first_ensures(c);
    if s.index_of_first(c) is Some {
        let k = s.index_of_first(c).unwrap();
        assert(s[k] == c);
    }
}

/// The last `c` of `s` is at `i` when `s[i]` is `c` and no `c` comes after.
pub proof fn lemma_last_index_at(s: Seq<char>, c: char, i: int)
    requires
        0 <= i < s.len(),
        s[i] == c,
        forall|j: int| i < j < s.len() ==> s[j] != c,
    ensures
        s.index_of_last(c) == Some(i),
{
    s.index_of_last_ensures(c);
    let k = s.index_of_last(c).unwrap();
    if k < i {
        assert(s[i] != c);
    }
    if k > i {
        assert(s[k] != c);
    }
}

/// Splitting text joined by a separator gives the pieces of each part.
pub proof fn lemma_split_on_concat(a: Seq<char>, b: Seq<char>, sep: char)
    ensures
        split_on(a + seq![sep] + b, sep) == split_on(a, sep) + split_on(b, sep),
    decreases a.len(),
{
    let s = a + seq![sep] + b;
    a.index_of_first_ensures(sep);
    match a.index_of_first(sep) {
        Some(i) => {
            assert forall|j: int| 0 <= j < i implies s[j] != sep by {
                assert(s[j] == a[j]);
            }
            assert(s[i] == a[i]);
            lemma_first_index_at(s, sep, i);
            assert(s.take(i) =~= a.take(i));
            assert(s.skip(i + 1) =~= a.skip(i + 1) + seq![sep] + b);
            lemma_split_on_concat(a.skip(i + 1), b, sep);
            assert(split_on(s, sep) =~= seq![a.take(i)] + split_on(a.skip(i + 1) + seq![sep] + b, sep));
            assert(split_on(a, sep) =~= seq![a.take(i)] + split_on(a.skip(i + 1), sep));
            assert(split_on(s, sep) =~= split_on(a, sep) + split_on(b, sep));
        },
        None => {
            assert forall|j: int| 0 <= j < a.len() implies s[j] != sep by {
                assert(s[j] == a[j]);
                if a[j] == sep {
                    assert(a.contains(sep));
                }
            }
            lemma_first_index_at(s, sep, a.len() as int);
            assert(s.take(a.len() as int) =~= a);
            assert(s.skip(a.len() + 1int) =~= b);
            assert(split_on(a, sep) =~= seq![a]);
            assert(split_on(s, sep) =~= split_on(a, sep) + split_on(b, sep));
        },
    }
}

/// Text without the separator is a single piece.
pub proof fn lemma_split_on_single(a: Seq<char>, sep: char)
    requires
        forall|j: int| 0 <= j < a.len() ==> a[j] != sep,
    ensures
        split_on(a, sep) == seq![a],
{
    lemma_first_index_none(a, sep);
}

} // verus!
