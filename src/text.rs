//! Character-level helpers shared by the lexer and the log store.

use vstd::prelude::*;

verus! {

/// The character of a decimal digit.
pub open spec fn digit_char(d: nat) -> char {
    seq!['0', '1', '2', '3', '4', '5', '6', '7', '8', '9'][d as int]
}

/// Decimal notation of a natural number, without sign or leading zeros.
pub open spec fn decimal(n: nat) -> Seq<char>
    decreases n,
{
    if n < 10 {
        seq![digit_char(n)]
    } else {
        decimal(n / 10).push(digit_char(n % 10))
    }
}

/// Relies on `String::push`: the character is appended at the end.
#[verifier::external_body]
pub(crate) fn push_char(s: &mut String, c: char)
    ensures
        final(s)@ == old(s)@.push(c),
{
    s.push(c)
}

fn digit_of(d: u64) -> (c: char)
    requires
        d < 10,
    ensures
        c == digit_char(d as nat),
{
    let digits: [char; 10] = ['0', '1', '2', '3', '4', '5', '6', '7', '8', '9'];
    proof {
        assert(digits@ =~= seq!['0', '1', '2', '3', '4', '5', '6', '7', '8', '9']);
    }
    digits[d as usize]
}

/// Appends the decimal notation of `n`.
pub fn push_decimal(s: &mut String, n: u64)
    ensures
        final(s)@ == old(s)@ + decimal(n as nat),
    decreases n,
{
    if n >= 10 {
        push_decimal(s, n / 10);
    }
    push_char(s, digit_of(n % 10));
    assert(s@ =~= old(s)@ + decimal(n as nat));
}

/// Decimal notation of `n` as a new string.
pub fn decimal_string(n: u64) -> (r: String)
    ensures
        r@ == decimal(n as nat),
{
    let mut s = String::new();
    push_decimal(&mut s, n);
    assert(s@ =~= decimal(n as nat));
    s
}

/// Whether `c` is an ASCII letter or digit.
pub open spec fn is_ascii_alnum(c: char) -> bool {
    ('a' <= c && c <= 'z') || ('A' <= c && c <= 'Z') || ('0' <= c && c <= '9')
}

pub fn ascii_alnum(c: char) -> (r: bool)
    ensures
        r == is_ascii_alnum(c),
{
    ('a' <= c && c <= 'z') || ('A' <= c && c <= 'Z') || ('0' <= c && c <= '9')
}

/// Whether `c` has the Unicode White_Space property.
pub open spec fn is_ws(c: char) -> bool {
    ('\t' <= c && c <= '\r') || c == ' ' || c == '\u{85}' || c == '\u{a0}' || c == '\u{1680}'
        || ('\u{2000}' <= c && c <= '\u{200a}') || c == '\u{2028}' || c == '\u{2029}'
        || c == '\u{202f}' || c == '\u{205f}' || c == '\u{3000}'
}

pub fn whitespace(c: char) -> (r: bool)
    ensures
        r == is_ws(c),
{
    ('\t' <= c && c <= '\r') || c == ' ' || c == '\u{85}' || c == '\u{a0}' || c == '\u{1680}'
        || ('\u{2000}' <= c && c <= '\u{200a}') || c == '\u{2028}' || c == '\u{2029}'
        || c == '\u{202f}' || c == '\u{205f}' || c == '\u{3000}'
}

/// The characters of a string, one per element.
pub fn chars_of(s: &str) -> (r: Vec<char>)
    ensures
        r@ == s@,
{
    let n = s.unicode_len();
    let mut out: Vec<char> = Vec::new();
    let mut i: usize = 0;
    while i < n
        invariant
            n == s@.len(),
            i <= n,
            out@ == s@.subrange(0, i as int),
        decreases n - i,
    {
        out.push(s.get_char(i));
        i = i + 1;
        assert(out@ =~= s@.subrange(0, i as int));
    }
    assert(out@ =~= s@);
    out
}

/// A string made of the characters `cs[a..b]`.
pub fn string_of_range(cs: &Vec<char>, a: usize, b: usize) -> (r: String)
    requires
        a <= b <= cs@.len(),
    ensures
        r@ == cs@.subrange(a as int, b as int),
{
    let mut out = String::new();
    let mut i: usize = a;
    while i < b
        invariant
            a <= i <= b <= cs@.len(),
            out@ == cs@.subrange(a as int, i as int),
        decreases b - i,
    {
        push_char(&mut out, cs[i]);
        i = i + 1;
        assert(out@ =~= cs@.subrange(a as int, i as int));
    }
    out
}

/// Whether `k` occurs in `s` at position `i`.
pub open spec fn matches_at(s: Seq<char>, k: Seq<char>, i: int) -> bool {
    0 <= i && i + k.len() <= s.len() && s.subrange(i, i + k.len()) == k
}

/// The first position at or after `i` where `k` occurs in `s`.
pub open spec fn find_from(s: Seq<char>, k: Seq<char>, i: int) -> Option<int>
    decreases s.len() + 1 - i,
{
    if i < 0 || i + k.len() > s.len() {
        None
    } else if matches_at(s, k, i) {
        Some(i)
    } else {
        find_from(s, k, i + 1)
    }
}

/// The first position at or after `i` that holds `c`.
pub open spec fn find_char_from(s: Seq<char>, c: char, i: int) -> Option<int>
    decreases s.len() - i,
{
    if i < 0 || i >= s.len() {
        None
    } else if s[i] == c {
        Some(i)
    } else {
        find_char_from(s, c, i + 1)
    }
}

/// The first position at or after `i` that is not whitespace (or the end).
pub open spec fn skip_ws(s: Seq<char>, i: int) -> int
    decreases s.len() - i,
{
    if 0 <= i < s.len() && is_ws(s[i]) {
        skip_ws(s, i + 1)
    } else {
        i
    }
}

/// The first position at or after `i` that is whitespace (or the end).
pub open spec fn skip_non_ws(s: Seq<char>, i: int) -> int
    decreases s.len() - i,
{
    if 0 <= i < s.len() && !is_ws(s[i]) {
        skip_non_ws(s, i + 1)
    } else {
        i
    }
}

/// The end of `s[a..e]` once every trailing `c` is removed.
pub open spec fn strip_back(s: Seq<char>, c: char, a: int, e: int) -> int
    decreases e - a,
{
    if a < e && s[e - 1] == c {
        strip_back(s, c, a, e - 1)
    } else {
        e
    }
}

/// The start of `s[a..e]` once every leading `c` is removed.
pub open spec fn strip_front(s: Seq<char>, c: char, a: int, e: int) -> int
    decreases e - a,
{
    if a < e && s[a] == c {
        strip_front(s, c, a + 1, e)
    } else {
        a
    }
}

/// The end of `s[a..e]` once trailing whitespace is removed.
pub open spec fn trim_back(s: Seq<char>, a: int, e: int) -> int
    decreases e - a,
{
    if a < e && is_ws(s[e - 1]) {
        trim_back(s, a, e - 1)
    } else {
        e
    }
}

/// The start of `s[a..e]` once leading whitespace is removed.
pub open spec fn trim_front(s: Seq<char>, a: int, e: int) -> int
    decreases e - a,
{
    if a < e && is_ws(s[a]) {
        trim_front(s, a + 1, e)
    } else {
        a
    }
}

/// Position after every repetition of `p` that starts at `i`.
pub open spec fn skip_repeated(s: Seq<char>, p: Seq<char>, i: int) -> int
    decreases s.len() - i,
{
    if p.len() > 0 && matches_at(s, p, i) {
        skip_repeated(s, p, i + p.len())
    } else {
        i
    }
}

pub fn matches_at_exec(s: &Vec<char>, k: &Vec<char>, i: usize) -> (r: bool)
    ensures
        r == matches_at(s@, k@, i as int),
{
    if k.len() > s.len() || i > s.len() - k.len() {
        return false;
    }
    let mut j: usize = 0;
    while j < k.len()
        invariant
            i + k@.len() <= s.len(),
            k@.len() <= s@.len(),
            i <= s@.len(),
            j <= k@.len(),
            forall|x: int| 0 <= x < j ==> s@[i + x] == k@[x],
        decreases k@.len() - j,
    {
        if s[i + j] != k[j] {
            assert(s@.subrange(i as int, i + k@.len())[j as int] != k@[j as int]);
            return false;
        }
        j = j + 1;
    }
    assert(s@.subrange(i as int, i + k@.len()) =~= k@);
    true
}

pub fn find_from_exec(s: &Vec<char>, k: &Vec<char>, i: usize) -> (r: Option<usize>)
    ensures
        match r {
            Some(p) => find_from(s@, k@, i as int) == Some(p as int),
            None => find_from(s@, k@, i as int) is None,
        },
{
    let mut j: usize = i;
    while j < s.len() && k.len() <= s.len() - j
        invariant
            i <= j,
            find_from(s@, k@, j as int) == find_from(s@, k@, i as int),
        decreases s@.len() - j,
    {
        if matches_at_exec(s, k, j) {
            return Some(j);
        }
        j = j + 1;
    }
    if j <= s.len() && k.len() <= s.len() - j {
        if matches_at_exec(s, k, j) {
            return Some(j);
        }
        assert(find_from(s@, k@, j + 1) is None);
    }
    None
}

pub fn find_char_exec(s: &Vec<char>, c: char, i: usize) -> (r: Option<usize>)
    ensures
        match r {
            Some(p) => find_char_from(s@, c, i as int) == Some(p as int) && p < s@.len(),
            None => find_char_from(s@, c, i as int) is None,
        },
{
    let mut j: usize = i;
    while j < s.len()
        invariant
            i <= j,
            find_char_from(s@, c, j as int) == find_char_from(s@, c, i as int),
        decreases s@.len() - j,
    {
        if s[j] == c {
            return Some(j);
        }
        j = j + 1;
    }
    None
}

pub fn skip_ws_exec(s: &Vec<char>, i: usize) -> (r: usize)
    requires
        i <= s@.len(),
    ensures
        r as int == skip_ws(s@, i as int),
        i <= r <= s@.len(),
{
    let mut j: usize = i;
    while j < s.len() && whitespace(s[j])
        invariant
            i <= j <= s@.len(),
            skip_ws(s@, j as int) == skip_ws(s@, i as int),
        decreases s@.len() - j,
    {
        j = j + 1;
    }
    j
}

pub fn skip_non_ws_exec(s: &Vec<char>, i: usize) -> (r: usize)
    requires
        i <= s@.len(),
    ensures
        r as int == skip_non_ws(s@, i as int),
        i <= r <= s@.len(),
{
    let mut j: usize = i;
    while j < s.len() && !whitespace(s[j])
        invariant
            i <= j <= s@.len(),
            skip_non_ws(s@, j as int) == skip_non_ws(s@, i as int),
        decreases s@.len() - j,
    {
        j = j + 1;
    }
    j
}

pub fn strip_back_exec(s: &Vec<char>, c: char, a: usize, e: usize) -> (r: usize)
    requires
        a <= e <= s@.len(),
    ensures
        r as int == strip_back(s@, c, a as int, e as int),
        a <= r <= e,
{
    let mut j: usize = e;
    while j > a && s[j - 1] == c
        invariant
            a <= j <= e <= s@.len(),
            strip_back(s@, c, a as int, j as int) == strip_back(s@, c, a as int, e as int),
        decreases j - a,
    {
        j = j - 1;
    }
    j
}

pub fn strip_front_exec(s: &Vec<char>, c: char, a: usize, e: usize) -> (r: usize)
    requires
        a <= e <= s@.len(),
    ensures
        r as int == strip_front(s@, c, a as int, e as int),
        a <= r <= e,
{
    let mut j: usize = a;
    while j < e && s[j] == c
        invariant
            a <= j <= e <= s@.len(),
            strip_front(s@, c, j as int, e as int) == strip_front(s@, c, a as int, e as int),
        decreases e - j,
    {
        j = j + 1;
    }
    j
}

pub fn trim_back_exec(s: &Vec<char>, a: usize, e: usize) -> (r: usize)
    requires
        a <= e <= s@.len(),
    ensures
        r as int == trim_back(s@, a as int, e as int),
        a <= r <= e,
{
    let mut j: usize = e;
    while j > a && whitespace(s[j - 1])
        invariant
            a <= j <= e <= s@.len(),
            trim_back(s@, a as int, j as int) == trim_back(s@, a as int, e as int),
        decreases j - a,
    {
        j = j - 1;
    }
    j
}

pub fn trim_front_exec(s: &Vec<char>, a: usize, e: usize) -> (r: usize)
    requires
        a <= e <= s@.len(),
    ensures
        r as int == trim_front(s@, a as int, e as int),
        a <= r <= e,
{
    let mut j: usize = a;
    while j < e && whitespace(s[j])
        invariant
            a <= j <= e <= s@.len(),
            trim_front(s@, j as int, e as int) == trim_front(s@, a as int, e as int),
        decreases e - j,
    {
        j = j + 1;
    }
    j
}

/// Facts about a successful search.
pub proof fn lemma_find(s: Seq<char>, k: Seq<char>, c: char, i: int)
    ensures
        find_from(s, k, i) matches Some(p) ==> i <= p && matches_at(s, k, p),
        find_char_from(s, c, i) matches Some(p) ==> i <= p < s.len() && s[p] == c,
    decreases s.len() + 1 - i,
{
    if 0 <= i && i + k.len() <= s.len() && !matches_at(s, k, i) {
        lemma_find(s, k, c, i + 1);
    } else if 0 <= i < s.len() && s[i] != c {
        lemma_find(s, k, c, i + 1);
    }
}

pub fn skip_repeated_exec(s: &Vec<char>, p: &Vec<char>, i: usize) -> (r: usize)
    requires
        i <= s@.len(),
    ensures
        r as int == skip_repeated(s@, p@, i as int),
        i <= r <= s@.len(),
{
    let mut j: usize = i;
    if p.len() == 0 {
        return j;
    }
    loop
        invariant
            i <= j <= s.len(),
            p@.len() > 0,
            skip_repeated(s@, p@, j as int) == skip_repeated(s@, p@, i as int),
        decreases s@.len() - j,
    {
        if !matches_at_exec(s, p, j) {
            return j;
        }
        j = j + p.len();
    }
}

/// The value of a digit character.
pub open spec fn digit_value(c: char) -> nat {
    (c as int - '0' as int) as nat
}

pub open spec fn is_digit(c: char) -> bool {
    '0' <= c && c <= '9'
}

/// The value of a string of decimal digits.
pub open spec fn digits_value(s: Seq<char>) -> nat
    decreases s.len(),
{
    if s.len() == 0 {
        0
    } else {
        digits_value(s.drop_last()) * 10 + digit_value(s.last())
    }
}

/// The digits of an unsigned number: one optional `+`, then the rest.
pub open spec fn unsigned_digits(s: Seq<char>) -> Seq<char> {
    if s.len() > 0 && s[0] == '+' {
        s.drop_first()
    } else {
        s
    }
}

/// An unsigned decimal number no larger than `max`: an optional `+` and at least
/// one digit, nothing else.
pub open spec fn parse_unsigned(s: Seq<char>, max: nat) -> Option<nat> {
    let d = unsigned_digits(s);
    if d.len() > 0 && (forall|i: int| 0 <= i < d.len() ==> is_digit(#[trigger] d[i]))
        && digits_value(d) <= max {
        Some(digits_value(d))
    } else {
        None
    }
}

proof fn lemma_digits_grow(d: Seq<char>, i: int)
    requires
        0 <= i <= d.len(),
    ensures
        digits_value(d.subrange(0, i)) <= digits_value(d),
    decreases d.len() - i,
{
    if i < d.len() {
        lemma_digits_grow(d, i + 1);
        let a = d.subrange(0, i);
        let b = d.subrange(0, i + 1);
        assert(b.drop_last() =~= a);
    } else {
        assert(d.subrange(0, i) =~= d);
    }
}

/// Parses `cs[a..e]` as an unsigned decimal number no larger than `max`.
pub fn parse_unsigned_range(cs: &Vec<char>, a: usize, e: usize, max: u64) -> (r: Option<u64>)
    requires
        a <= e <= cs@.len(),
    ensures
        match r {
            Some(v) => parse_unsigned(cs@.subrange(a as int, e as int), max as nat) == Some(v as nat),
            None => parse_unsigned(cs@.subrange(a as int, e as int), max as nat) is None,
        },
{
    let ghost s = cs@.subrange(a as int, e as int);
    let mut start: usize = a;
    if a < e && cs[a] == '+' {
        start = a + 1;
    }
    let ghost d = cs@.subrange(start as int, e as int);
    assert(unsigned_digits(s) =~= d);
    if start == e {
        return None;
    }
    let mut j: usize = start;
    while j < e
        invariant
            a <= start <= j <= e <= cs@.len(),
            d == cs@.subrange(start as int, e as int),
            s == cs@.subrange(a as int, e as int),
            unsigned_digits(s) == d,
            forall|x: int| 0 <= x < j - start ==> is_digit(#[trigger] d[x]),
        decreases e - j,
    {
        if !('0' <= cs[j] && cs[j] <= '9') {
            assert(!is_digit(d[j - start]));
            return None;
        }
        j = j + 1;
    }
    let mut v: u128 = 0;
    let mut k: usize = start;
    while k < e
        invariant
            a <= start <= k <= e <= cs@.len(),
            d == cs@.subrange(start as int, e as int),
            s == cs@.subrange(a as int, e as int),
            unsigned_digits(s) == d,
            forall|x: int| 0 <= x < d.len() ==> is_digit(#[trigger] d[x]),
            v as nat == digits_value(d.subrange(0, k - start)),
            v <= max as u128,
        decreases e - k,
    {
        assert(is_digit(d[k - start]));
        assert(d[k - start] == cs@[k as int]);
        let dv = (cs[k] as u32 - '0' as u32) as u128;
        let ghost pre = d.subrange(0, k - start + 1);
        assert(pre.drop_last() =~= d.subrange(0, k - start));
        assert(pre.last() == cs@[k as int]);
        v = v * 10 + dv;
        k = k + 1;
        if v > max as u128 {
            proof {
                lemma_digits_grow(d, k - start);
            }
            return None;
        }
    }
    assert(d.subrange(0, d.len() as int) =~= d);
    Some(v as u64)
}

/// A signed decimal number within `i64`: an optional `+` or `-` and at least one
/// digit, nothing else.
pub open spec fn parse_signed(s: Seq<char>) -> Option<int> {
    if s.len() > 0 && s[0] == '-' {
        if s.len() > 1 && s[1] == '+' {
            None
        } else {
            match parse_unsigned(s.drop_first(), 0x8000_0000_0000_0000) {
                Some(v) => Some(-v),
                None => None,
            }
        }
    } else {
        match parse_unsigned(s, i64::MAX as nat) {
            Some(v) => Some(v as int),
            None => None,
        }
    }
}

/// Parses `cs[a..e]` as a signed 64-bit decimal number.
pub fn parse_signed_range(cs: &Vec<char>, a: usize, e: usize) -> (r: Option<i64>)
    requires
        a <= e <= cs@.len(),
    ensures
        match r {
            Some(v) => parse_signed(cs@.subrange(a as int, e as int)) == Some(v as int),
            None => parse_signed(cs@.subrange(a as int, e as int)) is None,
        },
{
    let ghost s = cs@.subrange(a as int, e as int);
    if a < e && cs[a] == '-' {
        if a + 1 < e && cs[a + 1] == '+' {
            return None;
        }
        assert(s.drop_first() =~= cs@.subrange(a + 1, e as int));
        match parse_unsigned_range(cs, a + 1, e, 0x8000_0000_0000_0000u64) {
            Some(v) => {
                if v == 0x8000_0000_0000_0000u64 {
                    Some(i64::MIN)
                } else {
                    Some(-(v as i64))
                }
            },
            None => None,
        }
    } else {
        match parse_unsigned_range(cs, a, e, i64::MAX as u64) {
            Some(v) => Some(v as i64),
            None => None,
        }
    }
}

/// What a clock helper printed for a timestamp: its first whitespace-delimited
/// token as a signed epoch (absent if it does not parse) and its second token as
/// the time of day; both absent when there is no token at all.
pub open spec fn resolver_output(s: Seq<char>) -> (Option<int>, Option<Seq<char>>) {
    let a1 = skip_ws(s, 0);
    if a1 >= s.len() {
        (None, None)
    } else {
        let b1 = skip_non_ws(s, a1);
        let a2 = skip_ws(s, b1);
        (
            parse_signed(s.subrange(a1, b1)),
            if a2 >= s.len() {
                None
            } else {
                Some(s.subrange(a2, skip_non_ws(s, a2)))
            },
        )
    }
}

/// Reads the epoch and the time of day out of a clock helper's output.
pub fn parse_resolver_output(text: &str) -> (r: (Option<i64>, Option<String>))
    ensures
        r.0 matches Some(v) ==> resolver_output(text@).0 == Some(v as int),
        r.0 is None ==> resolver_output(text@).0 is None,
        r.1 matches Some(t) ==> resolver_output(text@).1 == Some(t@),
        r.1 is None ==> resolver_output(text@).1 is None,
{
    let s = chars_of(text);
    let a1 = skip_ws_exec(&s, 0);
    if a1 >= s.len() {
        return (None, None);
    }
    let b1 = skip_non_ws_exec(&s, a1);
    let epoch = parse_signed_range(&s, a1, b1);
    let a2 = skip_ws_exec(&s, b1);
    if a2 >= s.len() {
        return (epoch, None);
    }
    let b2 = skip_non_ws_exec(&s, a2);
    (epoch, Some(string_of_range(&s, a2, b2)))
}

} // verus!
