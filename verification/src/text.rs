//! Text as the web interface reads and writes it: white space, words, fields, numbers.
//!
//! Contracts speak of a text as the sequence of its characters, and of the bytes of a text as
//! their UTF-8 encoding.
use vstd::prelude::*;
use vstd::string::StringExecFns;

verus! {

/// The characters with the Unicode property `White_Space`.
pub open spec fn is_white(c: char) -> bool {
    ||| '\u{9}' <= c <= '\u{d}'
    ||| c == ' '
    ||| c == '\u{85}'
    ||| c == '\u{a0}'
    ||| c == '\u{1680}'
    ||| '\u{2000}' <= c <= '\u{200a}'
    ||| c == '\u{2028}'
    ||| c == '\u{2029}'
    ||| c == '\u{202f}'
    ||| c == '\u{205f}'
    ||| c == '\u{3000}'
}

/// Whether `c` is white space.
pub fn white(c: char) -> (r: bool)
    ensures
        r == is_white(c),
{
    ('\u{9}' <= c && c <= '\u{d}') || c == ' ' || c == '\u{85}' || c == '\u{a0}' || c == '\u{1680}'
        || ('\u{2000}' <= c && c <= '\u{200a}') || c == '\u{2028}' || c == '\u{2029}'
        || c == '\u{202f}' || c == '\u{205f}' || c == '\u{3000}'
}

/// The position at or after `i` where the white space that starts at `i` ends.
pub open spec fn white_end(s: Seq<char>, i: int) -> int
    decreases s.len() - i,
{
    if 0 <= i < s.len() && is_white(s[i]) {
        white_end(s, i + 1)
    } else {
        i
    }
}

/// The position at or after `i` where the word that starts at `i` ends.
pub open spec fn word_end(s: Seq<char>, i: int) -> int
    decreases s.len() - i,
{
    if 0 <= i < s.len() && !is_white(s[i]) {
        word_end(s, i + 1)
    } else {
        i
    }
}

/// The first word of `s` at or after `i`, as its start and end. It is empty (start equals end)
/// when only white space follows.
pub open spec fn word_at(s: Seq<char>, i: int) -> (int, int) {
    (white_end(s, i), word_end(s, white_end(s, i)))
}

/// The position up to which `s`, cut at `n`, holds something else than trailing white space.
pub open spec fn trimmed_end(s: Seq<char>, n: int) -> int
    decreases n,
{
    if 0 < n <= s.len() && is_white(s[n - 1]) {
        trimmed_end(s, n - 1)
    } else {
        n
    }
}

/// `s` without the white space at its two ends.
pub open spec fn trimmed(s: Seq<char>) -> Seq<char> {
    let a = white_end(s, 0);
    if a >= s.len() {
        Seq::empty()
    } else {
        s.subrange(a, trimmed_end(s, s.len() as int))
    }
}

/// Whether `pat` stands in `s` at `i`.
pub open spec fn occurs_at<T>(s: Seq<T>, pat: Seq<T>, i: int) -> bool {
    0 <= i && i + pat.len() <= s.len() && s.subrange(i, i + pat.len()) == pat
}

/// The first position at or after `i` where `pat` stands in `s`.
pub open spec fn first_at<T>(s: Seq<T>, pat: Seq<T>, i: int) -> Option<int>
    decreases s.len() + 1 - i,
{
    if i + pat.len() > s.len() {
        None
    } else if occurs_at(s, pat, i) {
        Some(i)
    } else {
        first_at(s, pat, i + 1)
    }
}

/// `first_at` is what its name says: `pat` stands where it points, and nowhere before; where it
/// points nowhere, `pat` stands nowhere.
pub proof fn first_at_is_first<T>(s: Seq<T>, pat: Seq<T>, i: int)
    requires
        0 <= i,
    ensures
        match first_at(s, pat, i) {
            Some(k) => {
                &&& i <= k
                &&& occurs_at(s, pat, k)
                &&& forall|j: int| i <= j < k ==> !occurs_at(s, pat, j)
            },
            None => forall|j: int| i <= j ==> !occurs_at(s, pat, j),
        },
    decreases s.len() + 1 - i,
{
    if i + pat.len() > s.len() {
    } else if occurs_at(s, pat, i) {
    } else {
        first_at_is_first(s, pat, i + 1);
    }
}

/// The pieces of `s` between the occurrences of `sep`, which are taken from the left and do not
/// overlap. There is always at least one piece.
pub open spec fn fields(s: Seq<char>, sep: Seq<char>) -> Seq<Seq<char>>
    decreases s.len(),
{
    match first_at(s, sep, 0) {
        Some(i) => if sep.len() > 0 && 0 <= i && i + sep.len() <= s.len() {
            seq![s.subrange(0, i)] + fields(s.subrange(i + sep.len(), s.len() as int), sep)
        } else {
            seq![s]
        },
        None => seq![s],
    }
}

/// The views of the texts in a list.
pub open spec fn texts(v: Seq<&str>) -> Seq<Seq<char>> {
    v.map_values(|t: &str| t@)
}

/// The characters of `s`, in order.
pub fn chars_of(s: &str) -> (r: Vec<char>)
    ensures
        r@ == s@,
{
    let mut out: Vec<char> = Vec::new();
    for c in it: s.chars()
        invariant
            out@ == s@.take(it.index()),
            it.seq() == s@,
    {
        out.push(c);
        assert(s@.take(it.index() + 1) =~= s@.take(it.index()).push(c));
    }
    assert(s@.take(s@.len() as int) =~= s@);
    out
}

/// Whether two texts hold the same characters.
pub fn same_text(a: &str, b: &str) -> (r: bool)
    ensures
        r == (a@ == b@),
{
    let x = chars_of(a);
    let y = chars_of(b);
    if x.len() != y.len() {
        return false;
    }
    let mut i: usize = 0;
    while i < x.len()
        invariant
            x@ == a@,
            y@ == b@,
            x@.len() == y@.len(),
            i <= x@.len(),
            forall|j: int| 0 <= j < i ==> x@[j] == y@[j],
        decreases x@.len() - i,
    {
        if x[i] != y[i] {
            return false;
        }
        i += 1;
    }
    assert(x@ =~= y@);
    true
}

/// Whether `s` begins with `prefix`.
pub fn starts_with(s: &str, prefix: &str) -> (r: bool)
    ensures
        r == prefix@.is_prefix_of(s@),
{
    let x = chars_of(s);
    let y = chars_of(prefix);
    if y.len() > x.len() {
        return false;
    }
    let mut i: usize = 0;
    while i < y.len()
        invariant
            x@ == s@,
            y@ == prefix@,
            y@.len() <= x@.len(),
            i <= y@.len(),
            forall|j: int| 0 <= j < i ==> x@[j] == y@[j],
        decreases y@.len() - i,
    {
        if x[i] != y[i] {
            assert(s@.take(y@.len() as int)[i as int] == x@[i as int]);
            return false;
        }
        i += 1;
    }
    assert(prefix@ =~= s@.take(y@.len() as int));
    true
}

/// Where the white space that starts at `i` ends.
fn find_white_end(s: &Vec<char>, i: usize) -> (r: usize)
    requires
        i <= s@.len(),
    ensures
        r == white_end(s@, i as int),
        i <= r <= s@.len(),
{
    let mut k: usize = i;
    while k < s.len() && white(s[k])
        invariant
            i <= k <= s@.len(),
            white_end(s@, i as int) == white_end(s@, k as int),
        decreases s@.len() - k,
    {
        k += 1;
    }
    k
}

/// Where the word that starts at `i` ends.
fn find_word_end(s: &Vec<char>, i: usize) -> (r: usize)
    requires
        i <= s@.len(),
    ensures
        r == word_end(s@, i as int),
        i <= r <= s@.len(),
{
    let mut k: usize = i;
    while k < s.len() && !white(s[k])
        invariant
            i <= k <= s@.len(),
            word_end(s@, i as int) == word_end(s@, k as int),
        decreases s@.len() - k,
    {
        k += 1;
    }
    k
}

/// The first word at or after `i`, as its start and end.
pub fn find_word(s: &Vec<char>, i: usize) -> (r: (usize, usize))
    requires
        i <= s@.len(),
    ensures
        (r.0 as int, r.1 as int) == word_at(s@, i as int),
        i <= r.0 <= r.1 <= s@.len(),
{
    let a = find_white_end(s, i);
    let b = find_word_end(s, a);
    (a, b)
}

/// `s` without the white space at its two ends.
pub fn trim(s: &str) -> (r: &str)
    ensures
        r@ == trimmed(s@),
{
    let v = chars_of(s);
    let a = find_white_end(&v, 0);
    let mut b: usize = v.len();
    while b > a && white(v[b - 1])
        invariant
            v@ == s@,
            a == white_end(v@, 0),
            a <= b <= v@.len(),
            trimmed_end(v@, v@.len() as int) == trimmed_end(v@, b as int),
            forall|j: int| b <= j < v@.len() ==> is_white(v@[j]),
        decreases b,
    {
        b -= 1;
    }
    if a >= v.len() {
        let r = s.substring_char(0, 0);
        assert(r@ =~= Seq::<char>::empty());
        return r;
    }
    proof {
        white_end_stops(v@, 0);
    }
    s.substring_char(a, b)
}

/// `white_end` stops at the end of the text or at a character that is not white space.
proof fn white_end_stops(s: Seq<char>, i: int)
    requires
        0 <= i <= s.len(),
    ensures
        i <= white_end(s, i) <= s.len(),
        white_end(s, i) < s.len() ==> !is_white(s[white_end(s, i)]),
    decreases s.len() - i,
{
    if i < s.len() && is_white(s[i]) {
        white_end_stops(s, i + 1);
    }
}

/// The first position at or after `i` where `pat` stands in `s`.
pub(crate) fn find_chars(s: &Vec<char>, pat: &Vec<char>, i: usize) -> (r: Option<usize>)
    requires
        i <= s@.len(),
    ensures
        match r {
            Some(k) => {
                &&& first_at(s@, pat@, i as int) == Some(k as int)
                &&& i <= k
                &&& k + pat@.len() <= s@.len()
            },
            None => first_at(s@, pat@, i as int) is None,
        },
{
    let n: usize = s.len();
    if pat.len() > n {
        return None;
    }
    let last: usize = n - pat.len();
    let mut k: usize = i;
    while k <= last
        invariant
            i <= k <= s@.len() + 1,
            n == s@.len(),
            last + pat@.len() == n,
            first_at(s@, pat@, i as int) == first_at(s@, pat@, k as int),
        decreases s@.len() + 1 - k,
    {
        let mut m: usize = 0;
        while m < pat.len() && s[k + m] == pat[m]
            invariant
                m <= pat@.len(),
                k <= last,
                n == s@.len(),
                last + pat@.len() == n,
                forall|j: int| 0 <= j < m ==> s@[k + j] == pat@[j],
            decreases pat@.len() - m,
        {
            m += 1;
        }
        if m == pat.len() {
            assert(s@.subrange(k as int, k + pat@.len()) =~= pat@);
            return Some(k);
        }
        assert(s@.subrange(k as int, k + pat@.len())[m as int] == s@[k + m]);
        if k == last {
            assert(first_at(s@, pat@, k + 1) is None);
            return None;
        }
        k += 1;
    }
    None
}

/// The pieces of `s` between the occurrences of `sep`.
pub fn split<'a>(s: &'a str, sep: &str) -> (r: Vec<&'a str>)
    requires
        sep@.len() > 0,
    ensures
        texts(r@) == fields(s@, sep@),
        r@.len() > 0,
{
    let v = chars_of(s);
    let n: usize = v.len();
    let pat = chars_of(sep);
    let mut out: Vec<&'a str> = Vec::new();
    let mut from: usize = 0;
    assert(s@.subrange(0, s@.len() as int) =~= s@);
    assert(texts(out@) + fields(s@, sep@) =~= fields(s@, sep@));
    loop
        invariant
            v@ == s@,
            pat@ == sep@,
            pat@.len() > 0,
            from <= n,
            n == v@.len(),
            texts(out@) + fields(s@.subrange(from as int, s@.len() as int), sep@) == fields(s@, sep@),
        decreases v@.len() - from,
    {
        let ghost rest = s@.subrange(from as int, s@.len() as int);
        let found = find_chars(&v, &pat, from);
        proof {
            first_at_shifts(s@, sep@, from as int, from as int);
        }
        match found {
            Some(k) => {
                let piece = s.substring_char(from, k);
                let ghost before = out@;
                out.push(piece);
                let next: usize = k + pat.len();
                proof {
                    assert(rest.subrange(0, k - from) =~= piece@);
                    assert(rest.subrange(k - from + sep@.len(), rest.len() as int) =~= s@.subrange(
                        next as int,
                        s@.len() as int,
                    ));
                    assert(texts(out@) =~= texts(before) + seq![piece@]);
                    assert(texts(before) + (seq![piece@] + fields(
                        s@.subrange(next as int, s@.len() as int),
                        sep@,
                    )) =~= texts(out@) + fields(s@.subrange(next as int, s@.len() as int), sep@));
                }
                from = next;
            },
            None => {
                let piece = s.substring_char(from, n);
                let ghost before = out@;
                out.push(piece);
                proof {
                    assert(texts(out@) =~= texts(before) + seq![piece@]);
                }
                return out;
            },
        }
    }
}

/// Looking for `pat` from a position on is looking for it in what is left from there.
proof fn first_at_shifts<T>(s: Seq<T>, pat: Seq<T>, from: int, i: int)
    requires
        0 <= from <= i,
        from <= s.len(),
    ensures
        first_at(s.subrange(from, s.len() as int), pat, i - from) == (match first_at(s, pat, i) {
            Some(k) => Some(k - from),
            None => None::<int>,
        }),
    decreases s.len() + 1 - i,
{
    let rest = s.subrange(from, s.len() as int);
    if i + pat.len() <= s.len() {
        assert(rest.subrange(i - from, i - from + pat.len()) =~= s.subrange(i, i + pat.len()));
        if !occurs_at(s, pat, i) {
            first_at_shifts(s, pat, from, i + 1);
        }
    }
}

/// The first position where `pat` stands in `s`.
pub fn find_bytes(s: &[u8], pat: &[u8]) -> (r: Option<usize>)
    ensures
        match r {
            Some(k) => first_at(s@, pat@, 0) == Some(k as int) && k + pat@.len() <= s@.len(),
            None => first_at(s@, pat@, 0) is None,
        },
{
    let n: usize = s.len();
    if pat.len() > n {
        return None;
    }
    let last: usize = n - pat.len();
    let mut k: usize = 0;
    while k <= last
        invariant
            k <= n,
            n == s@.len(),
            last + pat@.len() == n,
            first_at(s@, pat@, 0) == first_at(s@, pat@, k as int),
        decreases n + 1 - k,
    {
        let mut m: usize = 0;
        while m < pat.len() && s[k + m] == pat[m]
            invariant
                m <= pat@.len(),
                k <= last,
                n == s@.len(),
                last + pat@.len() == n,
                forall|j: int| 0 <= j < m ==> s@[k + j] == pat@[j],
            decreases pat@.len() - m,
        {
            m += 1;
        }
        if m == pat.len() {
            assert(s@.subrange(k as int, k + pat@.len()) =~= pat@);
            return Some(k);
        }
        assert(s@.subrange(k as int, k + pat@.len())[m as int] == s@[k + m]);
        if k == last {
            assert(first_at(s@, pat@, k + 1) is None);
            return None;
        }
        k += 1;
    }
    None
}

/// The text that `bytes` encode.
///
/// Calls `core::str::from_utf8`, which answers with a text exactly when the bytes are valid UTF-8;
/// that text is the one whose UTF-8 encoding they are.
#[verifier::external_body]
pub(crate) fn text_of(bytes: &[u8]) -> (r: Option<&str>)
    ensures
        match r {
            Some(t) => {
                &&& vstd::utf8::valid_utf8(bytes@)
                &&& t@ == vstd::utf8::decode_utf8(bytes@)
            },
            None => !vstd::utf8::valid_utf8(bytes@),
        },
{
    core::str::from_utf8(bytes).ok()
}

/// What `str::to_uppercase` makes of a text.
pub uninterp spec fn uppercased(s: Seq<char>) -> Seq<char>;

/// The upper-case form of an ASCII character.
pub open spec fn ascii_upper(c: char) -> char {
    if 'a' <= c <= 'z' {
        ((c as u32) - 32) as char
    } else {
        c
    }
}

/// The upper-case form of a text.
///
/// Calls `str::to_uppercase`. In a text of ASCII characters only, the letters `a` to `z` become
/// `A` to `Z` and nothing else changes; what it makes of other texts follows the Unicode tables
/// and has only a name here.
#[verifier::external_body]
pub(crate) fn upper(s: &str) -> (r: String)
    ensures
        r@ == uppercased(s@),
        vstd::utf8::is_ascii_chars(s@) ==> r@ == s@.map_values(|c: char| ascii_upper(c)),
{
    s.to_uppercase()
}

/// The value of a decimal digit.
pub open spec fn digit_value(c: char) -> nat {
    (c as nat - '0' as nat) as nat
}

/// Whether `c` is one of the ten decimal digits.
pub open spec fn is_digit(c: char) -> bool {
    '0' <= c <= '9'
}

/// The number that a sequence of decimal digits writes.
pub open spec fn digits_value(s: Seq<char>) -> nat
    decreases s.len(),
{
    if s.len() == 0 {
        0
    } else {
        10 * digits_value(s.drop_last()) + digit_value(s.last())
    }
}

/// `s` without a leading plus sign.
pub open spec fn unsigned_part(s: Seq<char>) -> Seq<char> {
    if s.len() > 0 && s[0] == '+' {
        s.skip(1)
    } else {
        s
    }
}

/// The number of at most `max` that `s` writes: decimal digits, at least one, behind at most one
/// plus sign.
pub open spec fn number(s: Seq<char>, max: nat) -> Option<nat> {
    let d = unsigned_part(s);
    if d.len() > 0 && (forall|i: int| 0 <= i < d.len() ==> is_digit(d[i])) && digits_value(d) <= max {
        Some(digits_value(d))
    } else {
        None
    }
}

/// The digits of a longer prefix are worth no less.
proof fn digits_value_grows(s: Seq<char>, i: int)
    requires
        0 <= i <= s.len(),
    ensures
        digits_value(s.take(i)) <= digits_value(s),
    decreases s.len() - i,
{
    if i == s.len() {
        assert(s.take(i) =~= s);
    } else {
        digits_value_grows(s, i + 1);
        assert(s.take(i + 1).drop_last() =~= s.take(i));
    }
}

/// The number of at most `max` that `s` writes.
pub fn parse_number(s: &str, max: u64) -> (r: Option<u64>)
    ensures
        match r {
            Some(n) => number(s@, max as nat) == Some(n as nat),
            None => number(s@, max as nat) is None,
        },
{
    let v = chars_of(s);
    let start: usize = if v.len() > 0 && v[0] == '+' {
        1
    } else {
        0
    };
    let ghost d = unsigned_part(s@);
    assert(d =~= v@.skip(start as int));
    if start == v.len() {
        return None;
    }
    let mut n: u64 = 0;
    let mut i: usize = start;
    assert(d.take(0) =~= Seq::<char>::empty());
    while i < v.len()
        invariant
            v@ == s@,
            d == unsigned_part(s@),
            d == v@.skip(start as int),
            start <= i <= v@.len(),
            start < v@.len(),
            n == digits_value(d.take(i - start)),
            n <= max,
            forall|j: int| 0 <= j < i - start ==> is_digit(d[j]),
        decreases v@.len() - i,
    {
        let c = v[i];
        assert(d[i - start] == c);
        if !('0' <= c && c <= '9') {
            return None;
        }
        let digit: u64 = c as u64 - '0' as u64;
        proof {
            assert(d.take(i - start + 1).drop_last() =~= d.take(i - start));
            digits_value_grows(d, i - start + 1);
        }
        if n > (u64::MAX - digit) / 10 {
            return None;
        }
        let next: u64 = n * 10 + digit;
        if next > max {
            return None;
        }
        n = next;
        i += 1;
    }
    assert(d.take(i - start) =~= d);
    Some(n)
}

/// The digit that stands for `d`, below sixteen, in upper-case hexadecimal; the first ten are the
/// decimal digits.
pub open spec fn digit_char(d: nat) -> char {
    if d < 10 {
        (d + '0' as nat) as char
    } else {
        (d - 10 + 'A' as nat) as char
    }
}

/// `n` written in base `base`, without leading zeros.
pub open spec fn written(n: nat, base: nat) -> Seq<char>
    decreases n,
{
    if n < base || base < 2 {
        seq![digit_char(n)]
    } else {
        proof {
            vstd::arithmetic::div_mod::lemma_div_decreases(n as int, base as int);
        }
        written(n / base, base).push(digit_char(n % base))
    }
}

/// `n` in decimal.
pub open spec fn decimal(n: nat) -> Seq<char> {
    written(n, 10)
}

/// `n` in upper-case hexadecimal.
pub open spec fn hex(n: nat) -> Seq<char> {
    written(n, 16)
}

/// The text of a single digit.
fn digit_text(d: u64) -> (r: &'static str)
    requires
        d < 16,
    ensures
        r@ == seq![digit_char(d as nat)],
{
    proof {
        reveal_strlit("0");
        reveal_strlit("1");
        reveal_strlit("2");
        reveal_strlit("3");
        reveal_strlit("4");
        reveal_strlit("5");
        reveal_strlit("6");
        reveal_strlit("7");
        reveal_strlit("8");
        reveal_strlit("9");
        reveal_strlit("A");
        reveal_strlit("B");
        reveal_strlit("C");
        reveal_strlit("D");
        reveal_strlit("E");
        reveal_strlit("F");
    }
    let r = match d {
        0 => "0",
        1 => "1",
        2 => "2",
        3 => "3",
        4 => "4",
        5 => "5",
        6 => "6",
        7 => "7",
        8 => "8",
        9 => "9",
        10 => "A",
        11 => "B",
        12 => "C",
        13 => "D",
        14 => "E",
        _ => "F",
    };
    assert(r@ =~= seq![digit_char(d as nat)]);
    r
}

/// `n` written in base `base`.
fn write_in_base(n: u64, base: u64) -> (r: String)
    requires
        2 <= base <= 16,
    ensures
        r@ == written(n as nat, base as nat),
    decreases n,
{
    if n < base {
        String::from_str(digit_text(n))
    } else {
        proof {
            vstd::arithmetic::div_mod::lemma_div_decreases(n as int, base as int);
        }
        let mut s = write_in_base(n / base, base);
        s.append(digit_text(n % base));
        s
    }
}

/// `n` in decimal.
pub fn decimal_text(n: u64) -> (r: String)
    ensures
        r@ == decimal(n as nat),
{
    write_in_base(n, 10)
}

/// `n` in upper-case hexadecimal.
pub fn hex_text(n: u64) -> (r: String)
    ensures
        r@ == hex(n as nat),
{
    write_in_base(n, 16)
}

/// Reading back a number that was written in decimal gives that number.
pub proof fn decimal_reads_back(n: nat, max: nat)
    requires
        n <= max,
    ensures
        number(decimal(n), max) == Some(n),
{
    decimal_digits(n);
    let d = decimal(n);
    assert(is_digit(d[0]));
    assert(unsigned_part(d) == d);
}

/// A number written in decimal is a sequence of digits that is worth that number.
proof fn decimal_digits(n: nat)
    ensures
        decimal(n).len() > 0,
        forall|i: int| 0 <= i < decimal(n).len() ==> is_digit(decimal(n)[i]),
        digits_value(decimal(n)) == n,
    decreases n,
{
    if n < 10 {
        reveal_with_fuel(digits_value, 2);
        assert(decimal(n).drop_last() =~= Seq::<char>::empty());
    } else {
        decimal_digits(n / 10);
        assert(decimal(n).drop_last() =~= decimal(n / 10));
    }
}

/// A 64-bit number takes at most twenty decimal digits, all of them ASCII.
pub proof fn decimal_is_short(n: u64)
    ensures
        decimal(n as nat).len() <= 20,
        vstd::utf8::is_ascii_chars(decimal(n as nat)),
{
    decimal_digits(n as nat);
    reveal_with_fuel(written, 20);
}

/// Different numbers are written differently.
pub proof fn written_once(a: nat, b: nat, base: nat)
    requires
        2 <= base <= 16,
        written(a, base) == written(b, base),
    ensures
        a == b,
    decreases a,
{
    let x = written(a, base);
    let y = written(b, base);
    written_has_digits(a, base);
    written_has_digits(b, base);
    if a < base && b < base {
        assert(x[0] == digit_char(a));
        assert(y[0] == digit_char(b));
    } else if a >= base && b >= base {
        vstd::arithmetic::div_mod::lemma_div_decreases(a as int, base as int);
        vstd::arithmetic::div_mod::lemma_fundamental_div_mod(a as int, base as int);
        vstd::arithmetic::div_mod::lemma_fundamental_div_mod(b as int, base as int);
        assert(x.drop_last() =~= written(a / base, base));
        assert(y.drop_last() =~= written(b / base, base));
        assert(x.last() == digit_char(a % base));
        assert(y.last() == digit_char(b % base));
        written_once(a / base, b / base, base);
    }
}

/// A number is written with at least one digit, and with at least two from the base on.
proof fn written_has_digits(n: nat, base: nat)
    requires
        2 <= base,
    ensures
        written(n, base).len() >= 1,
        n >= base ==> written(n, base).len() >= 2,
    decreases n,
{
    if n >= base {
        vstd::arithmetic::div_mod::lemma_div_decreases(n as int, base as int);
        written_has_digits(n / base, base);
    }
}

/// The encoding of a text is the encodings of its parts, one behind the other.
pub proof fn encode_concat(a: Seq<char>, b: Seq<char>)
    ensures
        vstd::utf8::encode_utf8(a + b) == vstd::utf8::encode_utf8(a) + vstd::utf8::encode_utf8(b),
    decreases a.len(),
{
    if a.len() == 0 {
        assert(a + b =~= b);
        assert(vstd::utf8::encode_utf8(a) + vstd::utf8::encode_utf8(b)
            =~= vstd::utf8::encode_utf8(b));
    } else {
        encode_concat(a.drop_first(), b);
        assert((a + b).drop_first() =~= a.drop_first() + b);
        assert((a + b)[0] == a[0]);
        assert(vstd::utf8::encode_utf8(a + b) =~= vstd::utf8::encode_utf8(a)
            + vstd::utf8::encode_utf8(b));
    }
}

/// The encoding of a text without a line feed has no line feed byte.
pub proof fn encode_keeps_lines(s: Seq<char>)
    requires
        !s.contains('\n'),
    ensures
        !vstd::utf8::encode_utf8(s).contains(10u8),
    decreases s.len(),
{
    if s.len() > 0 {
        let rest = s.drop_first();
        assert(!rest.contains('\n')) by {
            if rest.contains('\n') {
                let i = choose|i: int| 0 <= i < rest.len() && rest[i] == '\n';
                assert(s[i + 1] == '\n');
            }
        }
        encode_keeps_lines(rest);
        assert(s[0] != '\n');
        let c = s[0] as u32;
        vstd::utf8::char_is_scalar(s[0]);
        vstd::utf8::char_u32_cast(s[0], c);
        vstd::utf8::char_u32_cast('\n', 10);
        scalar_bytes(c);
        let first = vstd::utf8::encode_scalar(c);
        let all = vstd::utf8::encode_utf8(s);
        assert(all == first + vstd::utf8::encode_utf8(rest));
        assert forall|i: int| 0 <= i < all.len() implies all[i] != 10u8 by {
            if i < first.len() {
                assert(all[i] == first[i]);
            } else {
                assert(all[i] == vstd::utf8::encode_utf8(rest)[i - first.len()]);
                assert(vstd::utf8::encode_utf8(rest).contains(all[i]));
            }
        }
    }
}

/// No byte of the encoding of a character other than the line feed is the line feed byte.
proof fn scalar_bytes(c: u32)
    requires
        c != 10,
    ensures
        forall|i: int|
            0 <= i < vstd::utf8::encode_scalar(c).len() ==> vstd::utf8::encode_scalar(c)[i] != 10u8,
{
    assert(c <= 0x7f && c != 10 ==> (c & 0x7F) as u8 != 10u8) by (bit_vector);
    assert((0xC0 | ((c >> 6) & 0x1F) as u8) != 10u8) by (bit_vector);
    assert((0xE0 | ((c >> 12) & 0x0F) as u8) != 10u8) by (bit_vector);
    assert((0xF0 | ((c >> 18) & 0x7) as u8) != 10u8) by (bit_vector);
    assert((0x80 | (c & 0x3F) as u8) != 10u8) by (bit_vector);
    assert((0x80 | ((c >> 6) & 0x3F) as u8) != 10u8) by (bit_vector);
    assert((0x80 | ((c >> 12) & 0x3F) as u8) != 10u8) by (bit_vector);
}

/// A pattern whose first occurrence is known is found there.
pub proof fn first_at_is<T>(s: Seq<T>, pat: Seq<T>, i: int, k: int)
    requires
        0 <= i <= k,
        occurs_at(s, pat, k),
        forall|j: int| i <= j < k ==> !occurs_at(s, pat, j),
    ensures
        first_at(s, pat, i) == Some(k),
    decreases k - i,
{
    if i < k {
        first_at_is(s, pat, i + 1, k);
    }
}

/// A run of white space ends where something else follows it.
pub proof fn white_end_is(s: Seq<char>, i: int, k: int)
    requires
        0 <= i <= k <= s.len(),
        forall|j: int| i <= j < k ==> is_white(s[j]),
        k == s.len() || !is_white(s[k]),
    ensures
        white_end(s, i) == k,
    decreases k - i,
{
    if i < k {
        white_end_is(s, i + 1, k);
    }
}

/// A word ends where white space follows it.
pub proof fn word_end_is(s: Seq<char>, i: int, k: int)
    requires
        0 <= i <= k <= s.len(),
        forall|j: int| i <= j < k ==> !is_white(s[j]),
        k == s.len() || is_white(s[k]),
    ensures
        word_end(s, i) == k,
    decreases k - i,
{
    if i < k {
        word_end_is(s, i + 1, k);
    }
}

/// The parts one behind the other, with `sep` between any two of them.
pub open spec fn joined_with(parts: Seq<Seq<char>>, sep: Seq<char>) -> Seq<char>
    decreases parts.len(),
{
    if parts.len() == 0 {
        Seq::empty()
    } else if parts.len() == 1 {
        parts[0]
    } else {
        parts[0] + sep + joined_with(parts.drop_first(), sep)
    }
}

/// Whether `part` can stand between two separators: no separator begins in it.
pub open spec fn is_part(part: Seq<char>, sep: Seq<char>) -> bool {
    first_at(part + sep, sep, 0) == Some(part.len() as int)
}

/// What was joined with a separator is taken apart again at the separators.
pub proof fn fields_of_joined(parts: Seq<Seq<char>>, sep: Seq<char>)
    requires
        parts.len() > 0,
        sep.len() > 0,
        forall|i: int| 0 <= i < parts.len() ==> is_part(#[trigger] parts[i], sep),
    ensures
        fields(joined_with(parts, sep), sep) == parts,
    decreases parts.len(),
{
    let all = joined_with(parts, sep);
    let first = parts[0];
    let n = first.len() as int;
    assert(is_part(first, sep));
    first_at_is_first(first + sep, sep, 0);
    if parts.len() == 1 {
        first_at_is_first(first, sep, 0);
        match first_at(first, sep, 0) {
            Some(k) => {
                assert((first + sep).subrange(k, k + sep.len()) =~= first.subrange(
                    k,
                    k + sep.len(),
                ));
                assert(!occurs_at(first + sep, sep, k));
            },
            None => {},
        }
        assert(fields(all, sep) =~= parts);
    } else {
        let rest = parts.drop_first();
        assert forall|i: int| 0 <= i < rest.len() implies is_part(#[trigger] rest[i], sep) by {
            assert(rest[i] == parts[i + 1]);
        }
        fields_of_joined(rest, sep);
        let tail = joined_with(rest, sep);
        assert(all.subrange(n, n + sep.len()) =~= sep);
        assert forall|j: int| 0 <= j < n implies !occurs_at(all, sep, j) by {
            assert(all.subrange(j, j + sep.len()) =~= (first + sep).subrange(j, j + sep.len()));
            assert(!occurs_at(first + sep, sep, j));
        }
        first_at_is(all, sep, 0, n);
        assert(all.subrange(0, n) =~= first);
        assert(all.subrange(n + sep.len(), all.len() as int) =~= tail);
        assert(seq![first] + rest =~= parts);
    }
}

/// A text without a character can stand between two separators that are that character.
pub proof fn is_part_without(part: Seq<char>, c: char)
    requires
        !part.contains(c),
    ensures
        is_part(part, seq![c]),
{
    let s = part + seq![c];
    let n = part.len() as int;
    assert(s.subrange(n, n + 1) =~= seq![c]);
    assert forall|j: int| 0 <= j < n implies !occurs_at(s, seq![c], j) by {
        assert(s.subrange(j, j + 1)[0] == part[j]);
        assert(seq![c][0] == c);
        assert(part.contains(part[j]));
    }
    first_at_is(s, seq![c], 0, n);
}

/// A number written in decimal is not changed by trimming, and holds nothing but digits.
pub proof fn decimal_is_trimmed(n: nat)
    ensures
        trimmed(decimal(n)) == decimal(n),
        forall|i: int| 0 <= i < decimal(n).len() ==> is_digit(#[trigger] decimal(n)[i]),
{
    let d = decimal(n);
    decimal_digits(n);
    assert(is_digit(d[0]) && is_digit(d[d.len() - 1]));
    assert(d.subrange(0, d.len() as int) =~= d);
}

/// Standing at a position is being the beginning of what is left from there.
proof fn occurs_at_is_prefix<T>(s: Seq<T>, pat: Seq<T>, j: int)
    requires
        0 <= j <= s.len(),
    ensures
        occurs_at(s, pat, j) <==> pat.is_prefix_of(s.skip(j)),
{
    let rest = s.skip(j);
    if j + pat.len() <= s.len() {
        assert(s.subrange(j, j + pat.len()) =~= rest.subrange(0, pat.len() as int));
    }
}

/// A pattern is found at the leftmost position, from `i` on, where the text goes on with it.
pub proof fn first_at_is_leftmost<T>(s: Seq<T>, pat: Seq<T>, i: int, k: int)
    requires
        0 <= i <= k <= s.len(),
        pat.is_prefix_of(s.skip(k)),
        forall|j: int| i <= j < k ==> !pat.is_prefix_of(#[trigger] s.skip(j)),
    ensures
        first_at(s, pat, i) == Some(k),
{
    occurs_at_is_prefix(s, pat, k);
    assert forall|j: int| i <= j < k implies !occurs_at(s, pat, j) by {
        occurs_at_is_prefix(s, pat, j);
        assert(!pat.is_prefix_of(s.skip(j)));
    }
    first_at_is(s, pat, i, k);
}

/// A pattern is found nowhere when the text goes on with it nowhere.
pub proof fn first_at_is_nowhere<T>(s: Seq<T>, pat: Seq<T>, i: int)
    requires
        0 <= i,
        forall|j: int| i <= j <= s.len() ==> !pat.is_prefix_of(#[trigger] s.skip(j)),
    ensures
        first_at(s, pat, i) is None,
{
    first_at_is_first(s, pat, i);
    match first_at(s, pat, i) {
        Some(k) => {
            occurs_at_is_prefix(s, pat, k);
            assert(!pat.is_prefix_of(s.skip(k)));
        },
        None => {},
    }
}

/// The first word from `i` on is what stands between the white space before it and the white space
/// or the end behind it.
pub proof fn word_is_found(s: Seq<char>, i: int, a: int, b: int)
    requires
        0 <= i <= a <= b <= s.len(),
        forall|j: int| i <= j < a ==> is_white(s[j]),
        forall|j: int| a <= j < b ==> !is_white(s[j]),
        a == b ==> a == s.len(),
        b == s.len() || is_white(s[b]),
    ensures
        word_at(s, i) == (a, b),
{
    white_end_is(s, i, a);
    word_end_is(s, a, b);
}

/// Trimming takes away the white space around a text, and nothing of what it surrounds.
pub proof fn trimming_takes_white_space(before: Seq<char>, inner: Seq<char>, after: Seq<char>)
    requires
        forall|i: int| 0 <= i < before.len() ==> is_white(#[trigger] before[i]),
        forall|i: int| 0 <= i < after.len() ==> is_white(#[trigger] after[i]),
        inner.len() > 0 ==> !is_white(inner[0]) && !is_white(inner[inner.len() - 1]),
    ensures
        trimmed(before + inner + after) == inner,
{
    let s = before + inner + after;
    let a = before.len() as int;
    let b = a + inner.len();
    assert forall|j: int| 0 <= j < a implies is_white(s[j]) by {
        assert(s[j] == before[j]);
    }
    assert forall|j: int| b <= j < s.len() implies is_white(s[j]) by {
        assert(s[j] == after[j - b]);
    }
    if inner.len() == 0 {
        assert forall|j: int| 0 <= j < s.len() implies is_white(s[j]) by {}
        white_end_is(s, 0, s.len() as int);
        assert(trimmed(s) =~= inner);
    } else {
        assert(s[a] == inner[0]);
        assert(s[b - 1] == inner[inner.len() - 1]);
        white_end_is(s, 0, a);
        trimmed_end_is(s, s.len() as int, b);
        assert(s.subrange(a, b) =~= inner);
    }
}

/// Trailing white space starts behind the last character that is something else.
proof fn trimmed_end_is(s: Seq<char>, n: int, b: int)
    requires
        0 < b <= n <= s.len(),
        !is_white(s[b - 1]),
        forall|j: int| b <= j < n ==> is_white(s[j]),
    ensures
        trimmed_end(s, n) == b,
    decreases n - b,
{
    if b < n {
        trimmed_end_is(s, n - 1, b);
    }
}

/// What stands before the first separator is the first field, and the other fields are those of
/// what stands behind it.
pub proof fn first_field_is_before_the_separator(a: Seq<char>, sep: Seq<char>, rest: Seq<char>)
    requires
        sep.len() > 0,
        forall|j: int| 0 <= j < a.len() ==> !sep.is_prefix_of(#[trigger] (a + sep + rest).skip(j)),
    ensures
        fields(a + sep + rest, sep) == seq![a] + fields(rest, sep),
{
    let s = a + sep + rest;
    let k = a.len() as int;
    assert(s.skip(k) =~= sep + rest);
    assert(sep =~= (sep + rest).subrange(0, sep.len() as int));
    first_at_is_leftmost(s, sep, 0, k);
    assert(s.subrange(0, k) =~= a);
    assert(s.subrange(k + sep.len(), s.len() as int) =~= rest);
}

/// A text without a separator is its only field.
pub proof fn only_field_without_a_separator(a: Seq<char>, sep: Seq<char>)
    requires
        sep.len() > 0,
        forall|j: int| 0 <= j <= a.len() ==> !sep.is_prefix_of(#[trigger] a.skip(j)),
    ensures
        fields(a, sep) == seq![a],
{
    first_at_is_nowhere(a, sep, 0);
}

/// A separator of one character begins only where that character is.
pub proof fn no_separator_without(a: Seq<char>, c: char, rest: Seq<char>, j: int)
    requires
        !a.contains(c),
        0 <= j < a.len(),
    ensures
        !seq![c].is_prefix_of((a + seq![c] + rest).skip(j)),
        !seq![c].is_prefix_of(a.skip(j)),
{
    let s = a + seq![c] + rest;
    assert(a.contains(a[j]));
    assert(s.skip(j)[0] == a[j]);
    assert(a.skip(j)[0] == a[j]);
    if seq![c].is_prefix_of(s.skip(j)) {
        assert(seq![c][0] == s.skip(j)[0]);
    }
    if seq![c].is_prefix_of(a.skip(j)) {
        assert(seq![c][0] == a.skip(j)[0]);
    }
}

/// A digit writes the number it is worth, and one more digit makes a number ten times as large and
/// adds what it is worth, up to the largest number that is allowed.
pub proof fn numbers_grow_by_digits(s: Seq<char>, d: nat, max: nat)
    requires
        d <= 9,
    ensures
        number(seq![('0' as nat + d) as char], max) == (if d <= max {
            Some(d)
        } else {
            None::<nat>
        }),
        number(s, max) matches Some(n) ==> number(s.push(('0' as nat + d) as char), max) == (if 10
            * n + d <= max {
            Some(10 * n + d)
        } else {
            None::<nat>
        }),
{
    let c = ('0' as nat + d) as char;
    let one = seq![c];
    assert(one.drop_last() =~= Seq::<char>::empty());
    reveal_with_fuel(digits_value, 2);
    assert(c != '+' && is_digit(c) && digit_value(c) == d);
    assert(unsigned_part(one) == one);
    match number(s, max) {
        Some(n) => {
            let u = unsigned_part(s);
            let t = s.push(c);
            let v = unsigned_part(t);
            assert(t[0] == s[0]);
            assert(v =~= u.push(c));
            assert(v.drop_last() =~= u);
            assert forall|i: int| 0 <= i < v.len() implies is_digit(v[i]) by {
                if i < u.len() {
                    assert(v[i] == u[i]);
                }
            }
        },
        None => {},
    }
}

/// One plus sign before the digits makes no difference.
pub proof fn one_plus_sign_is_ignored(s: Seq<char>, max: nat)
    requires
        s.len() > 0,
        s[0] != '+',
    ensures
        number(seq!['+'] + s, max) == number(s, max),
{
    let t = seq!['+'] + s;
    assert(t[0] == '+');
    assert(t.skip(1) =~= s);
}

/// A text writes no number when it is empty, a lone plus sign, or holds anything but digits behind
/// its first character; and the first character is a digit or a plus sign. A number is never
/// larger than what is allowed.
pub proof fn other_texts_are_no_numbers(s: Seq<char>, max: nat, i: int)
    ensures
        s.len() == 0 ==> number(s, max) is None,
        s == seq!['+'] ==> number(s, max) is None,
        0 < i < s.len() && !('0' <= s[i] <= '9') ==> number(s, max) is None,
        s.len() > 0 && s[0] != '+' && !('0' <= s[0] <= '9') ==> number(s, max) is None,
        number(s, max) matches Some(n) ==> n <= max,
{
    let u = unsigned_part(s);
    if s.len() > 0 && s[0] == '+' {
        assert(u.len() == s.len() - 1);
        if 0 < i < s.len() {
            assert(u[i - 1] == s[i]);
        }
    } else if 0 <= i < s.len() {
        assert(u[i] == s[i]);
    }
    if s.len() > 0 && s[0] != '+' {
        assert(u[0] == s[0]);
    }
}

/// In decimal, a number below ten is one digit, and ten times a number and a digit is that number
/// and the digit behind it.
pub proof fn decimal_grows_by_digits(n: nat, d: nat)
    requires
        d <= 9,
    ensures
        decimal(d) == seq![('0' as nat + d) as char],
        n > 0 ==> decimal(10 * n + d) == decimal(n).push(('0' as nat + d) as char),
{
    if n > 0 {
        let m = 10 * n + d;
        assert(m / 10 == n && m % 10 == d);
    }
}

/// In hexadecimal, a number below sixteen is one digit, and sixteen times a number and a digit is
/// that number and the digit behind it; the digits are `0` to `9` and `A` to `F`.
pub proof fn hex_grows_by_digits(n: nat, d: nat)
    requires
        d <= 15,
    ensures
        ({
            let c = if d <= 9 {
                ('0' as nat + d) as char
            } else {
                ('A' as nat + d - 10) as char
            };
            &&& hex(d) == seq![c]
            &&& n > 0 ==> hex(16 * n + d) == hex(n).push(c)
        }),
{
    if n > 0 {
        let m = 16 * n + d;
        assert(m / 16 == n && m % 16 == d);
    }
}

/// Among the ASCII characters, the small letters have the capital ones as their upper case, 32
/// places before them, and every other character is its own.
pub proof fn upper_case_of_ascii(c: char)
    ensures
        'a' <= c <= 'z' ==> ascii_upper(c) as int == c as int - 32,
        !('a' <= c <= 'z') ==> ascii_upper(c) == c,
{
}

} // verus!
