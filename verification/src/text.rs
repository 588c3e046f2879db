//! Characters, words and numerals: the lexical layer of a program line.
//!
//! Everything here works on slices of `char`. A `&str` is first spread
//! into a `Vec<char>` by [`chars_of`], so that positions are character
//! positions throughout.

use vstd::prelude::*;

verus! {

/// Whether `c` is white space: the code points with the Unicode property
/// `White_Space`.
pub open spec fn is_space(c: char) -> bool {
    let u: u32 = c as u32;
    ||| 0x09 <= u <= 0x0D
    ||| u == 0x20
    ||| u == 0x85
    ||| u == 0xA0
    ||| u == 0x1680
    ||| 0x2000 <= u <= 0x200A
    ||| u == 0x2028
    ||| u == 0x2029
    ||| u == 0x202F
    ||| u == 0x205F
    ||| u == 0x3000
}

/// Tests a character for white space.
pub fn is_whitespace(c: char) -> (r: bool)
    ensures
        r == is_space(c),
{
    let u: u32 = c as u32;
    (0x09 <= u && u <= 0x0D) || u == 0x20 || u == 0x85 || u == 0xA0 || u == 0x1680 || (0x2000 <= u
        && u <= 0x200A) || u == 0x2028 || u == 0x2029 || u == 0x202F || u == 0x205F || u == 0x3000
}

/// The characters of a string slice, in order.
pub fn chars_of(s: &str) -> (r: Vec<char>)
    ensures
        r@ == s@,
{
    let mut out: Vec<char> = Vec::new();
    for c in it: s.chars()
        invariant
            out@ == s@.take(it.index() as int),
            it.seq() == s@,
    {
        out.push(c);
    }
    out
}

/// Whether the characters of `text` spell `word`.
pub fn spells(text: &[char], word: &str) -> (r: bool)
    ensures
        r == (text@ == word@),
{
    let w: Vec<char> = chars_of(word);
    if w.len() != text.len() {
        return false;
    }
    let mut k: usize = 0;
    while k < w.len()
        invariant
            w.len() == text.len(),
            k <= w.len(),
            w@ == word@,
            forall|j: int| 0 <= j < k ==> text[j] == w[j],
        decreases w.len() - k,
    {
        if text[k] != w[k] {
            assert(text@[k as int] != word@[k as int]);
            return false;
        }
        k += 1;
    }
    assert(text@ =~= word@);
    true
}

// ----------------------------------------------------------------------
// Words
// ----------------------------------------------------------------------

/// Where the run of non-space characters that starts at `i` ends: the first
/// position at or after `i` that holds white space, or the length of `s`.
pub open spec fn word_end(s: Seq<char>, i: int) -> int
    decreases s.len() - i,
{
    if 0 <= i < s.len() && !is_space(s[i]) {
        word_end(s, i + 1)
    } else {
        i
    }
}

/// `word_end` stays within the sequence, moves past a non-space character,
/// and stops on white space or at the end.
pub proof fn lemma_word_end(s: Seq<char>, i: int)
    requires
        0 <= i <= s.len(),
    ensures
        i <= word_end(s, i) <= s.len(),
        i < s.len() && !is_space(s[i]) ==> i < word_end(s, i),
        word_end(s, i) < s.len() ==> is_space(s[word_end(s, i)]),
        forall|k: int| i <= k < word_end(s, i) ==> !is_space(#[trigger] s[k]),
    decreases s.len() - i,
{
    if i < s.len() && !is_space(s[i]) {
        lemma_word_end(s, i + 1);
    }
}

/// The words of `s` from position `i` on, as pairs of start and end.
pub open spec fn spans_from(s: Seq<char>, i: int) -> Seq<(int, int)>
    decreases s.len() - i,
{
    if i < 0 || i >= s.len() {
        Seq::empty()
    } else if is_space(s[i]) {
        spans_from(s, i + 1)
    } else {
        proof {
            lemma_word_end(s, i);
        }
        seq![(i, word_end(s, i))] + spans_from(s, word_end(s, i))
    }
}

/// The positions of the words of `s`: its maximal runs of non-space
/// characters, from left to right.
pub open spec fn spans(s: Seq<char>) -> Seq<(int, int)> {
    spans_from(s, 0)
}

/// The words of `s`: what is left when `s` is split at white space.
pub open spec fn words(s: Seq<char>) -> Seq<Seq<char>> {
    Seq::new(spans(s).len(), |k: int| s.subrange(spans(s)[k].0, spans(s)[k].1))
}

/// The pairs of `v`, read as mathematical integers.
pub open spec fn span_ints(v: Seq<(usize, usize)>) -> Seq<(int, int)> {
    Seq::new(v.len(), |k: int| (v[k].0 as int, v[k].1 as int))
}

/// Splits `s` at white space and returns where each word starts and ends.
pub fn split_words(s: &[char]) -> (r: Vec<(usize, usize)>)
    ensures
        span_ints(r@) == spans(s@),
        forall|k: int| 0 <= k < r.len() ==> (#[trigger] r[k]).0 < r[k].1 <= s.len(),
{
    let n: usize = s.len();
    let mut out: Vec<(usize, usize)> = Vec::new();
    let mut i: usize = 0;
    while i < n
        invariant
            n == s.len(),
            i <= n,
            spans(s@) == span_ints(out@) + spans_from(s@, i as int),
            forall|k: int| 0 <= k < out.len() ==> (#[trigger] out[k]).0 < out[k].1 <= n,
        decreases n - i,
    {
        if is_whitespace(s[i]) {
            i += 1;
        } else {
            let start: usize = i;
            let mut j: usize = i + 1;
            while j < n && !is_whitespace(s[j])
                invariant
                    n == s.len(),
                    start < j <= n,
                    word_end(s@, start as int) == word_end(s@, j as int),
                decreases n - j,
            {
                j += 1;
            }
            proof {
                assert(word_end(s@, j as int) == j);
                let before: Seq<(int, int)> = span_ints(out@);
                let after: Seq<(int, int)> = span_ints(out@.push((start, j)));
                assert(after =~= before + seq![(start as int, j as int)]);
                assert(spans(s@) =~= after + spans_from(s@, j as int));
            }
            out.push((start, j));
            i = j;
        }
    }
    assert(spans(s@) =~= span_ints(out@));
    out
}

// ----------------------------------------------------------------------
// Numerals
// ----------------------------------------------------------------------

/// Whether `c` is one of the decimal digits `0` to `9`.
pub open spec fn is_digit(c: char) -> bool {
    0x30 <= c as u32 <= 0x39
}

/// The number that a decimal digit stands for.
pub open spec fn digit_value(c: char) -> int {
    c as u32 - 0x30
}

/// Whether `s` holds decimal digits only.
pub open spec fn all_digits(s: Seq<char>) -> bool {
    forall|k: int| 0 <= k < s.len() ==> is_digit(#[trigger] s[k])
}

/// The number that a row of decimal digits denotes, most significant first.
pub open spec fn digits_value(s: Seq<char>) -> int
    decreases s.len(),
{
    if s.len() == 0 {
        0
    } else {
        10 * digits_value(s.drop_last()) + digit_value(s.last())
    }
}

/// The integer that a numeral denotes: an optional `+` or `-`, then one or
/// more decimal digits and nothing else. Any other text denotes no number.
pub open spec fn numeral_value(s: Seq<char>) -> Option<int> {
    let signed: bool = s.len() > 0 && (s[0] == '-' || s[0] == '+');
    let digits: Seq<char> = if signed {
        s.skip(1)
    } else {
        s
    };
    if digits.len() > 0 && all_digits(digits) {
        if signed && s[0] == '-' {
            Some(-digits_value(digits))
        } else {
            Some(digits_value(digits))
        }
    } else {
        None
    }
}

/// The signed 32-bit integer that `s` denotes, if it denotes one that fits.
pub open spec fn parse_i32(s: Seq<char>) -> Option<i32> {
    match numeral_value(s) {
        Some(v) => if i32::MIN <= v <= i32::MAX {
            Some(v as i32)
        } else {
            None
        },
        None => None,
    }
}

/// A row of digits denotes at least as much as any of its prefixes, and
/// never a negative number.
pub proof fn lemma_digits_value_prefix(s: Seq<char>, k: int)
    requires
        all_digits(s),
        0 <= k <= s.len(),
    ensures
        0 <= digits_value(s.take(k)) <= digits_value(s),
    decreases s.len() - k,
{
    if k == s.len() {
        assert(s.take(k) =~= s);
        lemma_digits_value_nonnegative(s);
    } else {
        lemma_digits_value_prefix(s.drop_last(), k);
        assert(s.drop_last().take(k) =~= s.take(k));
        assert(is_digit(s[s.len() - 1]));
    }
}

/// A row of digits never denotes a negative number.
pub proof fn lemma_digits_value_nonnegative(s: Seq<char>)
    requires
        all_digits(s),
    ensures
        0 <= digits_value(s),
    decreases s.len(),
{
    if s.len() > 0 {
        lemma_digits_value_nonnegative(s.drop_last());
        assert(is_digit(s[s.len() - 1]));
    }
}

/// Reads `text` as a signed 32-bit integer.
pub fn parse_int(text: &[char]) -> (r: Option<i32>)
    ensures
        r == parse_i32(text@),
{
    let end: usize = text.len();
    if end == 0 {
        return None;
    }
    let first: char = text[0];
    let negative: bool = first == '-';
    let from: usize = if first == '-' || first == '+' {
        1
    } else {
        0
    };
    let ghost digits: Seq<char> = text@.skip(from as int);
    assert(from == 0 ==> digits =~= text@);
    if from == end {
        return None;
    }
    assert(numeral_value(text@) == if all_digits(digits) {
        Some(
            if negative {
                -digits_value(digits)
            } else {
                digits_value(digits)
            },
        )
    } else {
        None
    });
    let mut acc: i64 = 0;
    let mut i: usize = from;
    while i < end
        invariant
            from <= i <= end == text.len(),
            digits == text@.skip(from as int),
            numeral_value(text@) == if all_digits(digits) {
                Some(
                    if negative {
                        -digits_value(digits)
                    } else {
                        digits_value(digits)
                    },
                )
            } else {
                None
            },
            all_digits(digits.take(i - from)),
            acc == digits_value(digits.take(i - from)),
            0 <= acc <= 0x8000_0000,
        decreases end - i,
    {
        let u: u32 = text[i] as u32;
        if u < 0x30 || u > 0x39 {
            assert(!is_digit(digits[i - from]));
            return None;
        }
        let d: i64 = (u - 0x30) as i64;
        acc = acc * 10 + d;
        i += 1;
        proof {
            let now: Seq<char> = digits.take(i - from);
            assert(now.drop_last() =~= digits.take(i - from - 1));
            assert(now.last() == text[i - 1]);
            assert forall|k: int| 0 <= k < now.len() implies is_digit(#[trigger] now[k]) by {
                if k < now.len() - 1 {
                    assert(now[k] == digits.take(i - from - 1)[k]);
                }
            }
        }
        if acc > 0x8000_0000 {
            proof {
                if all_digits(digits) {
                    lemma_digits_value_prefix(digits, i - from);
                }
            }
            return None;
        }
    }
    assert(digits.take(i - from) =~= digits);
    if negative {
        Some((-acc) as i32)
    } else if acc > 0x7fff_ffff {
        None
    } else {
        Some(acc as i32)
    }
}

// ----------------------------------------------------------------------
// Surrounding white space
// ----------------------------------------------------------------------

/// Where the run of white space that starts at `i` ends: the first position
/// at or after `i` that holds no white space, or the length of `s`.
pub open spec fn space_end(s: Seq<char>, i: int) -> int
    decreases s.len() - i,
{
    if 0 <= i < s.len() && is_space(s[i]) {
        space_end(s, i + 1)
    } else {
        i
    }
}

/// Where the run of white space that ends before `j` starts.
pub open spec fn space_start(s: Seq<char>, j: int) -> int
    decreases j,
{
    if 0 < j <= s.len() && is_space(s[j - 1]) {
        space_start(s, j - 1)
    } else {
        j
    }
}

/// `s` without the white space at its two ends.
pub open spec fn trimmed(s: Seq<char>) -> Seq<char> {
    let a: int = space_end(s, 0);
    let b: int = space_start(s, s.len() as int);
    if a <= b {
        s.subrange(a, b)
    } else {
        Seq::empty()
    }
}

/// Finds the part of `s` that is left when the white space at both ends is
/// taken away.
pub fn trim_bounds(s: &[char]) -> (r: (usize, usize))
    ensures
        r.0 <= r.1 <= s.len(),
        s@.subrange(r.0 as int, r.1 as int) == trimmed(s@),
{
    let n: usize = s.len();
    let mut a: usize = 0;
    while a < n && is_whitespace(s[a])
        invariant
            n == s.len(),
            a <= n,
            space_end(s@, 0) == space_end(s@, a as int),
            forall|k: int| 0 <= k < a ==> is_space(#[trigger] s[k]),
        decreases n - a,
    {
        a += 1;
    }
    let mut b: usize = n;
    while b > a && is_whitespace(s[b - 1])
        invariant
            n == s.len(),
            a <= b <= n,
            space_start(s@, n as int) == space_start(s@, b as int),
            forall|k: int| 0 <= k < a ==> is_space(#[trigger] s[k]),
            forall|k: int| b <= k < n ==> is_space(#[trigger] s[k]),
            a < n ==> !is_space(s[a as int]),
        decreases b,
    {
        b -= 1;
    }
    proof {
        assert(space_end(s@, 0) == a);
        if b > a {
            assert(space_start(s@, n as int) == b);
        } else {
            lemma_space_start_bound(s@, n as int, 0);
            assert(s@.subrange(a as int, b as int) =~= Seq::<char>::empty());
        }
    }
    (a, b)
}

/// If everything from `a` to `j` is white space, the run of white space
/// that ends before `j` starts at `a` or earlier.
proof fn lemma_space_start_bound(s: Seq<char>, j: int, a: int)
    requires
        0 <= a <= j <= s.len(),
        forall|k: int| a <= k < j ==> is_space(#[trigger] s[k]),
    ensures
        0 <= space_start(s, j) <= a,
    decreases j,
{
    if j > a {
        assert(is_space(s[j - 1]));
        lemma_space_start_bound(s, j - 1, a);
    } else if j > 0 && is_space(s[j - 1]) {
        lemma_space_start_bound(s, j - 1, j - 1);
    }
}

// ----------------------------------------------------------------------
// Decimal text
// ----------------------------------------------------------------------

/// The character that stands for the digit `d`.
pub open spec fn digit_char(d: int) -> char {
    seq!['0', '1', '2', '3', '4', '5', '6', '7', '8', '9'][d]
}

/// The decimal digits of a natural number, without leading zeros.
pub open spec fn decimal_nat(n: nat) -> Seq<char>
    decreases n,
{
    if n < 10 {
        seq![digit_char(n as int)]
    } else {
        decimal_nat(n / 10).push(digit_char((n % 10) as int))
    }
}

/// The decimal text of an integer: a `-` for a negative number, then its
/// digits.
pub open spec fn decimal(v: int) -> Seq<char> {
    if v < 0 {
        seq!['-'] + decimal_nat((-v) as nat)
    } else {
        decimal_nat(v as nat)
    }
}

/// The text of one decimal digit.
fn digit_str(d: u32) -> (r: &'static str)
    requires
        d < 10,
    ensures
        r@ == seq![digit_char(d as int)],
{
    proof {
        reveal_strlit("0");
        reveal_strlit("1");
        reveal_strlit("2");
        reveal_strlit("3");
        reveal_strlit("4");
        reveal_strlit("5");
        reveal_strlit("6");
        reveal_strlit("7");
        reveal_strlit("8");
        reveal_strlit("9");
    }
    let r: &'static str = match d {
        0 => "0",
        1 => "1",
        2 => "2",
        3 => "3",
        4 => "4",
        5 => "5",
        6 => "6",
        7 => "7",
        8 => "8",
        _ => "9",
    };
    assert(r@ =~= seq![digit_char(d as int)]);
    r
}

/// Writes a natural number in decimal.
fn render_nat(n: u32) -> (r: String)
    ensures
        r@ == decimal_nat(n as nat),
    decreases n,
{
    if n < 10 {
        digit_str(n).to_owned()
    } else {
        let mut text: String = render_nat(n / 10);
        text.append(digit_str(n % 10));
        text
    }
}

/// Writes a signed 32-bit integer in decimal.
pub fn render(v: i32) -> (r: String)
    ensures
        r@ == decimal(v as int),
{
    if v < 0 {
        let magnitude: u32 = (-(v as i64)) as u32;
        let mut text: String = "-".to_owned();
        proof {
            reveal_strlit("-");
            assert("-"@ =~= seq!['-']);
        }
        text.append(render_nat(magnitude).as_str());
        text
    } else {
        render_nat(v as u32)
    }
}

} // verus!
