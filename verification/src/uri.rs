//! The payment locator.
//!
//! A Payjoin payment is initiated from a structured locator string that
//! carries the receiver's address, an optional amount and the relay
//! endpoint: `bitcoin:<address>?amount=<btc>&pj=<endpoint>`, with the
//! amount part absent when no amount was requested. The amount is a
//! decimal count of whole bitcoins with up to eight fractional digits,
//! the scheme is matched in any letter case, and only ASCII locators
//! are accepted.

use vstd::prelude::*;

use vstd::string::StrSliceExecFns;
use vstd::string::StringExecFns;

use crate::error::Error;

verus! {

/// A parsed payment locator.
#[derive(Debug)]
pub struct PjUri {
    pub address: String,
    pub amount_sats: Option<u64>,
    pub endpoint: String,
}

/// Mathematical view of a [`PjUri`].
#[verifier::ext_equal]
pub struct PjUriV {
    pub address: Seq<char>,
    pub amount_sats: Option<u64>,
    pub endpoint: Seq<char>,
}

impl View for PjUri {
    type V = PjUriV;

    open spec fn view(&self) -> PjUriV {
        PjUriV {
            address: self.address@,
            amount_sats: self.amount_sats,
            endpoint: self.endpoint@,
        }
    }
}

impl DeepView for PjUri {
    type V = PjUriV;

    open spec fn deep_view(&self) -> PjUriV {
        self.view()
    }
}

/// Whether every character of a sequence is ASCII.
pub open spec fn ascii_seq(s: Seq<char>) -> bool {
    vstd::utf8::is_ascii_chars(s)
}

impl PjUriV {
    /// A locator is valid when its address is a nonempty ASCII string
    /// free of the query separator and its endpoint is ASCII; such a
    /// locator round-trips through its string form.
    pub open spec fn wf(self) -> bool {
        &&& self.address.len() > 0
        &&& ascii_seq(self.address)
        &&& forall|i: int| 0 <= i < self.address.len() ==> self.address[i] != '?'
        &&& ascii_seq(self.endpoint)
    }
}

/// The locator's scheme prefix, `bitcoin:`.
pub open spec fn scheme_chars() -> Seq<char> {
    seq!['b', 'i', 't', 'c', 'o', 'i', 'n', ':']
}

/// The amount parameter's key, `amount=`.
pub open spec fn amount_kw_chars() -> Seq<char> {
    seq!['a', 'm', 'o', 'u', 'n', 't', '=']
}

/// The separator between the amount and the endpoint, `&pj=`.
pub open spec fn amp_pj_chars() -> Seq<char> {
    seq!['&', 'p', 'j', '=']
}

/// The endpoint parameter's key, `pj=`.
pub open spec fn pj_kw_chars() -> Seq<char> {
    seq!['p', 'j', '=']
}

/// The position of the first occurrence of `c` in `s`, or -1.
pub open spec fn find_char(s: Seq<char>, c: char) -> int
    decreases s.len(),
{
    if s.len() == 0 {
        -1
    } else if s[0] == c {
        0
    } else {
        let r = find_char(s.skip(1), c);
        if r < 0 {
            -1
        } else {
            r + 1
        }
    }
}

/// `find_char` returns the first occurrence: nothing before it matches,
/// and -1 means nothing matches at all.
pub proof fn lemma_find_char(s: Seq<char>, c: char)
    ensures
        find_char(s, c) >= 0 ==> find_char(s, c) < s.len() && s[find_char(s, c)] == c && forall|
            k: int,
        | 0 <= k < find_char(s, c) ==> s[k] != c,
        find_char(s, c) < 0 ==> forall|k: int| 0 <= k < s.len() ==> s[k] != c,
    decreases s.len(),
{
    if s.len() > 0 && s[0] != c {
        lemma_find_char(s.skip(1), c);
        let r = find_char(s.skip(1), c);
        if r >= 0 {
            assert forall|k: int| 0 <= k < r + 1 implies s[k] != c by {
                if k > 0 {
                    assert(s.skip(1)[k - 1] != c);
                }
            }
        } else {
            assert forall|k: int| 0 <= k < s.len() implies s[k] != c by {
                if k > 0 {
                    assert(s.skip(1)[k - 1] != c);
                }
            }
        }
    }
}

/// Whether a character is a decimal digit.
pub open spec fn is_digit_char(c: char) -> bool {
    48 <= c as u32 <= 57
}

/// The value of a decimal digit character.
pub open spec fn digit_val(c: char) -> int {
    c as u32 - 48
}

/// The number of leading decimal digits of `s`.
pub open spec fn digit_run(s: Seq<char>) -> int
    decreases s.len(),
{
    if s.len() == 0 {
        0
    } else if !is_digit_char(s[0]) {
        0
    } else {
        1 + digit_run(s.skip(1))
    }
}

/// `digit_run` counts exactly the leading digits.
pub proof fn lemma_digit_run(s: Seq<char>)
    ensures
        0 <= digit_run(s) <= s.len(),
        forall|k: int| 0 <= k < digit_run(s) ==> is_digit_char(s[k]),
        digit_run(s) < s.len() ==> !is_digit_char(s[digit_run(s)]),
    decreases s.len(),
{
    if s.len() > 0 && is_digit_char(s[0]) {
        lemma_digit_run(s.skip(1));
        assert forall|k: int| 0 <= k < digit_run(s) implies is_digit_char(s[k]) by {
            if k > 0 {
                assert(is_digit_char(s.skip(1)[k - 1]));
            }
        }
        if digit_run(s) < s.len() {
            assert(s[digit_run(s)] == s.skip(1)[digit_run(s.skip(1))]);
        }
    }
}

/// The number denoted by a sequence of decimal digit characters.
pub open spec fn dec_value(s: Seq<char>) -> int
    decreases s.len(),
{
    if s.len() == 0 {
        0
    } else {
        dec_value(s.drop_last()) * 10 + digit_val(s.last())
    }
}

/// The value of a digit sequence is nonnegative, and appending more
/// digits never decreases it.
pub proof fn lemma_dec_value_bounds(s: Seq<char>)
    requires
        forall|k: int| 0 <= k < s.len() ==> is_digit_char(s[k]),
    ensures
        dec_value(s) >= 0,
        forall|m: int| 0 <= m <= s.len() ==> #[trigger] dec_value(s.take(m)) <= dec_value(s),
    decreases s.len(),
{
    if s.len() > 0 {
        assert(forall|k: int| 0 <= k < s.drop_last().len() ==> is_digit_char(s.drop_last()[k]));
        lemma_dec_value_bounds(s.drop_last());
        assert(dec_value(s) >= dec_value(s.drop_last()) * 10 + 0);
        assert(dec_value(s.drop_last()) * 10 >= dec_value(s.drop_last())) by (nonlinear_arith)
            requires
                dec_value(s.drop_last()) >= 0,
        ;
        assert forall|m: int| 0 <= m <= s.len() implies #[trigger] dec_value(s.take(m))
            <= dec_value(s) by {
            if m < s.len() {
                assert(s.take(m) =~= s.drop_last().take(m));
            } else {
                assert(s.take(m) =~= s);
            }
        }
    }
}

/// Satoshis in one whole bitcoin: the scale of the locator's amount
/// notation.
pub const SATS_PER_BTC: u64 = 100_000_000;

/// Ten to the `e`-th power.
pub open spec fn pow10(e: int) -> int
    decreases e,
{
    if e <= 0 {
        1
    } else {
        10 * pow10(e - 1)
    }
}

/// The powers of ten the amount notation uses.
pub proof fn lemma_pow10_vals()
    ensures
        pow10(0) == 1,
        pow10(1) == 10,
        pow10(2) == 100,
        pow10(3) == 1000,
        pow10(4) == 10000,
        pow10(5) == 100000,
        pow10(6) == 1000000,
        pow10(7) == 10000000,
        pow10(8) == 100000000,
{
    assert(pow10(0) == 1);
    assert(pow10(1) == 10);
    assert(pow10(2) == 100);
    assert(pow10(3) == 1000);
    assert(pow10(4) == 10000);
    assert(pow10(5) == 100000);
    assert(pow10(6) == 1000000);
    assert(pow10(7) == 10000000);
    assert(pow10(8) == 100000000);
}

/// The decimal notation of `n`, zero-padded on the left to `width`
/// digits.
pub open spec fn padded_digits(n: int, width: int) -> Seq<char>
    decreases width,
{
    if width <= 0 {
        Seq::empty()
    } else {
        padded_digits(n / 10, width - 1).push(digit_char(n % 10))
    }
}

/// Padded notation consists of digits and denotes the number it was
/// made from.
pub proof fn lemma_padded_digits(n: int, width: int)
    requires
        0 <= n < pow10(width),
        0 <= width,
    ensures
        padded_digits(n, width).len() == width,
        forall|k: int|
            0 <= k < width ==> is_digit_char(#[trigger] padded_digits(n, width)[k]),
        dec_value(padded_digits(n, width)) == n,
    decreases width,
{
    if width > 0 {
        assert(n / 10 < pow10(width - 1)) by (nonlinear_arith)
            requires
                0 <= n < 10 * pow10(width - 1),
        ;
        lemma_padded_digits(n / 10, width - 1);
        let s = padded_digits(n, width);
        assert(s.drop_last() =~= padded_digits(n / 10, width - 1));
        assert(0 <= n % 10 <= 9);
        assert(s.last() == digit_char(n % 10));
        assert(digit_val(digit_char(n % 10)) == n % 10);
        assert((n / 10) * 10 + n % 10 == n) by (nonlinear_arith)
            requires
                n >= 0,
        ;
        assert forall|k: int| 0 <= k < width implies is_digit_char(#[trigger] s[k]) by {
            if k < width - 1 {
                assert(s[k] == padded_digits(n / 10, width - 1)[k]);
            }
        }
    }
}

/// A digit string with its trailing zeros removed.
pub open spec fn trim_zeros(s: Seq<char>) -> Seq<char>
    decreases s.len(),
{
    if s.len() > 0 && s.last() == '0' {
        trim_zeros(s.drop_last())
    } else {
        s
    }
}

/// Trimming trailing zeros keeps a prefix that denotes the same number
/// up to the dropped scale, never ends in a zero, and is nonempty
/// whenever the number is not zero.
pub proof fn lemma_trim_zeros(s: Seq<char>)
    requires
        forall|k: int| 0 <= k < s.len() ==> is_digit_char(s[k]),
    ensures
        trim_zeros(s).len() <= s.len(),
        trim_zeros(s) == s.take(trim_zeros(s).len() as int),
        forall|k: int| 0 <= k < trim_zeros(s).len() ==> is_digit_char(#[trigger] trim_zeros(s)[k]),
        dec_value(trim_zeros(s)) * pow10(s.len() - trim_zeros(s).len()) == dec_value(s),
        dec_value(s) != 0 ==> trim_zeros(s).len() > 0,
        trim_zeros(s).len() > 0 ==> trim_zeros(s).last() != '0',
    decreases s.len(),
{
    if s.len() > 0 && s.last() == '0' {
        assert(forall|k: int| 0 <= k < s.drop_last().len() ==> is_digit_char(s.drop_last()[k]));
        lemma_trim_zeros(s.drop_last());
        let t = trim_zeros(s);
        assert(t == trim_zeros(s.drop_last()));
        assert(s.drop_last().take(t.len() as int) =~= s.take(t.len() as int));
        assert(digit_val('0') == 0);
        assert(dec_value(s) == dec_value(s.drop_last()) * 10);
        let e = s.drop_last().len() - t.len();
        assert(pow10(e + 1) == 10 * pow10(e));
        assert(dec_value(t) * pow10(e + 1) == dec_value(t) * pow10(e) * 10) by (nonlinear_arith)
            requires
                pow10(e + 1) == 10 * pow10(e),
        ;
    } else {
        assert(trim_zeros(s) == s);
        assert(s.take(s.len() as int) =~= s);
        assert(pow10(0) == 1);
    }
}

/// The locator's amount notation: whole bitcoins, and — when the amount
/// is no whole number of them — a point and the fractional satoshis as
/// up to eight decimals, trailing zeros trimmed.
pub open spec fn btc_amount_chars(sats: u64) -> Seq<char> {
    let whole = sats as int / (SATS_PER_BTC as int);
    let frac = sats as int % (SATS_PER_BTC as int);
    if frac == 0 {
        dec_chars(whole)
    } else {
        dec_chars(whole) + seq!['.'] + trim_zeros(padded_digits(frac, 8))
    }
}

/// Case-insensitive match of one character against a lowercase one.
pub open spec fn eq_ci(c: char, lc: char) -> bool {
    c == lc || ('a' <= lc <= 'z' && c as u32 == lc as u32 - 32)
}

/// Whether `s` opens with the locator scheme, in any letter case.
pub open spec fn scheme_matches(s: Seq<char>) -> bool {
    s.len() >= 8 && forall|i: int| 0 <= i < 8 ==> eq_ci(s[i], #[trigger] scheme_chars()[i])
}

/// The result of parsing a locator string: the deterministic grammar
/// the engine accepts. `None` stands for every string the engine
/// rejects: not ASCII, not of the scheme, an empty address, a missing or
/// malformed parameter, or an amount beyond the largest representable
/// value.
pub open spec fn spec_parse(s: Seq<char>) -> Option<PjUriV> {
    if !ascii_seq(s) {
        None
    } else if !scheme_matches(s) {
        None
    } else {
        let rest = s.skip(8);
        let q = find_char(rest, '?');
        if q <= 0 {
            None
        } else {
            let address = rest.take(q);
            let tail = rest.skip(q + 1);
            if tail.len() >= 7 && tail.take(7) == amount_kw_chars() {
                let t2 = tail.skip(7);
                let k1 = digit_run(t2);
                if k1 == 0 {
                    None
                } else {
                    let whole = dec_value(t2.take(k1));
                    let has_frac = k1 < t2.len() && t2[k1] == '.';
                    let k2 = if has_frac {
                        digit_run(t2.skip(k1 + 1))
                    } else {
                        0
                    };
                    if has_frac && (k2 == 0 || k2 > 8) {
                        None
                    } else {
                        let frac = if has_frac {
                            dec_value(t2.skip(k1 + 1).take(k2)) * pow10(8 - k2)
                        } else {
                            0
                        };
                        let sats = whole * (SATS_PER_BTC as int) + frac;
                        let amount_end = if has_frac {
                            k1 + 1 + k2
                        } else {
                            k1
                        };
                        if sats > u64::MAX as int {
                            None
                        } else if t2.len() - amount_end < 4 || t2.skip(amount_end).take(4)
                            != amp_pj_chars() {
                            None
                        } else {
                            Some(
                                PjUriV {
                                    address,
                                    amount_sats: Some(sats as u64),
                                    endpoint: t2.skip(amount_end + 4),
                                },
                            )
                        }
                    }
                }
            } else if tail.len() >= 3 && tail.take(3) == pj_kw_chars() {
                Some(PjUriV { address, amount_sats: None, endpoint: tail.skip(3) })
            } else {
                None
            }
        }
    }
}

/// Dropping a prefix of an ASCII sequence leaves an ASCII sequence.
pub proof fn lemma_ascii_skip(s: Seq<char>, a: int)
    requires
        ascii_seq(s),
        0 <= a <= s.len(),
    ensures
        ascii_seq(s.skip(a)),
{
    assert forall|i: int| 0 <= i < s.skip(a).len() implies '\0' <= #[trigger] s.skip(a)[i]
        <= '\u{7f}' by {
        assert(s.skip(a)[i] == s[a + i]);
    }
}

/// Taking a prefix of an ASCII sequence leaves an ASCII sequence.
pub proof fn lemma_ascii_take(s: Seq<char>, a: int)
    requires
        ascii_seq(s),
        0 <= a <= s.len(),
    ensures
        ascii_seq(s.take(a)),
{
    assert forall|i: int| 0 <= i < s.take(a).len() implies '\0' <= #[trigger] s.take(a)[i]
        <= '\u{7f}' by {
        assert(s.take(a)[i] == s[i]);
    }
}

/// Whatever the engine's parser accepts is a valid locator.
pub proof fn lemma_spec_parse_wf(s: Seq<char>)
    ensures
        spec_parse(s) matches Some(u) ==> u.wf(),
{
    if spec_parse(s) is Some {
        let rest = s.skip(8);
        let q = find_char(rest, '?');
        lemma_find_char(rest, '?');
        lemma_ascii_skip(s, 8);
        lemma_ascii_take(rest, q);
        lemma_ascii_skip(rest, q + 1);
        let tail = rest.skip(q + 1);
        let u = spec_parse(s)->Some_0;
        assert forall|i: int| 0 <= i < u.address.len() implies u.address[i] != '?' by {
            assert(u.address[i] == rest[i]);
        }
        if tail.len() >= 7 && tail.take(7) == amount_kw_chars() {
            let t2 = tail.skip(7);
            let k1 = digit_run(t2);
            lemma_digit_run(t2);
            let has_frac = k1 < t2.len() && t2[k1] == '.';
            let k2 = if has_frac {
                digit_run(t2.skip(k1 + 1))
            } else {
                0
            };
            if has_frac {
                lemma_digit_run(t2.skip(k1 + 1));
            }
            let amount_end = if has_frac {
                k1 + 1 + k2
            } else {
                k1
            };
            lemma_ascii_skip(tail, 7);
            lemma_ascii_skip(t2, amount_end + 4);
        } else {
            lemma_ascii_skip(tail, 3);
        }
    }
}

/// Compares the region of `s` beginning at `from` with `pat`.
fn region_eq(s: &str, from: usize, pat: &str) -> (r: bool)
    requires
        from <= s@.len(),
    ensures
        r <==> (from + pat@.len() <= s@.len() && s@.subrange(
            from as int,
            from as int + pat@.len(),
        ) == pat@),
{
    let n = pat.unicode_len();
    let sl = s.unicode_len();
    if n > sl - from {
        return false;
    }
    let mut i: usize = 0;
    while i < n
        invariant
            i <= n,
            n == pat@.len(),
            from + n <= s@.len(),
            s@.len() <= usize::MAX,
            forall|k: int| 0 <= k < i ==> s@[from + k] == pat@[k],
        decreases n - i,
    {
        let a = s.get_char(from + i);
        let b = pat.get_char(i);
        if a != b {
            proof {
                assert(s@.subrange(from as int, from as int + pat@.len())[i as int] == s@[from
                    + i]);
            }
            return false;
        }
        i += 1;
    }
    proof {
        assert(s@.subrange(from as int, from as int + pat@.len()) =~= pat@);
    }
    true
}

/// Whether the character at `i` is a decimal digit.
fn is_digit_at(s: &str, i: usize) -> (r: bool)
    requires
        i < s@.len(),
    ensures
        r == is_digit_char(s@[i as int]),
{
    let c = s.get_char(i);
    let v = c as u32;
    48 <= v && v <= 57
}

/// Whether the character at `i` is the query separator.
fn is_question_at(s: &str, i: usize) -> (r: bool)
    requires
        i < s@.len(),
    ensures
        r == (s@[i as int] == '?'),
{
    s.get_char(i) == '?'
}

/// The first position of the query separator at or after `from`.
#[verifier::loop_isolation(false)]
fn find_question(s: &str, from: usize) -> (r: Option<usize>)
    requires
        from <= s@.len(),
        s@.len() <= usize::MAX,
    ensures
        match r {
            Some(i) => from <= i < s@.len() && s@[i as int] == '?' && forall|k: int|
                from <= k < i ==> s@[k] != '?',
            None => forall|k: int| from <= k < s@.len() ==> s@[k] != '?',
        },
{
    let len = s.unicode_len();
    let mut i: usize = from;
    while i < len && !is_question_at(s, i)
        invariant
            from <= i <= len,
            forall|k: int| from <= k < i ==> s@[k] != '?',
        decreases len - i,
    {
        i += 1;
    }
    if i < len {
        Some(i)
    } else {
        None
    }
}

/// The end of the run of decimal digits beginning at `from`.
#[verifier::loop_isolation(false)]
fn scan_digits(s: &str, from: usize) -> (r: usize)
    requires
        from <= s@.len(),
        s@.len() <= usize::MAX,
    ensures
        from <= r <= s@.len(),
        forall|k: int| from <= k < r ==> is_digit_char(s@[k]),
        r < s@.len() ==> !is_digit_char(s@[r as int]),
{
    let len = s.unicode_len();
    let mut i: usize = from;
    while i < len && is_digit_at(s, i)
        invariant
            from <= i <= len,
            forall|k: int| from <= k < i ==> is_digit_char(s@[k]),
        decreases len - i,
    {
        i += 1;
    }
    i
}

/// A digit string denotes less than ten to its length.
pub proof fn lemma_dec_value_upper(s: Seq<char>)
    requires
        forall|k: int| 0 <= k < s.len() ==> is_digit_char(s[k]),
    ensures
        dec_value(s) < pow10(s.len() as int),
    decreases s.len(),
{
    if s.len() > 0 {
        assert(forall|k: int| 0 <= k < s.drop_last().len() ==> is_digit_char(s.drop_last()[k]));
        lemma_dec_value_upper(s.drop_last());
        assert(0 <= digit_val(s.last()) <= 9);
        assert(dec_value(s.drop_last()) * 10 + digit_val(s.last()) < 10 * pow10(
            s.drop_last().len() as int,
        )) by (nonlinear_arith)
            requires
                dec_value(s.drop_last()) < pow10(s.drop_last().len() as int),
                0 <= digit_val(s.last()) <= 9,
        ;
    }
}

/// Every power of ten is positive.
pub proof fn lemma_pow10_pos(e: int)
    ensures
        pow10(e) >= 1,
    decreases e,
{
    if e > 0 {
        lemma_pow10_pos(e - 1);
    }
}

/// Powers of ten grow with the exponent.
pub proof fn lemma_pow10_mono(a: int, b: int)
    requires
        0 <= a <= b,
    ensures
        pow10(a) <= pow10(b),
    decreases b,
{
    if a < b {
        lemma_pow10_mono(a, b - 1);
        lemma_pow10_pos(b - 1);
    }
}

/// Ten to the `e`-th power, for the amount notation's scales.
fn pow10_u64(e: usize) -> (r: u64)
    requires
        e <= 8,
    ensures
        r as int == pow10(e as int),
{
    proof {
        lemma_pow10_vals();
    }
    if e == 0 {
        1
    } else if e == 1 {
        10
    } else if e == 2 {
        100
    } else if e == 3 {
        1000
    } else if e == 4 {
        10000
    } else if e == 5 {
        100000
    } else if e == 6 {
        1000000
    } else if e == 7 {
        10000000
    } else {
        100000000
    }
}

/// Reads the number denoted by the digits at `from..to`.
#[verifier::loop_isolation(false)]
fn read_digits(s: &str, from: usize, to: usize) -> (r: Option<u64>)
    requires
        from <= to <= s@.len(),
        forall|k: int| from <= k < to ==> is_digit_char(s@[k]),
    ensures
        match r {
            Some(v) => v as int == dec_value(s@.subrange(from as int, to as int)),
            None => dec_value(s@.subrange(from as int, to as int)) > u64::MAX as int,
        },
{
    let ghost run = s@.subrange(from as int, to as int);
    proof {
        assert forall|j: int| 0 <= j < run.len() implies is_digit_char(#[trigger] run[j]) by {
            assert(run[j] == s@[from + j]);
        }
        lemma_dec_value_bounds(run);
    }
    let mut acc: u64 = 0;
    let mut j: usize = 0;
    while j < to - from
        invariant
            0 <= j <= to - from,
            acc as int == dec_value(run.take(j as int)),
        decreases to - from - j,
    {
        let c = s.get_char(from + j);
        proof {
            assert(run[j as int] == s@[from + j]);
            assert(is_digit_char(run[j as int]));
            assert(run.take(j + 1 as int).drop_last() =~= run.take(j as int));
            assert(run.take(j + 1 as int).last() == run[j as int]);
        }
        let v = c as u32;
        let d = (v - 48) as u64;
        if acc > (u64::MAX - d) / 10 {
            proof {
                assert(dec_value(run.take(j + 1 as int)) == acc as int * 10 + d);
                assert(acc as int * 10 + d > u64::MAX as int) by (nonlinear_arith)
                    requires
                        acc as int > (u64::MAX as int - d) / 10,
                        0 <= d <= 9,
                ;
                assert(dec_value(run.take(j + 1 as int)) <= dec_value(run));
            }
            return None;
        }
        proof {
            assert(acc as int * 10 + d <= u64::MAX as int) by (nonlinear_arith)
                requires
                    acc as int <= (u64::MAX as int - d) / 10,
                    0 <= d <= 9,
            ;
        }
        acc = acc * 10 + d;
        j += 1;
    }
    proof {
        assert(run.take((to - from) as int) =~= run);
    }
    Some(acc)
}

/// Checks the locator's scheme prefix, in any letter case.
#[verifier::loop_isolation(false)]
fn scheme_eq_ci(s: &str) -> (r: bool)
    ensures
        r == scheme_matches(s@),
{
    proof {
        reveal_strlit("bitcoin:");
        assert("bitcoin:"@ =~= scheme_chars());
    }
    let len = s.unicode_len();
    if len < 8 {
        return false;
    }
    let pat = "bitcoin:";
    let mut i: usize = 0;
    while i < 8
        invariant
            i <= 8,
            8 <= s@.len(),
            pat@ == scheme_chars(),
            forall|k: int| 0 <= k < i ==> eq_ci(s@[k], #[trigger] scheme_chars()[k]),
        decreases 8 - i,
    {
        let c = s.get_char(i);
        let lc = pat.get_char(i);
        let cv = c as u32;
        let lv = lc as u32;
        let here = c == lc || (97 <= lv && lv <= 122 && cv == lv - 32);
        proof {
            assert(here == eq_ci(s@[i as int], scheme_chars()[i as int]));
        }
        if !here {
            return false;
        }
        i += 1;
    }
    true
}

/// Reads the amount notation beginning at `from`: the amount in
/// satoshis and the position just past the notation; nothing when the
/// notation is malformed, has more than eight decimals, or denotes a
/// value too large to represent.
#[verifier::loop_isolation(false)]
#[verifier::rlimit(100)]
fn read_btc_amount(s: &str, from: usize) -> (r: Option<(u64, usize)>)
    requires
        from <= s@.len(),
        s@.len() <= usize::MAX,
    ensures
        ({
            let t2 = s@.skip(from as int);
            let k1 = digit_run(t2);
            if k1 == 0 {
                r is None
            } else {
                let whole = dec_value(t2.take(k1));
                let has_frac = k1 < t2.len() && t2[k1] == '.';
                let k2 = if has_frac {
                    digit_run(t2.skip(k1 + 1))
                } else {
                    0
                };
                if has_frac && (k2 == 0 || k2 > 8) {
                    r is None
                } else {
                    let frac = if has_frac {
                        dec_value(t2.skip(k1 + 1).take(k2)) * pow10(8 - k2)
                    } else {
                        0
                    };
                    let sats = whole * (SATS_PER_BTC as int) + frac;
                    let amount_end = if has_frac {
                        k1 + 1 + k2
                    } else {
                        k1
                    };
                    if sats > u64::MAX as int {
                        r is None
                    } else {
                        r matches Some(p) && p.0 as int == sats && p.1 as int == from + amount_end
                            && from <= p.1 <= s@.len()
                    }
                }
            }
        }),
{
    let len = s.unicode_len();
    let ghost t2 = s@.skip(from as int);
    proof {
        assert forall|k: int| 0 <= k < t2.len() implies #[trigger] t2[k] == s@[from + k] by {}
    }
    // The whole-bitcoin digits.
    let di = scan_digits(s, from);
    let k1 = di - from;
    proof {
        lemma_digit_run(t2);
        let dr = digit_run(t2);
        if dr < k1 {
            assert(is_digit_char(t2[dr]));
            assert(t2[dr] == s@[from + dr]);
            assert(false);
        }
        if dr > k1 {
            assert(is_digit_char(t2[k1 as int]));
            assert(t2[k1 as int] == s@[di as int]);
            assert(false);
        }
        assert(dr == k1);
    }
    if k1 == 0 {
        return None;
    }
    // An optional point and the fractional digits.
    let has_frac = if di < len {
        s.get_char(di) == '.'
    } else {
        false
    };
    proof {
        if di < len {
            assert(t2[k1 as int] == s@[di as int]);
        }
        assert(has_frac == (k1 < t2.len() && t2[k1 as int] == '.'));
    }
    let mut k2: usize = 0;
    if has_frac {
        let fend = scan_digits(s, di + 1);
        k2 = fend - (di + 1);
        proof {
            let f2 = t2.skip(k1 + 1 as int);
            assert forall|m: int| 0 <= m < f2.len() implies #[trigger] f2[m] == s@[di + 1
                + m] by {
                assert(f2[m] == t2[k1 + 1 + m]);
            }
            lemma_digit_run(f2);
            let dr = digit_run(f2);
            if dr < k2 {
                assert(is_digit_char(f2[dr]));
                assert(false);
            }
            if dr > k2 {
                assert(is_digit_char(f2[k2 as int]));
                assert(f2[k2 as int] == s@[fend as int]);
                assert(false);
            }
            assert(dr == k2);
        }
        if k2 == 0 || k2 > 8 {
            return None;
        }
    }
    let ghost whole_spec = dec_value(t2.take(k1 as int));
    let ghost frac_spec = if has_frac {
        dec_value(t2.skip(k1 + 1 as int).take(k2 as int)) * pow10(8 - k2)
    } else {
        0int
    };
    let ghost sats_spec = whole_spec * (SATS_PER_BTC as int) + frac_spec;
    proof {
        assert(s@.subrange(from as int, di as int) =~= t2.take(k1 as int));
        if has_frac {
            assert(s@.subrange(di + 1 as int, di + 1 + k2 as int) =~= t2.skip(
                k1 + 1 as int,
            ).take(k2 as int));
            lemma_pow10_pos(8 - k2);
            let f2 = t2.skip(k1 + 1 as int);
            let fd = f2.take(k2 as int);
            assert forall|j: int| 0 <= j < fd.len() implies is_digit_char(#[trigger] fd[j]) by {
                assert(fd[j] == f2[j]);
            }
            lemma_dec_value_bounds(fd);
            assert(frac_spec >= 0) by (nonlinear_arith)
                requires
                    dec_value(t2.skip(k1 + 1 as int).take(k2 as int)) >= 0,
                    pow10(8 - k2) >= 1,
                    frac_spec == dec_value(t2.skip(k1 + 1 as int).take(k2 as int)) * pow10(8 - k2),
            ;
        }
    }
    // The whole part's value.
    let whole = match read_digits(s, from, di) {
        Some(w) => w,
        None => {
            proof {
                assert(whole_spec > u64::MAX as int);
                assert(sats_spec > u64::MAX as int) by (nonlinear_arith)
                    requires
                        whole_spec > u64::MAX as int,
                        frac_spec >= 0,
                        sats_spec == whole_spec * 100_000_000 + frac_spec,
                ;
            }
            return None;
        },
    };
    // The fractional part's value, scaled to satoshis.
    let frac_scaled: u64 = if has_frac {
        let fv = match read_digits(s, di + 1, di + 1 + k2) {
            Some(v) => v,
            None => {
                proof {
                    let f2 = t2.skip(k1 + 1 as int);
                    let fd = f2.take(k2 as int);
                    assert forall|j: int| 0 <= j < fd.len() implies is_digit_char(
                        #[trigger] fd[j],
                    ) by {
                        assert(fd[j] == f2[j]);
                    }
                    lemma_dec_value_upper(fd);
                    lemma_pow10_vals();
                    lemma_pow10_mono(k2 as int, 8);
                    assert(s@.subrange(di + 1 as int, di + 1 + k2 as int) =~= fd);
                    assert(false);
                }
                unreached()
            },
        };
        let mult = pow10_u64(8 - k2);
        proof {
            let f2 = t2.skip(k1 + 1 as int);
            let fd = f2.take(k2 as int);
            assert forall|j: int| 0 <= j < fd.len() implies is_digit_char(#[trigger] fd[j]) by {
                assert(fd[j] == f2[j]);
            }
            lemma_dec_value_upper(fd);
            lemma_pow10_vals();
            lemma_pow10_mono(k2 as int, 8);
            lemma_pow10_mono(8 - k2, 7);
            assert(fv as int * mult as int <= u64::MAX as int) by (nonlinear_arith)
                requires
                    0 <= fv as int,
                    (fv as int) < 100_000_000,
                    1 <= mult as int,
                    (mult as int) <= 10_000_000,
            ;
        }
        fv * mult
    } else {
        0
    };
    proof {
        assert(frac_scaled as int == frac_spec);
    }
    // The amount in satoshis.
    if whole > (u64::MAX - frac_scaled) / SATS_PER_BTC {
        proof {
            assert(sats_spec > u64::MAX as int) by (nonlinear_arith)
                requires
                    (whole as int) > (u64::MAX as int - frac_scaled as int) / 100_000_000,
                    0 <= frac_scaled as int,
                    (frac_scaled as int) <= u64::MAX as int,
                    sats_spec == whole as int * 100_000_000 + frac_scaled as int,
            ;
        }
        return None;
    }
    proof {
        assert(whole as int * 100_000_000 + frac_scaled as int <= u64::MAX as int)
            by (nonlinear_arith)
            requires
                (whole as int) <= (u64::MAX as int - frac_scaled as int) / 100_000_000,
                0 <= frac_scaled as int,
                (frac_scaled as int) <= u64::MAX as int,
                whole as int >= 0,
        ;
    }
    let sats = whole * SATS_PER_BTC + frac_scaled;
    let amount_end_abs = if has_frac {
        di + 1 + k2
    } else {
        di
    };
    Some((sats, amount_end_abs))
}

/// Parses a payment locator string.
///
/// Succeeds exactly on the strings the grammar [`spec_parse`] accepts,
/// and returns the locator that grammar assigns to the string; every
/// other string is rejected with [`Error::PayjoinUriInvalid`].
#[verifier::loop_isolation(false)]
#[verifier::rlimit(100)]
pub fn parse_uri(s: &str) -> (r: Result<PjUri, Error>)
    ensures
        r matches Ok(u) ==> spec_parse(s@) == Some(u@) && u@.wf(),
        r is Err ==> spec_parse(s@) is None && r == Err::<PjUri, Error>(Error::PayjoinUriInvalid),
{
    proof {
        reveal_strlit("bitcoin:");
        reveal_strlit("amount=");
        reveal_strlit("&pj=");
        reveal_strlit("pj=");
        assert("bitcoin:"@ =~= scheme_chars());
        assert("amount="@ =~= amount_kw_chars());
        assert("&pj="@ =~= amp_pj_chars());
        assert("pj="@ =~= pj_kw_chars());
    }
    if !s.is_ascii() {
        return Err(Error::PayjoinUriInvalid);
    }
    let len = s.unicode_len();
    if !scheme_eq_ci(s) {
        return Err(Error::PayjoinUriInvalid);
    }
    let ghost rest = s@.skip(8);
    let qi = match find_question(s, 8) {
        Some(i) => i,
        None => {
            proof {
                lemma_find_char(rest, '?');
                if find_char(rest, '?') >= 0 {
                    let f = find_char(rest, '?');
                    assert(rest[f] == s@[8 + f]);
                    assert(false);
                }
            }
            return Err(Error::PayjoinUriInvalid);
        },
    };
    proof {
        lemma_find_char(rest, '?');
        assert(rest[qi - 8] == s@[qi as int]);
        let f = find_char(rest, '?');
        if f < 0 {
            assert(false);
        }
        if f < qi - 8 {
            assert(rest[f] == s@[8 + f]);
            assert(false);
        }
        if f > qi - 8 {
            assert(false);
        }
        assert(f == qi - 8);
    }
    if qi == 8 {
        return Err(Error::PayjoinUriInvalid);
    }
    let ghost q = qi - 8int;
    let address = s.substring_ascii(8, qi).to_owned();
    proof {
        assert(address@ =~= rest.take(q));
    }
    let tabs = qi + 1;
    let ghost tail = rest.skip(q + 1);
    proof {
        assert forall|k: int| 0 <= k < tail.len() implies #[trigger] tail[k] == s@[tabs + k] by {
            assert(tail[k] == rest[q + 1 + k]);
        }
    }
    if region_eq(s, tabs, "amount=") {
        proof {
            assert(tail.take(7) =~= s@.subrange(tabs as int, tabs + 7));
        }
        let t2abs = tabs + 7;
        let ghost t2 = tail.skip(7);
        proof {
            assert forall|k: int| 0 <= k < t2.len() implies #[trigger] t2[k] == s@[t2abs + k] by {
                assert(t2[k] == tail[7 + k]);
            }
            assert(t2 =~= s@.skip(t2abs as int));
        }
        let (sats, amount_end_abs) = match read_btc_amount(s, t2abs) {
            Some(p) => p,
            None => {
                return Err(Error::PayjoinUriInvalid);
            },
        };
        let ghost amount_end = amount_end_abs - t2abs;
        if !region_eq(s, amount_end_abs, "&pj=") {
            proof {
                if t2.len() - amount_end >= 4 {
                    assert(t2.skip(amount_end).take(4) =~= s@.subrange(
                        amount_end_abs as int,
                        amount_end_abs + 4,
                    ));
                }
            }
            return Err(Error::PayjoinUriInvalid);
        }
        proof {
            assert(t2.skip(amount_end).take(4) =~= s@.subrange(
                amount_end_abs as int,
                amount_end_abs + 4,
            ));
        }
        let endpoint = s.substring_ascii(amount_end_abs + 4, len).to_owned();
        proof {
            assert(endpoint@ =~= t2.skip(amount_end + 4));
        }
        let u = PjUri { address, amount_sats: Some(sats), endpoint };
        proof {
            let su = spec_parse(s@)->Some_0;
            assert(u@.address =~= su.address);
            assert(u@.endpoint =~= su.endpoint);
            assert(u@ =~= su);
            lemma_spec_parse_wf(s@);
        }
        Ok(u)
    } else if region_eq(s, tabs, "pj=") {
        proof {
            assert(tail.take(3) =~= s@.subrange(tabs as int, tabs + 3));
            if tail.len() >= 7 && tail.take(7) =~= amount_kw_chars() {
                assert(tail.take(7) =~= s@.subrange(tabs as int, tabs + 7));
                assert(s@[tabs as int] == 'a');
                assert(tail.take(3)[0] == 'p');
                assert(false);
            }
        }
        let endpoint = s.substring_ascii(tabs + 3, len).to_owned();
        proof {
            assert(endpoint@ =~= tail.skip(3));
        }
        let u = PjUri { address, amount_sats: None, endpoint };
        proof {
            let su = spec_parse(s@)->Some_0;
            assert(u@.address =~= su.address);
            assert(u@.endpoint =~= su.endpoint);
            assert(u@ =~= su);
            lemma_spec_parse_wf(s@);
        }
        Ok(u)
    } else {
        proof {
            if tail.len() >= 7 && tail.take(7) =~= amount_kw_chars() {
                assert(tail.take(7) =~= s@.subrange(tabs as int, tabs + 7));
                assert(false);
            }
            if tail.len() >= 3 && tail.take(3) =~= pj_kw_chars() {
                assert(tail.take(3) =~= s@.subrange(tabs as int, tabs + 3));
                assert(false);
            }
        }
        Err(Error::PayjoinUriInvalid)
    }
}

/// The number a string denotes, when it is nothing but decimal digits
/// and denotes a representable value.
pub open spec fn parse_u64_chars(s: Seq<char>) -> Option<u64> {
    if s.len() > 0 && digit_run(s) == s.len() && dec_value(s) <= u64::MAX as int {
        Some(dec_value(s) as u64)
    } else {
        None
    }
}

/// Reads a number written in decimal.
#[verifier::loop_isolation(false)]
pub fn parse_u64_str(s: &str) -> (r: Option<u64>)
    ensures
        r == parse_u64_chars(s@),
{
    let len = s.unicode_len();
    let d = scan_digits(s, 0);
    proof {
        lemma_digit_run(s@);
        let dr = digit_run(s@);
        if dr < d {
            assert(is_digit_char(s@[dr]));
            assert(false);
        }
        if dr > d {
            assert(is_digit_char(s@[d as int]));
            assert(false);
        }
        assert(dr == d);
    }
    if len == 0 || d != len {
        return None;
    }
    proof {
        assert(forall|k: int| 0 <= k < s@.len() ==> is_digit_char(s@[k]));
        lemma_dec_value_bounds(s@);
    }
    let mut acc: u64 = 0;
    let mut j: usize = 0;
    while j < len
        invariant
            0 <= j <= len,
            acc as int == dec_value(s@.take(j as int)),
        decreases len - j,
    {
        let c = s.get_char(j);
        let v = c as u32;
        let dg = (v - 48) as u64;
        proof {
            assert(is_digit_char(s@[j as int]));
            assert(s@.take(j + 1 as int).drop_last() =~= s@.take(j as int));
            assert(s@.take(j + 1 as int).last() == s@[j as int]);
        }
        if acc > (u64::MAX - dg) / 10 {
            proof {
                assert(dec_value(s@.take(j + 1 as int)) == acc as int * 10 + dg);
                assert(acc as int * 10 + dg > u64::MAX as int) by (nonlinear_arith)
                    requires
                        acc as int > (u64::MAX as int - dg) / 10,
                        0 <= dg <= 9,
                ;
                assert(dec_value(s@.take(j + 1 as int)) <= dec_value(s@));
            }
            return None;
        }
        proof {
            assert(acc as int * 10 + dg <= u64::MAX as int) by (nonlinear_arith)
                requires
                    acc as int <= (u64::MAX as int - dg) / 10,
                    0 <= dg <= 9,
            ;
        }
        acc = acc * 10 + dg;
        j += 1;
    }
    proof {
        assert(s@.take(len as int) =~= s@);
    }
    Some(acc)
}

/// The character for one decimal digit.
pub open spec fn digit_char(d: int) -> char {
    if d == 0 {
        '0'
    } else if d == 1 {
        '1'
    } else if d == 2 {
        '2'
    } else if d == 3 {
        '3'
    } else if d == 4 {
        '4'
    } else if d == 5 {
        '5'
    } else if d == 6 {
        '6'
    } else if d == 7 {
        '7'
    } else if d == 8 {
        '8'
    } else {
        '9'
    }
}

/// The decimal notation of a nonnegative number.
pub open spec fn dec_chars(n: int) -> Seq<char>
    decreases n,
{
    if n < 10 {
        seq![digit_char(n)]
    } else {
        dec_chars(n / 10).push(digit_char(n % 10))
    }
}

/// Decimal notation consists of digits and denotes the number it was
/// made from.
pub proof fn lemma_dec_chars_value(n: int)
    requires
        n >= 0,
    ensures
        dec_chars(n).len() >= 1,
        forall|k: int| 0 <= k < dec_chars(n).len() ==> is_digit_char(#[trigger] dec_chars(n)[k]),
        dec_value(dec_chars(n)) == n,
    decreases n,
{
    if n < 10 {
        assert(dec_chars(n) =~= seq![digit_char(n)]);
        assert(dec_chars(n).drop_last() =~= Seq::<char>::empty());
        assert(dec_value(Seq::<char>::empty()) == 0);
        assert(dec_chars(n).last() == digit_char(n));
        assert(dec_value(dec_chars(n)) == dec_value(dec_chars(n).drop_last()) * 10 + digit_val(
            dec_chars(n).last(),
        ));
        assert(dec_value(dec_chars(n)) == digit_val(digit_char(n)));
    } else {
        lemma_dec_chars_value(n / 10);
        let s = dec_chars(n);
        assert(s.drop_last() =~= dec_chars(n / 10));
        assert(s.last() == digit_char(n % 10));
        assert(dec_value(s) == (n / 10) * 10 + digit_val(digit_char(n % 10)));
        assert(0 <= n % 10 <= 9);
        assert(digit_val(digit_char(n % 10)) == n % 10);
        assert((n / 10) * 10 + n % 10 == n) by (nonlinear_arith)
            requires
                n >= 0,
        ;
        assert forall|k: int| 0 <= k < s.len() implies is_digit_char(#[trigger] s[k]) by {
            if k < s.len() - 1 {
                assert(s[k] == dec_chars(n / 10)[k]);
            }
        }
    }
}

/// A one-character string for one decimal digit.
fn digit_str(d: u64) -> (r: &'static str)
    requires
        d < 10,
    ensures
        r@ == seq![digit_char(d as int)],
{
    proof {
        reveal_strlit("0");
        reveal_strlit("1");
        reveal_strlit("2");
        reveal_strlit("3");
        reveal_strlit("4");
        reveal_strlit("5");
        reveal_strlit("6");
        reveal_strlit("7");
        reveal_strlit("8");
        reveal_strlit("9");
    }
    let r = if d == 0 {
        "0"
    } else if d == 1 {
        "1"
    } else if d == 2 {
        "2"
    } else if d == 3 {
        "3"
    } else if d == 4 {
        "4"
    } else if d == 5 {
        "5"
    } else if d == 6 {
        "6"
    } else if d == 7 {
        "7"
    } else if d == 8 {
        "8"
    } else {
        "9"
    };
    proof {
        assert(r@ =~= seq![digit_char(d as int)]);
    }
    r
}

/// Writes a number in decimal notation.
pub fn u64_to_string(n: u64) -> (r: String)
    ensures
        r@ == dec_chars(n as int),
    decreases n,
{
    if n < 10 {
        digit_str(n).to_owned()
    } else {
        let mut s = u64_to_string(n / 10);
        s.append(digit_str(n % 10));
        proof {
            assert(s@ =~= dec_chars(n as int / 10).push(digit_char(n as int % 10)));
        }
        s
    }
}

/// The string form of a locator.
pub open spec fn uri_chars(u: PjUriV) -> Seq<char> {
    scheme_chars() + u.address + seq!['?'] + (match u.amount_sats {
        Some(a) => amount_kw_chars() + btc_amount_chars(a) + amp_pj_chars(),
        None => pj_kw_chars(),
    }) + u.endpoint
}

/// Writes the digits of `n`, zero-padded on the left to `width`.
fn padded_to_string(n: u64, width: usize) -> (r: String)
    requires
        (n as int) < pow10(width as int),
        width <= 8,
    ensures
        r@ == padded_digits(n as int, width as int),
    decreases width,
{
    if width == 0 {
        let r = String::new();
        proof {
            assert(r@ =~= padded_digits(n as int, 0));
        }
        r
    } else {
        proof {
            assert((n as int) / 10 < pow10(width - 1 as int)) by (nonlinear_arith)
                requires
                    0 <= n as int,
                    (n as int) < 10 * pow10(width - 1 as int),
            ;
        }
        let mut r = padded_to_string(n / 10, width - 1);
        r.append(digit_str(n % 10));
        proof {
            assert(r@ =~= padded_digits(n as int, width as int));
        }
        r
    }
}

/// Writes an amount of satoshis in the locator's notation: whole
/// bitcoins, with the fractional part as decimals when there is one.
#[verifier::loop_isolation(false)]
pub fn btc_amount_to_string(sats: u64) -> (r: String)
    ensures
        r@ == btc_amount_chars(sats),
{
    proof {
        lemma_pow10_vals();
    }
    let whole = sats / SATS_PER_BTC;
    let frac = sats % SATS_PER_BTC;
    let mut out = u64_to_string(whole);
    if frac != 0 {
        proof {
            reveal_strlit(".");
            assert("."@ =~= seq!['.']);
        }
        out.append(".");
        let ghost target = trim_zeros(padded_digits(frac as int, 8));
        let mut f = frac;
        let mut width: usize = 8;
        while f % 10 == 0
            invariant
                1 <= width <= 8,
                (f as int) < pow10(width as int),
                f != 0,
                target == trim_zeros(padded_digits(f as int, width as int)),
            decreases f,
        {
            proof {
                let p = padded_digits(f as int, width as int);
                assert(p.last() == digit_char(f as int % 10));
                assert(digit_char(0) == '0');
                assert(p.drop_last() =~= padded_digits(f as int / 10, width - 1 as int));
                assert(f >= 10) by (nonlinear_arith)
                    requires
                        f as int % 10 == 0,
                        f as int > 0,
                ;
                if width == 1 {
                    assert(pow10(1) == 10);
                    assert(false);
                }
                assert((f as int) / 10 < pow10(width - 1 as int)) by (nonlinear_arith)
                    requires
                        0 <= f as int,
                        (f as int) < 10 * pow10(width - 1 as int),
                ;
            }
            f = f / 10;
            width = width - 1;
        }
        proof {
            let p = padded_digits(f as int, width as int);
            lemma_padded_digits(f as int, width as int);
            assert(p.last() == digit_char(f as int % 10));
            assert(1 <= f as int % 10 <= 9);
            assert(digit_char(f as int % 10) != '0');
            assert(trim_zeros(p) == p);
            assert(target == p);
        }
        let fs = padded_to_string(f, width);
        out.append(fs.as_str());
        proof {
            assert(out@ =~= btc_amount_chars(sats));
        }
    } else {
        proof {
            assert(out@ =~= btc_amount_chars(sats));
        }
    }
    out
}

impl PjUri {
    /// Writes the locator in its string form.
    pub fn to_uri_string(&self) -> (r: String)
        ensures
            r@ == uri_chars(self@),
    {
        proof {
            reveal_strlit("bitcoin:");
            reveal_strlit("?");
            reveal_strlit("amount=");
            reveal_strlit("&pj=");
            reveal_strlit("pj=");
            assert("bitcoin:"@ =~= scheme_chars());
            assert("amount="@ =~= amount_kw_chars());
            assert("&pj="@ =~= amp_pj_chars());
            assert("pj="@ =~= pj_kw_chars());
            assert("?"@ =~= seq!['?']);
        }
        let mut out: String = "bitcoin:".to_owned();
        out.append(self.address.as_str());
        out.append("?");
        match &self.amount_sats {
            Some(a) => {
                out.append("amount=");
                let digits = btc_amount_to_string(*a);
                out.append(digits.as_str());
                out.append("&pj=");
            },
            None => {
                out.append("pj=");
            },
        }
        out.append(self.endpoint.as_str());
        proof {
            assert(out@ =~= uri_chars(self@));
        }
        out
    }
}

/// Builds the locator for a payment request: the receiver's address, the
/// requested amount and the relay endpoint the sender should talk to.
pub fn build_pj_uri(address: String, amount_sats: u64, pj: String) -> (r: PjUri)
    ensures
        r@.address == address@,
        r@.amount_sats == Some(amount_sats),
        r@.endpoint == pj@,
{
    PjUri { address, amount_sats: Some(amount_sats), endpoint: pj }
}

/// The chain a node runs on.
#[derive(Clone, Copy, PartialEq, Eq, Structural, Debug)]
pub enum Network {
    Bitcoin,
    Testnet,
    Signet,
    Regtest,
}

/// Whether an address, judged by its human-readable prefix, belongs to
/// the given network. Bech32 prefixes are recognised in lower and in
/// upper case — QR-form locators carry uppercase addresses — and their
/// test form is shared between testnet and signet; the legacy base58
/// test prefixes are shared among all test networks.
pub open spec fn address_valid_for(addr: Seq<char>, network: Network) -> bool {
    if addr.len() >= 3 && (addr.take(3) == seq!['b', 'c', '1'] || addr.take(3) == seq![
        'B',
        'C',
        '1',
    ]) {
        network == Network::Bitcoin
    } else if addr.len() >= 3 && (addr.take(3) == seq!['t', 'b', '1'] || addr.take(3) == seq![
        'T',
        'B',
        '1',
    ]) {
        network == Network::Testnet || network == Network::Signet
    } else if addr.len() >= 5 && (addr.take(5) == seq!['b', 'c', 'r', 't', '1'] || addr.take(5)
        == seq!['B', 'C', 'R', 'T', '1']) {
        network == Network::Regtest
    } else if addr.len() >= 1 && (addr[0] == '1' || addr[0] == '3') {
        network == Network::Bitcoin
    } else if addr.len() >= 1 && (addr[0] == 'm' || addr[0] == 'n' || addr[0] == '2') {
        network != Network::Bitcoin
    } else {
        false
    }
}

/// Checks an address against a network by its human-readable prefix.
pub fn address_network_matches(addr: &str, network: Network) -> (r: bool)
    ensures
        r == address_valid_for(addr@, network),
{
    proof {
        reveal_strlit("bc1");
        reveal_strlit("tb1");
        reveal_strlit("bcrt1");
        reveal_strlit("BC1");
        reveal_strlit("TB1");
        reveal_strlit("BCRT1");
        assert("bc1"@ =~= seq!['b', 'c', '1']);
        assert("tb1"@ =~= seq!['t', 'b', '1']);
        assert("bcrt1"@ =~= seq!['b', 'c', 'r', 't', '1']);
        assert("BC1"@ =~= seq!['B', 'C', '1']);
        assert("TB1"@ =~= seq!['T', 'B', '1']);
        assert("BCRT1"@ =~= seq!['B', 'C', 'R', 'T', '1']);
    }
    let len = addr.unicode_len();
    if region_eq(addr, 0, "bc1") || region_eq(addr, 0, "BC1") {
        proof {
            assert(addr@.subrange(0, 3) =~= addr@.take(3));
        }
        matches!(network, Network::Bitcoin)
    } else if region_eq(addr, 0, "tb1") || region_eq(addr, 0, "TB1") {
        proof {
            assert(addr@.subrange(0, 3) =~= addr@.take(3));
        }
        matches!(network, Network::Testnet | Network::Signet)
    } else if region_eq(addr, 0, "bcrt1") || region_eq(addr, 0, "BCRT1") {
        proof {
            assert(addr@.subrange(0, 5) =~= addr@.take(5));
            if addr@.len() >= 3 {
                assert(addr@.subrange(0, 3) =~= addr@.take(3));
            }
        }
        matches!(network, Network::Regtest)
    } else if len >= 1 {
        proof {
            if addr@.len() >= 3 {
                assert(addr@.subrange(0, 3) =~= addr@.take(3));
            }
            if addr@.len() >= 5 {
                assert(addr@.subrange(0, 5) =~= addr@.take(5));
            }
        }
        let c = addr.get_char(0);
        if c == '1' || c == '3' {
            matches!(network, Network::Bitcoin)
        } else if c == 'm' || c == 'n' || c == '2' {
            !matches!(network, Network::Bitcoin)
        } else {
            false
        }
    } else {
        false
    }
}


/// A decimal digit character is ASCII.
proof fn lemma_digit_ascii(c: char)
    requires
        is_digit_char(c),
    ensures
        '\0' <= c <= '\u{7f}',
{
}

/// Two ASCII sequences concatenate to an ASCII sequence.
proof fn lemma_ascii_concat(a: Seq<char>, b: Seq<char>)
    requires
        ascii_seq(a),
        ascii_seq(b),
    ensures
        ascii_seq(a + b),
{
    assert forall|i: int| 0 <= i < (a + b).len() implies '\0' <= #[trigger] (a + b)[i]
        <= '\u{7f}' by {
        if i < a.len() {
            assert((a + b)[i] == a[i]);
        } else {
            assert((a + b)[i] == b[i - a.len()]);
        }
    }
}

/// The amount notation consists of digits and at most one point:
/// first the whole part's digits, then — exactly when the amount has a
/// fractional part — the point and the fractional digits, of which
/// there are between one and eight, the last one not a zero.
pub proof fn lemma_btc_amount_digits(sats: u64)
    ensures
        ({
            let b = btc_amount_chars(sats);
            let whole = sats as int / (SATS_PER_BTC as int);
            let frac = sats as int % (SATS_PER_BTC as int);
            let wd = dec_chars(whole);
            let fd = trim_zeros(padded_digits(frac, 8));
            &&& forall|i: int| 0 <= i < b.len() ==> (is_digit_char(#[trigger] b[i]) || b[i] == '.')
            &&& frac == 0 ==> b == wd
            &&& frac != 0 ==> b == wd + seq!['.'] + fd
            &&& wd.len() >= 1
            &&& forall|i: int| 0 <= i < wd.len() ==> is_digit_char(#[trigger] wd[i])
            &&& dec_value(wd) == whole
            &&& frac != 0 ==> 1 <= fd.len() <= 8
            &&& forall|i: int| 0 <= i < fd.len() ==> is_digit_char(#[trigger] fd[i])
            &&& frac != 0 ==> dec_value(fd) * pow10(8 - fd.len()) == frac
        }),
{
    let b = btc_amount_chars(sats);
    let whole = sats as int / (SATS_PER_BTC as int);
    let frac = sats as int % (SATS_PER_BTC as int);
    let wd = dec_chars(whole);
    let fd = trim_zeros(padded_digits(frac, 8));
    lemma_pow10_vals();
    lemma_dec_chars_value(whole);
    lemma_padded_digits(frac, 8);
    lemma_trim_zeros(padded_digits(frac, 8));
    if frac != 0 {
        assert(dec_value(padded_digits(frac, 8)) == frac);
        assert forall|i: int| 0 <= i < b.len() implies (is_digit_char(#[trigger] b[i]) || b[i]
            == '.') by {
            if i < wd.len() {
                assert(b[i] == wd[i]);
            } else if i == wd.len() {
                assert(b[i] == '.');
            } else {
                assert(b[i] == fd[i - wd.len() - 1]);
            }
        }
    }
}

/// The formatter's output is ASCII whenever the locator is valid.
proof fn lemma_uri_chars_ascii(u: PjUriV)
    requires
        u.wf(),
    ensures
        ascii_seq(uri_chars(u)),
{
    let mid: Seq<char> = match u.amount_sats {
        Some(a) => amount_kw_chars() + btc_amount_chars(a) + amp_pj_chars(),
        None => pj_kw_chars(),
    };
    assert(ascii_seq(scheme_chars()));
    assert(ascii_seq(seq!['?']));
    assert(ascii_seq(amount_kw_chars()));
    assert(ascii_seq(amp_pj_chars()));
    assert(ascii_seq(pj_kw_chars()));
    match u.amount_sats {
        Some(a) => {
            lemma_btc_amount_digits(a);
            let b = btc_amount_chars(a);
            assert forall|i: int| 0 <= i < b.len() implies '\0' <= #[trigger] b[i]
                <= '\u{7f}' by {
                if b[i] != '.' {
                    lemma_digit_ascii(b[i]);
                }
            }
            assert(ascii_seq(b));
            lemma_ascii_concat(amount_kw_chars(), b);
            lemma_ascii_concat(amount_kw_chars() + b, amp_pj_chars());
        },
        None => {},
    }
    assert(ascii_seq(mid));
    lemma_ascii_concat(scheme_chars(), u.address);
    lemma_ascii_concat(scheme_chars() + u.address, seq!['?']);
    lemma_ascii_concat(scheme_chars() + u.address + seq!['?'], mid);
    lemma_ascii_concat(scheme_chars() + u.address + seq!['?'] + mid, u.endpoint);
}

/// A valid locator round-trips losslessly through its string form: the
/// parser accepts exactly the formatter's output and recovers the same
/// locator.
#[verifier::rlimit(100)]
pub proof fn lemma_uri_round_trip(u: PjUriV)
    requires
        u.wf(),
    ensures
        spec_parse(uri_chars(u)) == Some(u),
{
    let s = uri_chars(u);
    let mid: Seq<char> = match u.amount_sats {
        Some(a) => amount_kw_chars() + btc_amount_chars(a) + amp_pj_chars(),
        None => pj_kw_chars(),
    };
    lemma_uri_chars_ascii(u);
    assert(s =~= scheme_chars() + u.address + seq!['?'] + mid + u.endpoint);
    let la = u.address.len() as int;
    assert(s.take(8) =~= scheme_chars());
    assert(scheme_matches(s)) by {
        assert forall|i: int| 0 <= i < 8 implies eq_ci(s[i], #[trigger] scheme_chars()[i]) by {
            assert(s[i] == s.take(8)[i]);
        }
    }
    let rest = s.skip(8);
    assert(rest =~= u.address + seq!['?'] + mid + u.endpoint);
    lemma_find_char(rest, '?');
    let q = find_char(rest, '?');
    assert(rest[la] == '?');
    if q < 0 {
        assert(false);
    }
    if q < la {
        assert(rest[q] == u.address[q]);
        assert(false);
    }
    if q > la {
        assert(false);
    }
    assert(q == la);
    assert(rest.take(q) =~= u.address);
    let tail = rest.skip(q + 1);
    assert(tail =~= mid + u.endpoint);
    match u.amount_sats {
        Some(a) => {
            lemma_btc_amount_digits(a);
            let whole = a as int / (SATS_PER_BTC as int);
            let frac = a as int % (SATS_PER_BTC as int);
            let wd = dec_chars(whole);
            let fd = trim_zeros(padded_digits(frac, 8));
            let b = btc_amount_chars(a);
            assert(tail.len() >= 7);
            assert(tail.take(7) =~= amount_kw_chars());
            let t2 = tail.skip(7);
            assert(t2 =~= b + amp_pj_chars() + u.endpoint);
            lemma_digit_run(t2);
            let dr = digit_run(t2);
            let lw = wd.len() as int;
            assert(a as int == whole * (SATS_PER_BTC as int) + frac);
            if frac == 0 {
                assert(t2 =~= wd + amp_pj_chars() + u.endpoint);
                assert(t2[lw] == amp_pj_chars()[0]);
                assert(!is_digit_char('&'));
                if dr < lw {
                    assert(t2[dr] == wd[dr]);
                    assert(is_digit_char(t2[dr]));
                    assert(false);
                }
                if dr > lw {
                    assert(is_digit_char(t2[lw]));
                    assert(false);
                }
                assert(dr == lw);
                assert(t2.take(dr) =~= wd);
                assert(t2[dr] == '&');
                assert(!(dr < t2.len() && t2[dr] == '.'));
                assert(dec_value(t2.take(dr)) * (SATS_PER_BTC as int) + 0 == a as int);
                assert(t2.skip(dr).take(4) =~= amp_pj_chars());
                assert(t2.skip(dr + 4) =~= u.endpoint);
                let parsed = spec_parse(s)->Some_0;
                assert(parsed.address == u.address);
                assert(parsed.amount_sats == Some(a));
                assert(parsed.endpoint == u.endpoint);
                assert(parsed =~= u);
            } else {
                assert(b =~= wd + seq!['.'] + fd);
                assert(t2 =~= wd + seq!['.'] + fd + amp_pj_chars() + u.endpoint);
                assert(t2[lw] == '.');
                assert(!is_digit_char('.'));
                if dr < lw {
                    assert(t2[dr] == wd[dr]);
                    assert(is_digit_char(t2[dr]));
                    assert(false);
                }
                if dr > lw {
                    assert(is_digit_char(t2[lw]));
                    assert(false);
                }
                assert(dr == lw);
                assert(t2.take(dr) =~= wd);
                assert(dr < t2.len() && t2[dr] == '.');
                let f2 = t2.skip(dr + 1);
                assert(f2 =~= fd + amp_pj_chars() + u.endpoint);
                lemma_digit_run(f2);
                let dr2 = digit_run(f2);
                let lf = fd.len() as int;
                assert(f2[lf] == amp_pj_chars()[0]);
                assert(!is_digit_char('&'));
                if dr2 < lf {
                    assert(f2[dr2] == fd[dr2]);
                    assert(is_digit_char(f2[dr2]));
                    assert(false);
                }
                if dr2 > lf {
                    assert(is_digit_char(f2[lf]));
                    assert(false);
                }
                assert(dr2 == lf);
                assert(1 <= dr2 <= 8);
                assert(f2.take(dr2) =~= fd);
                assert(dec_value(f2.take(dr2)) * pow10(8 - dr2) == frac);
                assert(dec_value(t2.take(dr)) * (SATS_PER_BTC as int) + dec_value(f2.take(dr2))
                    * pow10(8 - dr2) == a as int);
                assert(t2.skip(dr + 1 + dr2).take(4) =~= amp_pj_chars());
                assert(t2.skip(dr + 1 + dr2 + 4) =~= u.endpoint);
                let parsed = spec_parse(s)->Some_0;
                assert(parsed.address == u.address);
                assert(parsed.amount_sats == Some(a));
                assert(parsed.endpoint == u.endpoint);
                assert(parsed =~= u);
            }
        },
        None => {
            assert(tail =~= pj_kw_chars() + u.endpoint);
            if tail.len() >= 7 && tail.take(7) == amount_kw_chars() {
                assert(tail.take(7)[0] == tail[0]);
                assert(tail[0] == 'p');
                assert(amount_kw_chars()[0] == 'a');
                assert(false);
            }
            assert(tail.len() >= 3);
            assert(tail.take(3) =~= pj_kw_chars());
            assert(tail.skip(3) =~= u.endpoint);
            let parsed = spec_parse(s)->Some_0;
            assert(parsed.address == u.address);
            assert(parsed.amount_sats == None::<u64>);
            assert(parsed.endpoint == u.endpoint);
            assert(parsed =~= u);
        },
    }
}

} // verus!
