//! Decimal text: rendering integers and fixed-point money amounts, column
//! padding, and parsing money amounts written with up to two decimals.

use vstd::prelude::*;

verus! {

use vstd::string::StringExecFns;
use vstd::string::StrSliceExecFns;
use crate::errors::WalletError;

/// The largest amount, in cents, that the engine represents: fifteen integer
/// digits and two decimals.
pub const MAX_AMOUNT_CENTS: u64 = 99_999_999_999_999_999;

pub open spec fn is_digit(c: char) -> bool {
    48 <= c as u32 <= 57
}

pub open spec fn digit_val(c: char) -> int {
    c as u32 - 48
}

pub open spec fn digit_char(d: int) -> char {
    if d == 0 { '0' }
    else if d == 1 { '1' }
    else if d == 2 { '2' }
    else if d == 3 { '3' }
    else if d == 4 { '4' }
    else if d == 5 { '5' }
    else if d == 6 { '6' }
    else if d == 7 { '7' }
    else if d == 8 { '8' }
    else { '9' }
}

/// The decimal digits of `n`, most significant first.
pub open spec fn dec_digits(n: nat) -> Seq<char>
    decreases n,
{
    if n < 10 {
        seq![digit_char(n as int)]
    } else {
        dec_digits(n / 10).push(digit_char((n % 10) as int))
    }
}

pub open spec fn pow10(n: nat) -> int
    decreases n,
{
    if n == 0 { 1 } else { 10 * pow10((n - 1) as nat) }
}

/// The value of a digit string, most significant first.
pub open spec fn digits_val(s: Seq<char>) -> int
    decreases s.len(),
{
    if s.len() == 0 {
        0
    } else {
        digits_val(s.drop_last()) * 10 + digit_val(s.last())
    }
}

pub open spec fn all_digits(s: Seq<char>) -> bool {
    forall|i: int| 0 <= i < s.len() ==> is_digit(#[trigger] s[i])
}

pub proof fn lemma_pow10_15()
    ensures
        pow10(15) == 1_000_000_000_000_000,
{
    reveal_with_fuel(pow10, 17);
}

/// A single decimal digit as text.
pub fn digit_str(d: u64) -> (r: &'static str)
    requires
        d < 10,
    ensures
        r@ == seq![digit_char(d as int)],
{
    if d == 0 { proof { reveal_strlit("0"); } assert("0"@ =~= seq![digit_char(0)]); "0" }
    else if d == 1 { proof { reveal_strlit("1"); } assert("1"@ =~= seq![digit_char(1)]); "1" }
    else if d == 2 { proof { reveal_strlit("2"); } assert("2"@ =~= seq![digit_char(2)]); "2" }
    else if d == 3 { proof { reveal_strlit("3"); } assert("3"@ =~= seq![digit_char(3)]); "3" }
    else if d == 4 { proof { reveal_strlit("4"); } assert("4"@ =~= seq![digit_char(4)]); "4" }
    else if d == 5 { proof { reveal_strlit("5"); } assert("5"@ =~= seq![digit_char(5)]); "5" }
    else if d == 6 { proof { reveal_strlit("6"); } assert("6"@ =~= seq![digit_char(6)]); "6" }
    else if d == 7 { proof { reveal_strlit("7"); } assert("7"@ =~= seq![digit_char(7)]); "7" }
    else if d == 8 { proof { reveal_strlit("8"); } assert("8"@ =~= seq![digit_char(8)]); "8" }
    else { proof { reveal_strlit("9"); } assert("9"@ =~= seq![digit_char(9)]); "9" }
}

/// Renders `n` in decimal.
pub fn fmt_u128(n: u128) -> (s: String)
    ensures
        s@ == dec_digits(n as nat),
    decreases n,
{
    if n < 10 {
        let s = String::from_str(digit_str(n as u64));
        assert(s@ =~= dec_digits(n as nat));
        s
    } else {
        let mut s = fmt_u128(n / 10);
        s.append(digit_str((n % 10) as u64));
        assert(s@ =~= dec_digits(n as nat));
        s
    }
}

/// Money text for a non-negative amount of cents: integer part, a dot, and
/// exactly two decimals.
pub open spec fn cents_text_nn(c: int) -> Seq<char> {
    dec_digits((c / 100) as nat) + seq!['.', digit_char((c / 10) % 10), digit_char(c % 10)]
}

/// Money text with a leading minus sign when negative.
pub open spec fn cents_text(v: int) -> Seq<char> {
    if v < 0 {
        seq!['-'] + cents_text_nn(-v)
    } else {
        cents_text_nn(v)
    }
}

pub fn fmt_cents_u128(c: u128) -> (s: String)
    ensures
        s@ == cents_text_nn(c as int),
{
    let mut s = fmt_u128(c / 100);
    proof { reveal_strlit("."); }
    assert("."@ =~= seq!['.']);
    s.append(".");
    s.append(digit_str(((c / 10) % 10) as u64));
    s.append(digit_str((c % 10) as u64));
    assert(s@ =~= cents_text_nn(c as int));
    s
}

pub fn fmt_cents_i128(v: i128) -> (s: String)
    ensures
        s@ == cents_text(v as int),
{
    if v < 0 {
        let mut s = String::from_str("-");
        proof { reveal_strlit("-"); }
        assert(s@ =~= seq!['-']);
        let mag: u128 = if v == i128::MIN {
            i128::MAX as u128 + 1
        } else {
            (-v) as u128
        };
        assert(mag == -(v as int));
        let tail = fmt_cents_u128(mag);
        s.append(tail.as_str());
        assert(s@ =~= cents_text(v as int));
        s
    } else {
        let s = fmt_cents_u128(v as u128);
        s
    }
}

pub open spec fn spaces(n: int) -> Seq<char> {
    Seq::new(n as nat, |i: int| ' ')
}

pub open spec fn dashes(n: int) -> Seq<char> {
    Seq::new(n as nat, |i: int| '-')
}

/// `s` padded with spaces on the right to width `w` (unchanged when already
/// at least that wide).
pub open spec fn pad_right_text(s: Seq<char>, w: int) -> Seq<char> {
    if s.len() >= w {
        s
    } else {
        s + spaces(w - s.len())
    }
}

pub fn pad_right(s: String, w: usize) -> (r: String)
    ensures
        r@ == pad_right_text(s@, w as int),
{
    let ghost orig: Seq<char> = s@;
    let n = s.as_str().unicode_len();
    let mut r = s;
    let mut k = n;
    proof { reveal_strlit(" "); }
    assert(" "@ =~= seq![' ']);
    while k < w
        invariant
            n <= k,
            n == orig.len(),
            k <= w || k == n,
            r@ =~= orig + spaces(k - n),
            " "@ =~= seq![' '],
        decreases w - k,
    {
        r.append(" ");
        assert(orig + spaces(k - n) + seq![' '] =~= orig + spaces(k + 1 - n));
        k = k + 1;
    }
    proof {
        if n >= w {
            assert(r@ =~= orig);
        } else {
            assert(k == w);
        }
    }
    r
}

/// A rule of `w` dashes.
pub fn dash_line(w: usize) -> (r: String)
    ensures
        r@ == dashes(w as int),
{
    let mut r = String::new();
    let mut k: usize = 0;
    proof { reveal_strlit("-"); }
    assert("-"@ =~= seq!['-']);
    while k < w
        invariant
            k <= w,
            r@ =~= dashes(k as int),
            "-"@ =~= seq!['-'],
        decreases w - k,
    {
        r.append("-");
        assert(dashes(k as int) + seq!['-'] =~= dashes(k + 1));
        k = k + 1;
    }
    r
}

/// Reads one character as a decimal digit.
pub fn char_digit(c: char) -> (r: Option<u32>)
    ensures
        match r {
            Some(d) => is_digit(c) && d == digit_val(c) && d <= 9,
            None => !is_digit(c),
        },
{
    let u = c as u32;
    if 48 <= u && u <= 57 {
        Some(u - 48)
    } else {
        None
    }
}

/// A money amount split at a decimal point at index `i`.
pub open spec fn money_split_at(s: Seq<char>, i: int) -> bool {
    &&& 1 <= i <= 15
    &&& i + 2 <= s.len() <= i + 3
    &&& s[i] == '.'
    &&& all_digits(s.take(i))
    &&& all_digits(s.skip(i + 1))
}

/// A money amount with no decimal point.
pub open spec fn money_plain(s: Seq<char>) -> bool {
    1 <= s.len() <= 15 && all_digits(s)
}

/// The money grammar: one to fifteen integer digits, then optionally a dot
/// and one or two decimals.
pub open spec fn money_format(s: Seq<char>) -> bool {
    money_plain(s) || exists|i: int| money_split_at(s, i)
}

/// The value in cents of text matching the money grammar.
pub open spec fn money_cents(s: Seq<char>) -> int {
    if money_plain(s) {
        digits_val(s) * 100
    } else {
        let i = choose|i: int| money_split_at(s, i);
        let whole = digits_val(s.take(i)) * 100;
        if s.len() == i + 2 {
            whole + digit_val(s[i + 1]) * 10
        } else {
            whole + digit_val(s[i + 1]) * 10 + digit_val(s[i + 2])
        }
    }
}

pub proof fn lemma_money_split_unique(s: Seq<char>, i1: int, i2: int)
    requires
        money_split_at(s, i1),
        money_split_at(s, i2),
    ensures
        i1 == i2,
{
    assert(!is_digit('.'));
    if i1 < i2 {
        assert(is_digit(s.take(i2)[i1]));
        assert(s.take(i2)[i1] == s[i1]);
    } else if i2 < i1 {
        assert(is_digit(s.take(i1)[i2]));
        assert(s.take(i1)[i2] == s[i2]);
    }
}

/// Reads the digit string `s[from..to]` as a value, reporting a non-digit.
fn scan_digits(s: &str, from: usize, to: usize) -> (r: Option<u64>)
    requires
        from <= to <= s@.len(),
        to - from <= 15,
    ensures
        match r {
            Some(v) => all_digits(s@.subrange(from as int, to as int))
                && v == digits_val(s@.subrange(from as int, to as int))
                && v < 1_000_000_000_000_000,
            None => !all_digits(s@.subrange(from as int, to as int)),
        },
{
    let ghost whole: Seq<char> = s@.subrange(from as int, to as int);
    let mut acc: u64 = 0;
    let mut j = from;
    proof {
        lemma_pow10_grows(0, 15);
    }
    while j < to
        invariant
            from <= j <= to <= s@.len(),
            to - from <= 15,
            whole == s@.subrange(from as int, to as int),
            all_digits(whole.take(j - from)),
            acc == digits_val(whole.take(j - from)),
            acc < pow10((j - from) as nat),
            pow10((j - from) as nat) <= pow10(15),
        decreases to - j,
    {
        let c = s.get_char(j);
        match char_digit(c) {
            None => {
                proof {
                    assert(whole[j - from] == c);
                    assert(!all_digits(whole));
                }
                return None;
            },
            Some(d) => {
                proof {
                    lemma_pow10_15();
                    assert(acc * 10 + d < pow10((j - from) as nat) * 10);
                    assert(pow10((j + 1 - from) as nat) == 10 * pow10((j - from) as nat));
                    assert(pow10((j + 1 - from) as nat) <= pow10(15)) by {
                        lemma_pow10_grows((j + 1 - from) as nat, 15);
                    }
                    assert(whole.take(j + 1 - from).drop_last() =~= whole.take(j - from));
                    assert(whole.take(j + 1 - from).last() == whole[j - from]);
                    assert(whole[j - from] == c);
                }
                acc = acc * 10 + (d as u64);
            },
        }
        j = j + 1;
    }
    proof {
        assert(whole.take(to - from) =~= whole);
        lemma_pow10_15();
    }
    Some(acc)
}

pub proof fn lemma_pow10_grows(a: nat, b: nat)
    requires
        a <= b,
    ensures
        pow10(a) <= pow10(b),
        pow10(a) >= 1,
    decreases b,
{
    if b == 0 {
    } else if a == b {
        lemma_pow10_grows((a - 1) as nat, (b - 1) as nat);
    } else {
        lemma_pow10_grows(a, (b - 1) as nat);
    }
}

/// Reads money text; `None` when `s` does not match the money grammar.
pub fn scan_money(s: &str) -> (r: Option<u64>)
    ensures
        r is Some <==> money_format(s@),
        r matches Some(c) ==> c == money_cents(s@) && c <= MAX_AMOUNT_CENTS,
{
    let n = s.unicode_len();
    if n == 0 {
        assert(!money_format(s@));
        return None;
    }
    // the first decimal point, if any
    let mut dot = n;
    let mut j: usize = 0;
    while j < n
        invariant
            j <= n,
            dot <= n,
            n == s@.len(),
            dot == n ==> forall|t: int| 0 <= t < j ==> s@[t] != '.',
            dot < n ==> dot < j && s@[dot as int] == '.'
                && (forall|t: int| 0 <= t < dot ==> s@[t] != '.'),
        decreases n - j,
    {
        let c = s.get_char(j);
        if dot == n && c == '.' {
            dot = j;
        }
        j = j + 1;
    }
    proof {
        // any split point must be the first decimal point
        assert forall|i: int| money_split_at(s@, i) implies i == dot as int by {
            assert(s@[i] == '.');
            if dot < n {
                if i < dot {
                    assert(s@[i] != '.');
                } else if i > dot as int {
                    assert(is_digit(s@.take(i)[dot as int]));
                    assert(s@.take(i)[dot as int] == s@[dot as int]);
                    assert(!is_digit('.'));
                }
            } else {
                assert(i + 2 <= s@.len());
                assert(s@[i] != '.');
            }
        }
    }
    if dot == n {
        // no decimal point: the plain form or nothing
        if n > 15 {
            assert(!money_plain(s@));
            assert(!money_format(s@));
            return None;
        }
        match scan_digits(s, 0, n) {
            None => {
                proof {
                    assert(s@.subrange(0, n as int) =~= s@);
                    assert(!money_format(s@));
                }
                None
            },
            Some(v) => {
                proof {
                    assert(s@.subrange(0, n as int) =~= s@);
                    assert(money_plain(s@));
                }
                Some(v * 100)
            },
        }
    } else {
        // a decimal point at `dot`
        let flen = n - dot - 1;
        if dot < 1 || dot > 15 || flen < 1 || flen > 2 {
            proof {
                if exists|i: int| money_split_at(s@, i) {
                    let i = choose|i: int| money_split_at(s@, i);
                    assert(i == dot);
                }
                assert(!money_plain(s@)) by {
                    assert(s@[dot as int] == '.');
                    assert(!is_digit('.'));
                }
            }
            return None;
        }
        let whole = match scan_digits(s, 0, dot) {
            None => {
                proof {
                    assert(s@.subrange(0, dot as int) =~= s@.take(dot as int));
                    if exists|i: int| money_split_at(s@, i) {
                        let i = choose|i: int| money_split_at(s@, i);
                        assert(i == dot);
                    }
                    assert(!money_plain(s@)) by {
                        assert(s@[dot as int] == '.');
                        assert(!is_digit('.'));
                    }
                }
                return None;
            },
            Some(v) => v,
        };
        let d1 = match char_digit(s.get_char(dot + 1)) {
            None => {
                proof {
                    if exists|i: int| money_split_at(s@, i) {
                        let i = choose|i: int| money_split_at(s@, i);
                        assert(i == dot);
                        assert(s@.skip(dot + 1)[0] == s@[dot + 1]);
                    }
                    assert(!money_plain(s@)) by {
                        assert(s@[dot as int] == '.');
                        assert(!is_digit('.'));
                    }
                }
                return None;
            },
            Some(d) => d as u64,
        };
        let mut cents: u64 = whole * 100 + d1 * 10;
        let ghost has_two: bool = flen == 2;
        if flen == 2 {
            match char_digit(s.get_char(dot + 2)) {
                None => {
                    proof {
                        if exists|i: int| money_split_at(s@, i) {
                            let i = choose|i: int| money_split_at(s@, i);
                            assert(i == dot);
                            assert(s@.skip(dot + 1)[1] == s@[dot + 2]);
                        }
                        assert(!money_plain(s@)) by {
                            assert(s@[dot as int] == '.');
                            assert(!is_digit('.'));
                        }
                    }
                    return None;
                },
                Some(d) => {
                    cents = cents + d as u64;
                },
            }
        }
        proof {
            assert(money_split_at(s@, dot as int)) by {
                assert(s@.take(dot as int) =~= s@.subrange(0, dot as int));
                assert forall|t: int| 0 <= t < s@.skip(dot + 1).len()
                    implies is_digit(#[trigger] s@.skip(dot + 1)[t]) by {
                    assert(s@.skip(dot + 1)[t] == s@[dot + 1 + t]);
                    if t == 0 {
                    } else {
                    }
                }
            }
            assert(!money_plain(s@)) by {
                assert(s@[dot as int] == '.');
                assert(!is_digit('.'));
            }
            let i = choose|i: int| money_split_at(s@, i);
            lemma_money_split_unique(s@, i, dot as int);
            assert(s@.take(dot as int) =~= s@.subrange(0, dot as int));
            assert(cents == money_cents(s@));
        }
        Some(cents)
    }
}

/// Equality of two string slices, by their characters.
pub fn str_eq(a: &str, b: &str) -> (r: bool)
    ensures
        r == (a@ == b@),
{
    let na = a.unicode_len();
    let nb = b.unicode_len();
    if na != nb {
        proof {
            assert(a@.len() != b@.len());
        }
        return false;
    }
    let mut i: usize = 0;
    while i < na
        invariant
            i <= na,
            na == a@.len(),
            na == b@.len(),
            forall|t: int| 0 <= t < i ==> a@[t] == #[trigger] b@[t],
        decreases na - i,
    {
        if a.get_char(i) != b.get_char(i) {
            return false;
        }
        i = i + 1;
    }
    proof {
        assert(a@ =~= b@);
    }
    true
}

/// Lexicographic order on text, by code point; shorter prefixes come first.
pub open spec fn lex_le(a: Seq<char>, b: Seq<char>) -> bool
    decreases a.len(),
{
    if a.len() == 0 {
        true
    } else if b.len() == 0 {
        false
    } else if (a[0] as u32) < (b[0] as u32) {
        true
    } else if (a[0] as u32) > (b[0] as u32) {
        false
    } else {
        lex_le(a.drop_first(), b.drop_first())
    }
}

pub proof fn lemma_lex_total(a: Seq<char>, b: Seq<char>)
    ensures
        lex_le(a, b) || lex_le(b, a),
    decreases a.len(),
{
    if a.len() == 0 || b.len() == 0 {
    } else if (a[0] as u32) == (b[0] as u32) {
        lemma_lex_total(a.drop_first(), b.drop_first());
    }
}

pub proof fn lemma_lex_trans(a: Seq<char>, b: Seq<char>, c: Seq<char>)
    requires
        lex_le(a, b),
        lex_le(b, c),
    ensures
        lex_le(a, c),
    decreases a.len(),
{
    if a.len() == 0 {
    } else if b.len() == 0 {
    } else if c.len() == 0 {
    } else {
        if (a[0] as u32) == (b[0] as u32) && (b[0] as u32) == (c[0] as u32) {
            lemma_lex_trans(a.drop_first(), b.drop_first(), c.drop_first());
        }
    }
}

/// Skipping a shared prefix does not change the lexicographic order.
proof fn lemma_lex_skip(a: Seq<char>, b: Seq<char>, i: int)
    requires
        0 <= i <= a.len(),
        i <= b.len(),
        forall|t: int| 0 <= t < i ==> a[t] == #[trigger] b[t],
    ensures
        lex_le(a, b) == lex_le(a.skip(i), b.skip(i)),
    decreases i,
{
    if i == 0 {
        assert(a.skip(0) =~= a);
        assert(b.skip(0) =~= b);
    } else {
        if a.len() > 0 && b.len() > 0 {
            assert(a[0] == b[0]);
            assert(a.drop_first() =~= a.skip(1));
            assert(b.drop_first() =~= b.skip(1));
            assert(forall|t: int| 0 <= t < i - 1 ==> a.skip(1)[t] == #[trigger] b.skip(1)[t])
                by {
                assert(forall|t: int|
                    0 <= t < i - 1 ==> a.skip(1)[t] == a[t + 1] && b.skip(1)[t] == b[t + 1]);
            }
            lemma_lex_skip(a.skip(1), b.skip(1), i - 1);
            assert(a.skip(1).skip(i - 1) =~= a.skip(i));
            assert(b.skip(1).skip(i - 1) =~= b.skip(i));
        }
    }
}

/// Lexicographic comparison of two string slices.
pub fn str_le(a: &str, b: &str) -> (r: bool)
    ensures
        r == lex_le(a@, b@),
{
    let na = a.unicode_len();
    let nb = b.unicode_len();
    let mut i: usize = 0;
    loop
        invariant_except_break
            i <= na,
            i <= nb,
            na == a@.len(),
            nb == b@.len(),
            forall|t: int| 0 <= t < i ==> a@[t] == #[trigger] b@[t],
        ensures
            i <= na,
            i <= nb,
            na == a@.len(),
            nb == b@.len(),
            lex_le(a@, b@) == lex_le(a@.skip(i as int), b@.skip(i as int)),
            (i == na || i == nb)
                || ((a@.skip(i as int)[0] as u32) != (b@.skip(i as int)[0] as u32)
                    && a@.skip(i as int)[0] == a@[i as int]
                    && b@.skip(i as int)[0] == b@[i as int]),
        decreases na - i,
    {
        proof {
            lemma_lex_skip(a@, b@, i as int);
        }
        if i == na || i == nb {
            break;
        }
        let ca = a.get_char(i);
        let cb = b.get_char(i);
        if ca != cb {
            proof {
                assert(a@.skip(i as int)[0] == a@[i as int]);
                assert(b@.skip(i as int)[0] == b@[i as int]);
                assert((ca as u32) != (cb as u32));
            }
            break;
        }
        i = i + 1;
    }
    if i == na {
        proof {
            assert(a@.skip(i as int).len() == 0);
        }
        true
    } else if i == nb {
        proof {
            assert(b@.skip(i as int).len() == 0);
            assert(a@.skip(i as int).len() > 0);
        }
        false
    } else {
        let ca = a.get_char(i);
        let cb = b.get_char(i);
        proof {
            assert(a@.skip(i as int)[0] == a@[i as int]);
            assert(b@.skip(i as int)[0] == b@[i as int]);
        }
        (ca as u32) < (cb as u32)
    }
}

/// Reads a spend amount: it must match the money grammar and be positive.
pub fn parse_amount(s: &str) -> (r: Result<u64, WalletError>)
    ensures
        r is Ok <==> money_format(s@) && money_cents(s@) > 0,
        r matches Ok(c) ==> c == money_cents(s@) && 1 <= c <= MAX_AMOUNT_CENTS,
        r matches Err(e) ==> e is InvalidAmount,
{
    match scan_money(s) {
        Some(c) if c > 0 => Ok(c),
        Some(_) => Err(WalletError::InvalidAmount(String::from_str(
            "Amount must be positive",
        ))),
        None => Err(WalletError::InvalidAmount(String::from_str(
            "Amount must be a number with at most two decimals",
        ))),
    }
}

/// Reads a daily cap: it must match the money grammar and be positive.
pub fn parse_cap(s: &str) -> (r: Result<u64, WalletError>)
    ensures
        r is Ok <==> money_format(s@) && money_cents(s@) > 0,
        r matches Ok(c) ==> c == money_cents(s@) && 1 <= c <= MAX_AMOUNT_CENTS,
        r matches Err(e) ==> e is InvalidCap,
{
    match scan_money(s) {
        Some(c) if c > 0 => Ok(c),
        Some(_) => Err(WalletError::InvalidCap(String::from_str(
            "Cap must be a positive number",
        ))),
        None => Err(WalletError::InvalidCap(String::from_str(
            "Cap must be a number with at most two decimals",
        ))),
    }
}

} // verus!
