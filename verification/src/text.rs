//! Decimal text: rendering unsigned integers as strings and parsing them
//! back, with the exact character sequences pinned down at the spec level.
use vstd::prelude::*;
use vstd::string::StrSliceExecFns;
use vstd::string::StringExecFns;

verus! {

/// The character for one decimal digit.
pub open spec fn digit_char(d: nat) -> char {
    if d == 0 {
        '0'
    } else if d == 1 {
        '1'
    } else if d == 2 {
        '2'
    } else if d == 3 {
        '3'
    } else if d == 4 {
        '4'
    } else if d == 5 {
        '5'
    } else if d == 6 {
        '6'
    } else if d == 7 {
        '7'
    } else if d == 8 {
        '8'
    } else {
        '9'
    }
}

/// Whether `c` is a decimal digit.
pub open spec fn is_digit(c: char) -> bool {
    '0' <= c <= '9'
}

/// Numeric value of a digit character.
pub open spec fn digit_val(c: char) -> nat {
    (c as nat - '0' as nat) as nat
}

/// The canonical decimal rendering of `n`, most significant digit first,
/// with no sign and no leading zeros (a single `'0'` for zero).
pub open spec fn dec_str(n: nat) -> Seq<char>
    decreases n,
{
    if n < 10 {
        seq![digit_char(n)]
    } else {
        dec_str(n / 10).push(digit_char(n % 10))
    }
}

/// Value of a digit string, most significant digit first
/// (0 for the empty string).
pub open spec fn dec_val(s: Seq<char>) -> nat
    decreases s.len(),
{
    if s.len() == 0 {
        0
    } else {
        dec_val(s.drop_last()) * 10 + digit_val(s.last())
    }
}

/// Whether every character of `s` is a decimal digit.
pub open spec fn all_digits(s: Seq<char>) -> bool {
    forall|i: int| 0 <= i < s.len() ==> is_digit(#[trigger] s[i])
}

/// A decimal rendering consists of digits only.
pub proof fn lemma_dec_str_digits(n: nat)
    ensures
        all_digits(dec_str(n)),
        dec_str(n).len() >= 1,
    decreases n,
{
    if n >= 10 {
        lemma_dec_str_digits(n / 10);
    }
}

/// A digit character carries its digit's value.
pub proof fn lemma_digit_roundtrip(d: nat)
    requires
        d < 10,
    ensures
        digit_val(digit_char(d)) == d,
{
    assert(digit_val('0') == 0);
    assert(digit_val('1') == 1);
    assert(digit_val('2') == 2);
    assert(digit_val('3') == 3);
    assert(digit_val('4') == 4);
    assert(digit_val('5') == 5);
    assert(digit_val('6') == 6);
    assert(digit_val('7') == 7);
    assert(digit_val('8') == 8);
    assert(digit_val('9') == 9);
}

/// Parsing a decimal rendering gives the value back.
pub proof fn lemma_dec_val_of_dec_str(n: nat)
    ensures
        dec_val(dec_str(n)) == n,
    decreases n,
{
    lemma_digit_roundtrip(n % 10);
    if n < 10 {
        lemma_digit_roundtrip(n);
        assert(dec_str(n) =~= seq![digit_char(n)]);
        assert(dec_str(n).drop_last() =~= Seq::<char>::empty());
        assert(dec_val(Seq::<char>::empty()) == 0);
        assert(dec_val(dec_str(n)) == dec_val(Seq::<char>::empty()) * 10 + digit_val(
            digit_char(n),
        ));
    } else {
        lemma_dec_val_of_dec_str(n / 10);
        assert(dec_str(n).drop_last() =~= dec_str(n / 10));
        assert(dec_str(n).last() == digit_char(n % 10));
        assert(dec_val(dec_str(n)) == dec_val(dec_str(n / 10)) * 10 + digit_val(
            digit_char(n % 10),
        ));
    }
}

/// One digit as a borrowed one-character string.
fn digit_to_str(d: u64) -> (r: &'static str)
    requires
        d < 10,
    ensures
        r@ =~= seq![digit_char(d as nat)],
{
    let digits: &'static str = "0123456789";
    proof {
        reveal_strlit("0123456789");
    }
    digits.substring_ascii(d as usize, d as usize + 1)
}

/// Decimal rendering of `n`, matching `dec_str`.
pub fn u64_to_string(n: u64) -> (r: String)
    ensures
        r@ == dec_str(n as nat),
    decreases n,
{
    if n < 10 {
        let s = digit_to_str(n).to_owned();
        proof {
            assert(s@ =~= dec_str(n as nat));
        }
        s
    } else {
        let pre = u64_to_string(n / 10);
        let s = pre.concat(digit_to_str(n % 10));
        proof {
            assert(s@ =~= dec_str(n as nat));
        }
        s
    }
}

/// Whether `c` is one of the ASCII whitespace characters the tokenizer
/// splits on.
pub open spec fn is_ws(c: char) -> bool {
    c == ' ' || c == '\n' || c == '\t' || c == '\r'
}

/// Index of the first character at or after `i` that is not whitespace
/// (or the end of `s`).
pub open spec fn skip_ws_idx(s: Seq<char>, i: int) -> int
    decreases s.len() - i,
{
    if i < 0 || i >= s.len() {
        i
    } else if is_ws(s[i]) {
        skip_ws_idx(s, i + 1)
    } else {
        i
    }
}

/// Index of the first character at or after `i` that is not a digit
/// (or the end of `s`).
pub open spec fn skip_digits_idx(s: Seq<char>, i: int) -> int
    decreases s.len() - i,
{
    if i < 0 || i >= s.len() {
        i
    } else if is_digit(s[i]) {
        skip_digits_idx(s, i + 1)
    } else {
        i
    }
}

/// A maximal whitespace run `[i, j)` determines `skip_ws_idx`.
pub proof fn lemma_skip_ws_exact(s: Seq<char>, i: int, j: int)
    requires
        0 <= i <= j <= s.len(),
        forall|k: int| i <= k < j ==> is_ws(#[trigger] s[k]),
        j < s.len() ==> !is_ws(s[j]),
    ensures
        skip_ws_idx(s, i) == j,
    decreases j - i,
{
    if i < j {
        lemma_skip_ws_exact(s, i + 1, j);
    }
}

/// `skip_digits_idx` lands exactly at the end of the digit run starting
/// at `i`.
pub proof fn lemma_skip_digits_props(s: Seq<char>, i: int)
    requires
        0 <= i <= s.len(),
    ensures
        i <= skip_digits_idx(s, i) <= s.len(),
        forall|k: int| i <= k < skip_digits_idx(s, i) ==> is_digit(#[trigger] s[k]),
        skip_digits_idx(s, i) < s.len() ==> !is_digit(s[skip_digits_idx(s, i)]),
    decreases s.len() - i,
{
    if i < s.len() && is_digit(s[i]) {
        lemma_skip_digits_props(s, i + 1);
    }
}

/// Conversely, a maximal digit run `[i, j)` determines `skip_digits_idx`.
pub proof fn lemma_skip_digits_exact(s: Seq<char>, i: int, j: int)
    requires
        0 <= i <= j <= s.len(),
        forall|k: int| i <= k < j ==> is_digit(#[trigger] s[k]),
        j < s.len() ==> !is_digit(s[j]),
    ensures
        skip_digits_idx(s, i) == j,
    decreases j - i,
{
    if i < j {
        lemma_skip_digits_exact(s, i + 1, j);
    }
}

/// The first two whitespace-delimited tokens of `s`, as numbers: `None`
/// unless `s` starts with (optional whitespace and) two tokens made of
/// digits only, each followed by whitespace or the end of `s`.
pub open spec fn spec_parse_two(s: Seq<char>) -> Option<(nat, nat)> {
    let a0 = skip_ws_idx(s, 0);
    let a1 = skip_digits_idx(s, a0);
    let b0 = skip_ws_idx(s, a1);
    let b1 = skip_digits_idx(s, b0);
    if a1 == a0 || (a1 < s.len() && !is_ws(s[a1])) {
        None
    } else if b1 == b0 || (b1 < s.len() && !is_ws(s[b1])) {
        None
    } else {
        Some((dec_val(s.subrange(a0, a1)), dec_val(s.subrange(b0, b1))))
    }
}

/// A longer digit prefix never has a smaller value.
proof fn lemma_dec_val_take_monotone(s: Seq<char>, k: int)
    requires
        0 <= k <= s.len(),
    ensures
        dec_val(s.take(k)) <= dec_val(s),
    decreases s.len() - k,
{
    if k < s.len() {
        lemma_dec_val_take_monotone(s, k + 1);
        assert(s.take(k + 1).drop_last() =~= s.take(k));
        assert(dec_val(s.take(k + 1)) == dec_val(s.take(k)) * 10 + digit_val(s[k]));
    } else {
        assert(s.take(k) =~= s);
    }
}

/// Digits and whitespace are disjoint.
pub proof fn lemma_digit_not_ws(c: char)
    requires
        is_digit(c),
    ensures
        !is_ws(c),
{
}

fn is_ws_char(c: char) -> (r: bool)
    ensures
        r == is_ws(c),
{
    c == ' ' || c == '\n' || c == '\t' || c == '\r'
}

fn is_digit_char(c: char) -> (r: bool)
    ensures
        r == is_digit(c),
{
    let v = c as u32;
    48 <= v && v <= 57
}

fn digit_value(c: char) -> (r: u64)
    requires
        is_digit(c),
    ensures
        r == digit_val(c),
{
    (c as u32 - 48) as u64
}

/// First non-whitespace position at or after `from`.
fn skip_ws(s: &str, len: usize, from: usize) -> (j: usize)
    requires
        from <= len,
        len == s@.len(),
    ensures
        j == skip_ws_idx(s@, from as int),
        from <= j <= len,
{
    let mut i = from;
    while i < len && is_ws_char(s.get_char(i))
        invariant
            from <= i <= len,
            len == s@.len(),
            skip_ws_idx(s@, from as int) == skip_ws_idx(s@, i as int),
        decreases len - i,
    {
        i = i + 1;
    }
    i
}

/// First non-digit position at or after `from`.
fn skip_digits(s: &str, len: usize, from: usize) -> (j: usize)
    requires
        from <= len,
        len == s@.len(),
    ensures
        j == skip_digits_idx(s@, from as int),
        from <= j <= len,
{
    let mut i = from;
    while i < len && is_digit_char(s.get_char(i))
        invariant
            from <= i <= len,
            len == s@.len(),
            skip_digits_idx(s@, from as int) == skip_digits_idx(s@, i as int),
        decreases len - i,
    {
        i = i + 1;
    }
    i
}

/// Value of the digit run `s[from..to]`, or `None` when it does not fit
/// in a `u64`.
fn parse_digits(s: &str, from: usize, to: usize) -> (r: Option<u64>)
    requires
        from <= to <= s@.len(),
        all_digits(s@.subrange(from as int, to as int)),
    ensures
        ({
            let t = s@.subrange(from as int, to as int);
            match r {
                Some(v) => v == dec_val(t) && dec_val(t) <= u64::MAX,
                None => dec_val(t) > u64::MAX,
            }
        }),
{
    let ghost t = s@.subrange(from as int, to as int);
    let mut val: u64 = 0;
    let mut i = from;
    while i < to
        invariant
            from <= i <= to <= s@.len(),
            t == s@.subrange(from as int, to as int),
            all_digits(t),
            val == dec_val(t.take(i - from)),
        decreases to - i,
    {
        let c = s.get_char(i);
        assert(c == t[i - from]);
        let d = digit_value(c);
        proof {
            assert(t.take(i - from + 1).drop_last() =~= t.take(i - from));
            assert(dec_val(t.take(i - from + 1)) == dec_val(t.take(i - from)) * 10 + digit_val(c));
        }
        if val > (u64::MAX - d) / 10 {
            proof {
                assert((u64::MAX - d) / 10 * 10 + (u64::MAX - d) % 10 == u64::MAX - d);
                assert(val * 10 + d > u64::MAX);
                lemma_dec_val_take_monotone(t, i - from + 1);
            }
            return None;
        }
        proof {
            assert((u64::MAX - d) / 10 * 10 + (u64::MAX - d) % 10 == u64::MAX - d);
            assert(val * 10 + d <= u64::MAX);
        }
        val = val * 10 + d;
        i = i + 1;
    }
    proof {
        assert(t.take(to - from) =~= t);
    }
    Some(val)
}

/// Reads the first two whitespace-delimited decimal tokens of `s`:
/// exactly the values `spec_parse_two` names, when both fit in a `u64`.
pub fn parse_two_u64(s: &str) -> (r: Option<(u64, u64)>)
    ensures
        ({
            match spec_parse_two(s@) {
                Some(nm) => if nm.0 <= u64::MAX && nm.1 <= u64::MAX {
                    r == Some((nm.0 as u64, nm.1 as u64))
                } else {
                    r == None::<(u64, u64)>
                },
                None => r == None::<(u64, u64)>,
            }
        }),
{
    let len = s.unicode_len();
    let a0 = skip_ws(s, len, 0);
    let a1 = skip_digits(s, len, a0);
    proof {
        lemma_skip_digits_props(s@, a0 as int);
    }
    if a1 == a0 || (a1 < len && !is_ws_char(s.get_char(a1))) {
        return None;
    }
    let b0 = skip_ws(s, len, a1);
    let b1 = skip_digits(s, len, b0);
    proof {
        lemma_skip_digits_props(s@, b0 as int);
    }
    if b1 == b0 || (b1 < len && !is_ws_char(s.get_char(b1))) {
        return None;
    }
    proof {
        assert(forall|k: int|
            0 <= k < a1 - a0 ==> is_digit(#[trigger] s@.subrange(a0 as int, a1 as int)[k]));
        assert(forall|k: int|
            0 <= k < b1 - b0 ==> is_digit(#[trigger] s@.subrange(b0 as int, b1 as int)[k]));
    }
    let n = parse_digits(s, a0, a1);
    let m = parse_digits(s, b0, b1);
    match (n, m) {
        (Some(n), Some(m)) => Some((n, m)),
        _ => None,
    }
}

} // verus!
