//! Character-level helpers on source text: Unicode whitespace and control
//! characters, trimming, exact comparison, `;`-separated tokens and decimal digits.
//!
//! Each helper states, over the character sequence that a string views as,
//! exactly what it computes.

use vstd::prelude::*;

verus! {

/// Unicode `White_Space`: the characters that `char::is_whitespace` accepts.
pub open spec fn is_white_space(c: char) -> bool {
    let u = c as u32;
    ||| 0x09 <= u <= 0x0D
    ||| u == 0x20
    ||| u == 0x85
    ||| u == 0xA0
    ||| u == 0x1680
    ||| 0x2000 <= u <= 0x200A
    ||| u == 0x2028
    ||| u == 0x2029
    ||| u == 0x202F
    ||| u == 0x205F
    ||| u == 0x3000
}

/// Unicode general category `Cc`: the characters that `char::is_control` accepts.
pub open spec fn is_control(c: char) -> bool {
    let u = c as u32;
    u <= 0x1F || (0x7F <= u <= 0x9F)
}

/// The text with its leading whitespace removed.
pub open spec fn trim_start(s: Seq<char>) -> Seq<char>
    decreases s.len(),
{
    if s.len() > 0 && is_white_space(s[0]) {
        trim_start(s.drop_first())
    } else {
        s
    }
}

/// The text with its trailing whitespace removed.
pub open spec fn trim_end(s: Seq<char>) -> Seq<char>
    decreases s.len(),
{
    if s.len() > 0 && is_white_space(s.last()) {
        trim_end(s.drop_last())
    } else {
        s
    }
}

/// The text with leading and trailing whitespace removed (as `str::trim` does).
pub open spec fn trim(s: Seq<char>) -> Seq<char> {
    trim_end(trim_start(s))
}

/// Whether some character of the text is a control character.
pub open spec fn has_control(s: Seq<char>) -> bool {
    exists|i: int| 0 <= i < s.len() && is_control(#[trigger] s[i])
}

/// Whether the character is an ASCII decimal digit.
pub open spec fn is_digit_char(c: char) -> bool {
    '0' <= c <= '9'
}

/// The value of a run of decimal digit characters.
pub open spec fn digits_value(s: Seq<char>) -> nat
    decreases s.len(),
{
    if s.len() == 0 {
        0
    } else {
        digits_value(s.drop_last()) * 10 + ((s.last() as u32 - '0' as u32) as nat)
    }
}

/// Whether every character of the text is a decimal digit.
pub open spec fn all_digits(s: Seq<char>) -> bool {
    forall|i: int| 0 <= i < s.len() ==> is_digit_char(#[trigger] s[i])
}

/// The text after an optional leading `+`.
pub open spec fn unsigned_digits(s: Seq<char>) -> Seq<char> {
    if s.len() > 0 && s[0] == '+' {
        s.drop_first()
    } else {
        s
    }
}

/// What `u32::from_str` yields: an optional `+`, then at least one decimal
/// digit, with a value that fits in 32 bits.
pub open spec fn decimal_u32(s: Seq<char>) -> Option<u32> {
    let digits = unsigned_digits(s);
    if digits.len() > 0 && all_digits(digits) && digits_value(digits) <= u32::MAX {
        Some(digits_value(digits) as u32)
    } else {
        None
    }
}

/// Whether a character is Unicode whitespace.
pub fn char_is_white_space(c: char) -> (r: bool)
    ensures
        r == is_white_space(c),
{
    let u = c as u32;
    (0x09 <= u && u <= 0x0D) || u == 0x20 || u == 0x85 || u == 0xA0 || u == 0x1680 || (0x2000
        <= u && u <= 0x200A) || u == 0x2028 || u == 0x2029 || u == 0x202F || u == 0x205F || u
        == 0x3000
}

/// Whether a character is a control character.
pub fn char_is_control(c: char) -> (r: bool)
    ensures
        r == is_control(c),
{
    let u = c as u32;
    u <= 0x1F || (0x7F <= u && u <= 0x9F)
}

proof fn lemma_trim_start_skip(s: Seq<char>, i: int)
    requires
        0 <= i <= s.len(),
        forall|j: int| 0 <= j < i ==> is_white_space(#[trigger] s[j]),
    ensures
        trim_start(s) == trim_start(s.subrange(i, s.len() as int)),
    decreases i,
{
    if i > 0 {
        assert(s.drop_first() == s.subrange(1, s.len() as int));
        lemma_trim_start_skip(s.drop_first(), i - 1);
        assert(s.drop_first().subrange(i - 1, s.drop_first().len() as int) == s.subrange(
            i,
            s.len() as int,
        ));
    } else {
        assert(s.subrange(0, s.len() as int) == s);
    }
}

proof fn lemma_trim_end_skip(s: Seq<char>, k: int)
    requires
        0 <= k <= s.len(),
        forall|j: int| k <= j < s.len() ==> is_white_space(#[trigger] s[j]),
    ensures
        trim_end(s) == trim_end(s.subrange(0, k)),
    decreases s.len() - k,
{
    if k < s.len() {
        lemma_trim_end_skip(s.drop_last(), k);
        assert(s.drop_last().subrange(0, k) == s.subrange(0, k));
    } else {
        assert(s.subrange(0, k) == s);
    }
}

/// The bounds `(a, b)` of the trimmed part of a text: `trim(s) == s[a..b]`.
pub fn trim_bounds(s: &str) -> (r: (usize, usize))
    ensures
        r.0 <= r.1 <= s@.len(),
        trim(s@) == s@.subrange(r.0 as int, r.1 as int),
        r.0 == r.1 ==> trim(s@).len() == 0,
{
    let n = s.unicode_len();
    let mut a: usize = 0;
    while a < n && char_is_white_space(s.get_char(a))
        invariant
            n == s@.len(),
            a <= n,
            forall|j: int| 0 <= j < a ==> is_white_space(#[trigger] s@[j]),
        decreases n - a,
    {
        a = a + 1;
    }
    proof {
        lemma_trim_start_skip(s@, a as int);
    }
    let ghost rest = s@.subrange(a as int, n as int);
    assert(a < n ==> !is_white_space(rest[0]));
    assert(trim_start(rest) == rest);
    let mut b: usize = n;
    while b > a && char_is_white_space(s.get_char(b - 1))
        invariant
            n == s@.len(),
            a <= b <= n,
            rest == s@.subrange(a as int, n as int),
            forall|j: int| b <= j < n ==> is_white_space(#[trigger] s@[j]),
        decreases b - a,
    {
        b = b - 1;
    }
    proof {
        assert forall|j: int| (b - a) <= j < rest.len() implies is_white_space(#[trigger] rest[j]) by {
            assert(rest[j] == s@[j + a]);
        }
        lemma_trim_end_skip(rest, (b - a) as int);
        assert(rest.subrange(0, (b - a) as int) == s@.subrange(a as int, b as int));
        let t = s@.subrange(a as int, b as int);
        if b > a {
            assert(t.last() == s@[b - 1]);
            assert(trim_end(t) == t);
        } else {
            assert(t.len() == 0);
        }
    }
    (a, b)
}

/// Whether a text consists only of whitespace (the empty text included).
pub fn is_blank(s: &str) -> (r: bool)
    ensures
        r == (trim(s@).len() == 0),
{
    let (a, b) = trim_bounds(s);
    a == b
}

/// The text with leading and trailing whitespace removed.
pub fn trimmed(s: &str) -> (t: &str)
    ensures
        t@ == trim(s@),
{
    let (a, b) = trim_bounds(s);
    s.substring_char(a, b)
}

/// Whether some character of the text is a control character.
pub fn any_control(s: &str) -> (r: bool)
    ensures
        r == has_control(s@),
{
    let n = s.unicode_len();
    let mut i: usize = 0;
    while i < n
        invariant
            n == s@.len(),
            i <= n,
            forall|j: int| 0 <= j < i ==> !is_control(#[trigger] s@[j]),
        decreases n - i,
    {
        if char_is_control(s.get_char(i)) {
            return true;
        }
        i = i + 1;
    }
    false
}

/// Whether two texts are the same sequence of characters.
pub fn same_text(a: &str, b: &str) -> (r: bool)
    ensures
        r == (a@ == b@),
{
    let n = a.unicode_len();
    let m = b.unicode_len();
    if n != m {
        return false;
    }
    let mut i: usize = 0;
    while i < n
        invariant
            n == a@.len(),
            n == b@.len(),
            i <= n,
            forall|j: int| 0 <= j < i ==> a@[j] == b@[j],
        decreases n - i,
    {
        if a.get_char(i) != b.get_char(i) {
            return false;
        }
        i = i + 1;
    }
    assert(a@ == b@);
    true
}

/// Parse a `u32` as `u32::from_str` does: an optional `+`, then decimal
/// digits, failing on anything else or on overflow.
pub fn parse_decimal_u32(s: &str) -> (r: Option<u32>)
    ensures
        r == decimal_u32(s@),
{
    let n = s.unicode_len();
    let start: usize = if n > 0 && s.get_char(0) == '+' { 1 } else { 0 };
    let ghost digits = unsigned_digits(s@);
    assert(digits == s@.subrange(start as int, n as int));
    if start == n {
        return None;
    }
    let mut acc: u64 = 0;
    let mut i: usize = start;
    while i < n
        invariant
            n == s@.len(),
            start <= i <= n,
            start < n,
            digits == unsigned_digits(s@),
            digits == s@.subrange(start as int, n as int),
            forall|j: int| start <= j < i ==> is_digit_char(#[trigger] s@[j]),
            acc == digits_value(s@.subrange(start as int, i as int)),
            acc <= u32::MAX,
        decreases n - i,
    {
        let c = s.get_char(i);
        assert(digits[i - start] == c);
        if !('0' <= c && c <= '9') {
            assert(!all_digits(digits));
            return None;
        }
        let d = (c as u32 - '0' as u32) as u64;
        assert(s@.subrange(start as int, i + 1).drop_last() == s@.subrange(start as int, i as int));
        assert(s@.subrange(start as int, i + 1).last() == c);
        let next = acc * 10 + d;
        if next > u32::MAX as u64 {
            proof {
                if all_digits(digits) {
                    lemma_digits_value_monotone(digits, (i + 1 - start) as int);
                    assert(digits.subrange(0, (i + 1 - start) as int) == s@.subrange(
                        start as int,
                        i + 1,
                    ));
                }
            }
            return None;
        }
        acc = next;
        i = i + 1;
    }
    assert(s@.subrange(start as int, n as int) == digits);
    assert forall|k: int| 0 <= k < digits.len() implies is_digit_char(#[trigger] digits[k]) by {
        assert(digits[k] == s@[k + start]);
    }
    assert(all_digits(digits));
    Some(acc as u32)
}

/// The value of a digit run never decreases when digits are appended.
pub proof fn lemma_digits_value_monotone(s: Seq<char>, k: int)
    requires
        0 <= k <= s.len(),
        forall|i: int| 0 <= i < s.len() ==> is_digit_char(#[trigger] s[i]),
    ensures
        digits_value(s.subrange(0, k)) <= digits_value(s),
    decreases s.len() - k,
{
    if k < s.len() {
        lemma_digits_value_monotone(s.drop_last(), k);
        assert(s.drop_last().subrange(0, k) == s.subrange(0, k));
    } else {
        assert(s.subrange(0, k) == s);
    }
}


/// The decimal digit character of `d` (0 to 9).
pub open spec fn digit_char(d: nat) -> char {
    (48 + d) as char
}

/// The decimal text of `n`, without sign or leading zeros.
pub open spec fn decimal_text(n: nat) -> Seq<char>
    decreases n,
{
    if n < 10 {
        seq![digit_char(n)]
    } else {
        decimal_text(n / 10).push(digit_char(n % 10))
    }
}

fn digit_str(d: u64) -> (r: &'static str)
    requires
        d < 10,
    ensures
        r@ == seq![digit_char(d as nat)],
{
    proof {
        reveal_strlit("0");
        reveal_strlit("1");
        reveal_strlit("2");
        reveal_strlit("3");
        reveal_strlit("4");
        reveal_strlit("5");
        reveal_strlit("6");
        reveal_strlit("7");
        reveal_strlit("8");
        reveal_strlit("9");
    }
    if d == 0 {
        "0"
    } else if d == 1 {
        "1"
    } else if d == 2 {
        "2"
    } else if d == 3 {
        "3"
    } else if d == 4 {
        "4"
    } else if d == 5 {
        "5"
    } else if d == 6 {
        "6"
    } else if d == 7 {
        "7"
    } else if d == 8 {
        "8"
    } else {
        "9"
    }
}

/// The decimal text of `n`, as `n.to_string()` writes it.
pub fn decimal_string(n: u64) -> (r: String)
    ensures
        r@ == decimal_text(n as nat),
    decreases n,
{
    if n < 10 {
        digit_str(n).to_owned()
    } else {
        let head = decimal_string(n / 10);
        head.concat(digit_str(n % 10))
    }
}

/// Whether `s[i..j]` is one whole `;`-separated piece of `s`.
pub open spec fn is_piece(s: Seq<char>, i: int, j: int) -> bool {
    &&& 0 <= i <= j <= s.len()
    &&& (i == 0 || s[i - 1] == ';')
    &&& (j == s.len() || s[j] == ';')
    &&& forall|k: int| i <= k < j ==> s[k] != ';'
}

/// Whether some `;`-separated piece of `s`, trimmed, is exactly `token`.
pub open spec fn has_token(s: Seq<char>, token: Seq<char>) -> bool {
    exists|i: int, j: int| #[trigger] is_piece(s, i, j) && trim(s.subrange(i, j)) == token
}

/// Between a boundary at `start` and the next `;` (or the end) at `k`, the
/// only piece that ends in `start..=k` is `s[start..k]`.
proof fn lemma_piece_between(s: Seq<char>, start: int, k: int, i: int, j: int)
    requires
        0 <= start <= k <= s.len(),
        start == 0 || s[start - 1] == ';',
        forall|m: int| start <= m < k ==> s[m] != ';',
        k == s.len() || s[k] == ';',
        is_piece(s, i, j),
        start <= j <= k,
    ensures
        i == start && j == k,
{
    if j < k {
        assert(s[j] == ';');
    }
    if i < start {
        assert(s[start - 1] == ';');
    }
    if i > start {
        assert(s[i - 1] == ';');
    }
}

/// Whether some `;`-separated piece of `s`, trimmed, is exactly `token`.
pub fn text_has_token(s: &str, token: &str) -> (r: bool)
    ensures
        r == has_token(s@, token@),
{
    let n = s.unicode_len();
    let mut start: usize = 0;
    let mut k: usize = 0;
    loop
        invariant
            n == s@.len(),
            start <= k <= n,
            start == 0 || s@[start - 1] == ';',
            forall|m: int| start <= m < k ==> s@[m] != ';',
            forall|i: int, j: int|
                #[trigger] is_piece(s@, i, j) && j < start ==> trim(s@.subrange(i, j)) != token@,
        decreases n - k,
    {
        if k == n || s.get_char(k) == ';' {
            let piece = s.substring_char(start, k);
            if same_text(trimmed(piece), token) {
                assert(is_piece(s@, start as int, k as int));
                return true;
            }
            assert forall|i: int, j: int|
                #[trigger] is_piece(s@, i, j) && j < k + 1 implies trim(s@.subrange(i, j))
                != token@ by {
                if j >= start {
                    lemma_piece_between(s@, start as int, k as int, i, j);
                }
            }
            if k == n {
                return false;
            }
            start = k + 1;
            k = k + 1;
        } else {
            k = k + 1;
        }
    }
}

/// Decimal text reads back as the number it was written from: the text of
/// `n` is a non-empty run of digits whose value is `n`. So every `u32`
/// written out, with or without a leading `+`, is read back as itself.
pub proof fn lemma_decimal_text_reads_back(n: nat)
    ensures
        decimal_text(n).len() > 0,
        all_digits(decimal_text(n)),
        digits_value(decimal_text(n)) == n,
        n <= u32::MAX ==> decimal_u32(decimal_text(n)) == Some(n as u32),
        n <= u32::MAX ==> decimal_u32(seq!['+'] + decimal_text(n)) == Some(n as u32),
    decreases n,
{
    let t = decimal_text(n);
    let d = n % 10;
    assert(digit_char(d) as u32 == 48 + d);
    assert(t.last() == digit_char(d));
    assert((t.last() as u32 - '0' as u32) as nat == d);
    if n < 10 {
        assert(t.drop_last().len() == 0);
        assert(digits_value(t.drop_last()) == 0);
    } else {
        lemma_decimal_text_reads_back(n / 10);
        assert(t.drop_last() =~= decimal_text(n / 10));
        assert(digits_value(t.drop_last()) == n / 10);
        assert((n / 10) * 10 + n % 10 == n);
    }
    assert(digits_value(t) == digits_value(t.drop_last()) * 10 + d);
    assert(t[0] != '+');
    assert(unsigned_digits(t) == t);
    assert((seq!['+'] + t).drop_first() =~= t);
}

} // verus!
