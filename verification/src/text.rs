//! Text: decimal numbers, case-insensitive names and byte-limited messages.

use vstd::prelude::*;
use vstd::string::StrSliceExecFns;
use vstd::utf8::encode_utf8;

verus! {

/// `str`'s `==`, from the standard library: two strings are equal when they hold the
/// same characters.
pub assume_specification[ <str as PartialEq>::eq ](a: &str, b: &str) -> (r: bool)
    ensures
        r == (a@ == b@),
;

/// `String::push`, from the standard library: appends one character.
pub assume_specification[ String::push ](s: &mut String, c: char)
    ensures
        final(s)@ == old(s)@.push(c),
;

/// What `str::to_uppercase` makes of a text.
pub uninterp spec fn uppercase(s: Seq<char>) -> Seq<char>;

/// `str::to_uppercase`, from the standard library. Its result follows the Unicode tables
/// and is only given a name here.
#[verifier::external_body]
pub(crate) fn to_uppercase(s: &str) -> (r: String)
    ensures
        r@ == uppercase(s@),
{
    s.to_uppercase()
}

/// What `str::to_lowercase` makes of a text.
pub uninterp spec fn lowercase(s: Seq<char>) -> Seq<char>;

/// `str::to_lowercase`, from the standard library. Its result follows the Unicode tables
/// and is only given a name here.
#[verifier::external_body]
pub(crate) fn to_lowercase(s: &str) -> (r: String)
    ensures
        r@ == lowercase(s@),
{
    s.to_lowercase()
}

/// The decimal digit `d` as a character.
pub open spec fn digit(d: int) -> char {
    (48 + d) as char
}

/// `n` in decimal, without leading zeros.
pub open spec fn decimal(n: nat) -> Seq<char>
    decreases n,
{
    if n < 10 {
        seq![digit(n as int)]
    } else {
        decimal(n / 10).push(digit((n % 10) as int))
    }
}

/// `n` in decimal.
pub fn to_decimal(n: u64) -> (r: String)
    ensures
        r@ == decimal(n as nat),
    decreases n,
{
    let last: u8 = (n % 10) as u8;
    let c = (48u8 + last) as char;
    if n < 10 {
        let mut r = String::new();
        r.push(c);
        assert(r@ =~= decimal(n as nat));
        r
    } else {
        let mut r = to_decimal(n / 10);
        r.push(c);
        r
    }
}

/// The characters of `s`.
pub fn chars_of(s: &str) -> (r: Vec<char>)
    ensures
        r@ == s@,
{
    let mut r: Vec<char> = Vec::new();
    for c in it: s.chars()
        invariant
            r@ == s@.take(it.index()),
            it.seq() == s@,
    {
        r.push(c);
        assert(s@.take(it.index() + 1) =~= s@.take(it.index()).push(c));
    }
    assert(s@.take(s@.len() as int) =~= s@);
    r
}

/// The characters `from..to` of `chars` as a string.
pub fn string_from(chars: &Vec<char>, from: usize, to: usize) -> (r: String)
    requires
        from <= to <= chars@.len(),
    ensures
        r@ == chars@.subrange(from as int, to as int),
{
    let mut r = String::new();
    let mut i: usize = from;
    while i < to
        invariant
            from <= i <= to <= chars@.len(),
            r@ == chars@.subrange(from as int, i as int),
        decreases to - i,
    {
        r.push(chars[i]);
        assert(chars@.subrange(from as int, i + 1) =~= chars@.subrange(from as int, i as int).push(
            chars@[i as int],
        ));
        i = i + 1;
    }
    r
}

/// `c` with `A`..`Z` made lower case.
pub open spec fn ascii_lower(c: char) -> char {
    if 'A' <= c <= 'Z' {
        (c as int + 32) as char
    } else {
        c
    }
}

/// A text with `A`..`Z` made lower case.
pub open spec fn ascii_lowered(s: Seq<char>) -> Seq<char> {
    s.map_values(|c: char| ascii_lower(c))
}

fn lower_char(c: char) -> (r: char)
    ensures
        r == ascii_lower(c),
{
    if 'A' <= c && c <= 'Z' {
        (c as u8 + 32u8) as char
    } else {
        c
    }
}

/// `s` with its ASCII letters made lower case.
pub fn to_ascii_lowercase(s: &str) -> (r: String)
    ensures
        r@ == ascii_lowered(s@),
{
    let chars = chars_of(s);
    let mut r = String::new();
    let mut i: usize = 0;
    while i < chars.len()
        invariant
            i <= chars@.len(),
            chars@ == s@,
            r@ == ascii_lowered(s@.take(i as int)),
        decreases chars@.len() - i,
    {
        r.push(lower_char(chars[i]));
        assert(ascii_lowered(s@.take(i + 1)) =~= ascii_lowered(s@.take(i as int)).push(
            ascii_lower(s@[i as int]),
        ));
        i = i + 1;
    }
    assert(s@.take(s@.len() as int) =~= s@);
    r
}

/// Do the two strings match when ASCII case is ignored?
pub fn eq_ignore_ascii_case(a: &str, b: &str) -> (r: bool)
    ensures
        r == (ascii_lowered(a@) == ascii_lowered(b@)),
{
    let x = to_ascii_lowercase(a);
    let y = to_ascii_lowercase(b);
    x == y
}

/// The value of a run of decimal digits; `None` where it is empty or holds anything else.
pub open spec fn digits_value(s: Seq<char>) -> Option<nat>
    decreases s.len(),
{
    if s.len() == 0 || !('0' <= s.last() <= '9') {
        None
    } else if s.len() == 1 {
        Some((s[0] as int - 48) as nat)
    } else {
        match digits_value(s.drop_last()) {
            Some(n) => Some(10 * n + (s.last() as int - 48) as nat),
            None => None,
        }
    }
}

/// An unsigned number no greater than `max`: decimal digits, with or without a leading `+`.
pub open spec fn unsigned_value(s: Seq<char>, max: nat) -> Option<nat> {
    let digits = if s.len() > 0 && s[0] == '+' {
        s.drop_first()
    } else {
        s
    };
    match digits_value(digits) {
        Some(n) if n <= max => Some(n),
        _ => None,
    }
}

/// A signed number in `-(max + 1)..=max`: decimal digits, with or without a leading sign.
pub open spec fn signed_value(s: Seq<char>, max: nat) -> Option<int> {
    if s.len() > 0 && s[0] == '-' {
        match digits_value(s.drop_first()) {
            Some(n) if n <= max + 1 => Some(-(n as int)),
            _ => None,
        }
    } else {
        match unsigned_value(s, max) {
            Some(n) => Some(n as int),
            None => None,
        }
    }
}

proof fn lemma_digits_grow(s: Seq<char>, i: int)
    requires
        1 <= i <= s.len(),
        digits_value(s) is Some,
    ensures
        digits_value(s.take(i)) is Some,
        digits_value(s.take(i))->0 <= digits_value(s)->0,
    decreases s.len(),
{
    if i < s.len() {
        assert(s.drop_last().take(i) =~= s.take(i));
        lemma_digits_grow(s.drop_last(), i);
    } else {
        assert(s.take(i) =~= s);
    }
}

/// The digits from index `from` on as a number no greater than `max`.
fn parse_digits(chars: &Vec<char>, from: usize, max: u64) -> (r: Option<u64>)
    requires
        from <= chars@.len(),
    ensures
        match r {
            Some(n) => digits_value(chars@.skip(from as int)) == Some(n as nat) && n <= max,
            None => match digits_value(chars@.skip(from as int)) {
                Some(n) => n > max,
                None => true,
            },
        },
{
    let ghost s = chars@.skip(from as int);
    let len: usize = chars.len();
    if from == len {
        return None;
    }
    let mut n: u64 = 0;
    let mut i: usize = from;
    while i < len
        invariant
            len == chars@.len(),
            from <= i <= len,
            from < len,
            s == chars@.skip(from as int),
            i == from ==> n == 0,
            i > from ==> digits_value(s.take(i - from)) == Some(n as nat),
            n <= max,
        decreases len - i,
    {
        let c = chars[i];
        let ghost t = s.take(i - from + 1);
        assert(t.drop_last() =~= s.take(i - from));
        assert(t.last() == c);
        if !('0' <= c && c <= '9') {
            proof {
                if digits_value(s) is Some {
                    lemma_digits_grow(s, i - from + 1);
                }
            }
            return None;
        }
        let d: u64 = (c as u8 - 48u8) as u64;
        proof {
            if digits_value(s) is Some {
                lemma_digits_grow(s, i - from + 1);
            }
            assert(digits_value(t) == Some((10 * n + d) as nat));
        }
        if n > (max - (if d <= max { d } else { max })) / 10 || d > max {
            return None;
        }
        n = n * 10 + d;
        i = i + 1;
    }
    assert(s.take(len - from) =~= s);
    Some(n)
}

/// Parse an unsigned number no greater than `max`.
pub fn parse_unsigned(s: &str, max: u64) -> (r: Option<u64>)
    ensures
        r == (match unsigned_value(s@, max as nat) {
            Some(n) => Some(n as u64),
            None => None,
        }),
        r matches Some(n) ==> n <= max,
{
    let chars = chars_of(s);
    let from: usize = if chars.len() > 0 && chars[0] == '+' {
        1
    } else {
        0
    };
    assert(chars@.skip(0) =~= chars@);
    assert(chars@.len() > 0 ==> chars@.skip(1) =~= chars@.drop_first());
    parse_digits(&chars, from, max)
}

/// Parse a signed number in `-(max + 1)..=max`.
pub fn parse_signed(s: &str, max: i32) -> (r: Option<i32>)
    requires
        0 <= max < i32::MAX,
    ensures
        r == (match signed_value(s@, max as nat) {
            Some(n) => Some(n as i32),
            None => None,
        }),
        r matches Some(n) ==> -(max + 1) <= n <= max,
{
    let chars = chars_of(s);
    if chars.len() > 0 && chars[0] == '-' {
        assert(chars@.skip(1) =~= chars@.drop_first());
        match parse_digits(&chars, 1, max as u64 + 1) {
            Some(n) => Some(-(n as i32)),
            None => None,
        }
    } else {
        match parse_unsigned(s, max as u64) {
            Some(n) => Some(n as i32),
            None => None,
        }
    }
}

/// Unicode's `White_Space` property.
pub open spec fn is_white(c: char) -> bool {
    let n = c as int;
    ||| 0x09 <= n <= 0x0D
    ||| n == 0x20
    ||| n == 0x85
    ||| n == 0xA0
    ||| n == 0x1680
    ||| 0x2000 <= n <= 0x200A
    ||| n == 0x2028
    ||| n == 0x2029
    ||| n == 0x202F
    ||| n == 0x205F
    ||| n == 0x3000
}

/// Is `c` white space?
pub fn is_whitespace(c: char) -> (r: bool)
    ensures
        r == is_white(c),
{
    let n: u32 = c as u32;
    (0x09 <= n && n <= 0x0D) || n == 0x20 || n == 0x85 || n == 0xA0 || n == 0x1680 || (0x2000 <= n
        && n <= 0x200A) || n == 0x2028 || n == 0x2029 || n == 0x202F || n == 0x205F || n == 0x3000
}

/// The first 255 bytes of a message, all that fits into one.
pub open spec fn capped(bytes: Seq<u8>) -> Seq<u8> {
    bytes.take(if bytes.len() <= 255 {
        bytes.len() as int
    } else {
        255
    })
}

/// The first 255 bytes of `s`.
pub fn capped_bytes(s: &str) -> (r: Vec<u8>)
    ensures
        r@ == capped(encode_utf8(s@)),
{
    let mut r = s.as_bytes_vec();
    r.truncate(255);
    assert(r@ =~= capped(encode_utf8(s@)));
    r
}

/// Reading a decimal number back gives the number.
pub proof fn law_decimal_reads_back(n: nat)
    ensures
        digits_value(decimal(n)) == Some(n),
    decreases n,
{
    if n >= 10 {
        law_decimal_reads_back(n / 10);
        assert(decimal(n).drop_last() =~= decimal(n / 10));
    }
}

} // verus!
