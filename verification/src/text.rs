//! Text and byte helpers shared by the other modules.

use vstd::prelude::*;
use vstd::utf8::{decode_utf8, encode_utf8, valid_utf8};
use vstd::string::{StringExecFns, StringSliceAdditionalSpecFns};

verus! {

/// UTF-8 encoding determines the text it encodes.
pub proof fn lemma_utf8_injective(a: Seq<char>, b: Seq<char>)
    requires
        encode_utf8(a) == encode_utf8(b),
    ensures
        a == b,
{
    vstd::utf8::encode_utf8_decode_utf8(a);
    vstd::utf8::encode_utf8_decode_utf8(b);
}

/// Whether two byte slices hold the same bytes.
pub fn bytes_eq(a: &[u8], b: &[u8]) -> (r: bool)
    ensures
        r == (a@ == b@),
{
    if a.len() != b.len() {
        return false;
    }
    let mut i: usize = 0;
    while i < a.len()
        invariant
            i <= a.len(),
            a.len() == b.len(),
            forall|j: int| 0 <= j < i ==> a@[j] == b@[j],
        decreases a.len() - i,
    {
        if a[i] != b[i] {
            return false;
        }
        i += 1;
    }
    assert(a@ =~= b@);
    true
}

/// Whether two strings hold the same text.
pub fn str_eq(a: &str, b: &str) -> (r: bool)
    ensures
        r == (a@ == b@),
{
    let r = bytes_eq(a.as_bytes(), b.as_bytes());
    proof {
        if r {
            lemma_utf8_injective(a@, b@);
        }
    }
    r
}

/// `std::str::from_utf8` accepts exactly the valid UTF-8 encodings, and the text it
/// hands back encodes to the bytes it was given.
#[verifier::external_body]
fn std_from_utf8(bytes: &[u8]) -> (r: Option<String>)
    ensures
        r is Some <==> valid_utf8(bytes@),
        r matches Some(s) ==> encode_utf8(s@) == bytes@,
{
    match std::str::from_utf8(bytes) {
        Ok(text) => Some(text.to_owned()),
        Err(_) => None,
    }
}

/// Decodes UTF-8 bytes into a string.
pub fn utf8_to_string(bytes: &[u8]) -> (r: Option<String>)
    ensures
        r is Some <==> valid_utf8(bytes@),
        r matches Some(s) ==> s@ == decode_utf8(bytes@) && encode_utf8(s@) == bytes@,
{
    let r = std_from_utf8(bytes);
    proof {
        if r is Some {
            vstd::utf8::encode_utf8_decode_utf8(r->0@);
        }
    }
    r
}

/// A value that can be turned into a string.
pub trait IntoText: Sized {
    /// The text that the string will hold.
    spec fn text(&self) -> Seq<char>;

    /// Turns the value into a string.
    fn into_text(self) -> (r: String)
        ensures
            r@ == self.text(),
    ;
}

impl IntoText for String {
    open spec fn text(&self) -> Seq<char> {
        self@
    }

    fn into_text(self) -> (r: String) {
        self
    }
}

impl IntoText for &str {
    open spec fn text(&self) -> Seq<char> {
        self@
    }

    fn into_text(self) -> (r: String) {
        self.to_owned()
    }
}

impl IntoText for &String {
    open spec fn text(&self) -> Seq<char> {
        self@
    }

    fn into_text(self) -> (r: String) {
        self.clone()
    }
}

/// `String::push` appends one character.
#[verifier::external_body]
fn std_string_push(text: &mut String, c: char)
    ensures
        final(text)@ == old(text)@.push(c),
{
    text.push(c);
}

/// Appends one character.
pub fn push_char(text: &mut String, c: char)
    ensures
        final(text)@ == old(text)@.push(c),
{
    std_string_push(text, c);
}

/// Appends a text.
pub fn push_text(text: &mut String, other: &str)
    ensures
        final(text)@ == old(text)@ + other@,
{
    text.append(other);
}

/// The characters of a text.
pub fn chars_of(text: &str) -> (r: Vec<char>)
    ensures
        r@ == text@,
{
    let mut out: Vec<char> = Vec::new();
    for c in it: text.chars()
        invariant
            it.seq() == text@,
            out@ == text@.take(it.index()),
    {
        out.push(c);
        assert(text@.take(it.index() + 1) =~= text@.take(it.index()).push(c));
    }
    assert(text@.take(text@.len() as int) =~= text@);
    out
}

/// The text made of the characters from one position up to another.
pub fn text_of(chars: &Vec<char>, from: usize, to: usize) -> (r: String)
    requires
        from <= to <= chars.len(),
    ensures
        r@ == chars@.subrange(from as int, to as int),
{
    let mut out = String::new();
    let mut i: usize = from;
    while i < to
        invariant
            from <= i <= to <= chars.len(),
            out@ == chars@.subrange(from as int, i as int),
        decreases to - i,
    {
        push_char(&mut out, chars[i]);
        assert(chars@.subrange(from as int, i + 1) =~= chars@.subrange(from as int, i as int).push(chars@[i as int]));
        i += 1;
    }
    out
}

/// The character of a decimal digit.
pub open spec fn digit_char(d: nat) -> char {
    ('0' as u32 + d) as char
}

/// Decimal notation without leading zeros.
pub open spec fn decimal(n: nat) -> Seq<char>
    decreases n,
{
    if n < 10 {
        seq![digit_char(n)]
    } else {
        decimal(n / 10).push(digit_char(n % 10))
    }
}

fn digit_to_char(d: u64) -> (c: char)
    requires
        d < 10,
    ensures
        c == digit_char(d as nat),
{
    (48u8 + d as u8) as char
}

/// Appends a number in decimal notation.
pub fn push_decimal(text: &mut String, n: u64)
    ensures
        final(text)@ == old(text)@ + decimal(n as nat),
    decreases n,
{
    if n < 10 {
        push_char(text, digit_to_char(n));
        assert(text@ =~= old(text)@ + decimal(n as nat));
    } else {
        push_decimal(text, n / 10);
        push_char(text, digit_to_char(n % 10));
        assert(text@ =~= old(text)@ + decimal(n as nat));
    }
}

/// A number in decimal notation.
pub fn decimal_string(n: u64) -> (r: String)
    ensures
        r@ == decimal(n as nat),
{
    let mut out = String::new();
    push_decimal(&mut out, n);
    assert(out@ =~= decimal(n as nat));
    out
}

/// Decimal notation of a number that may be negative.
pub open spec fn signed_decimal(n: int) -> Seq<char> {
    if n < 0 {
        "-"@ + decimal((-n) as nat)
    } else {
        decimal(n as nat)
    }
}

/// Appends a number that may be negative in decimal notation.
pub fn push_signed(text: &mut String, n: i64)
    ensures
        final(text)@ == old(text)@ + signed_decimal(n as int),
{
    if n >= 0 {
        push_decimal(text, n as u64);
    } else {
        push_text(text, "-");
        if n == i64::MIN {
            push_decimal(text, 9223372036854775808);
        } else {
            push_decimal(text, (-n) as u64);
        }
        assert(text@ =~= old(text)@ + signed_decimal(n as int));
    }
}

/// The character of a hexadecimal digit.
pub open spec fn hex_char(d: nat) -> char {
    if d < 10 {
        ('0' as u32 + d) as char
    } else {
        ('a' as u32 + (d - 10)) as char
    }
}

/// Hexadecimal notation without leading zeros.
pub open spec fn hex(n: nat) -> Seq<char>
    decreases n,
{
    if n < 16 {
        seq![hex_char(n)]
    } else {
        hex(n / 16).push(hex_char(n % 16))
    }
}

fn hex_to_char(d: u64) -> (c: char)
    requires
        d < 16,
    ensures
        c == hex_char(d as nat),
{
    if d < 10 {
        (48u8 + d as u8) as char
    } else {
        (97u8 + (d - 10) as u8) as char
    }
}

/// Appends a number in hexadecimal notation.
pub fn push_hex(text: &mut String, n: u64)
    ensures
        final(text)@ == old(text)@ + hex(n as nat),
    decreases n,
{
    if n < 16 {
        push_char(text, hex_to_char(n));
        assert(text@ =~= old(text)@ + hex(n as nat));
    } else {
        push_hex(text, n / 16);
        push_char(text, hex_to_char(n % 16));
        assert(text@ =~= old(text)@ + hex(n as nat));
    }
}

/// The last hexadecimal digits of a number, as many as asked for.
pub open spec fn fixed_hex(n: nat, width: nat) -> Seq<char>
    decreases width,
{
    if width == 0 {
        Seq::empty()
    } else {
        fixed_hex(n / 16, (width - 1) as nat).push(hex_char(n % 16))
    }
}

/// A number of fixed width has that many digits.
pub proof fn lemma_fixed_hex_len(n: nat, width: nat)
    ensures
        fixed_hex(n, width).len() == width,
    decreases width,
{
    if width > 0 {
        lemma_fixed_hex_len(n / 16, (width - 1) as nat);
    }
}

/// Appends the last hexadecimal digits of a number, as many as asked for.
pub fn push_fixed_hex(text: &mut String, n: u64, width: usize)
    ensures
        final(text)@ == old(text)@ + fixed_hex(n as nat, width as nat),
    decreases width,
{
    if width > 0 {
        push_fixed_hex(text, n / 16, width - 1);
        push_char(text, hex_to_char(n % 16));
    }
    assert(text@ =~= old(text)@ + fixed_hex(n as nat, width as nat));
}

/// Whether a character is a decimal digit.
pub open spec fn is_digit(c: char) -> bool {
    '0' <= c <= '9'
}

/// Whether a text is made of one or more decimal digits.
pub open spec fn all_digits(s: Seq<char>) -> bool {
    s.len() > 0 && forall|i: int| 0 <= i < s.len() ==> is_digit(#[trigger] s[i])
}

/// The number that a sequence of digits denotes.
pub open spec fn digits_value(s: Seq<char>) -> nat
    decreases s.len(),
{
    if s.len() == 0 {
        0
    } else {
        digits_value(s.drop_last()) * 10 + (s.last() as nat - '0' as nat) as nat
    }
}

/// The number that a text denotes: digits after an optional plus sign.
pub open spec fn unsigned_value(s: Seq<char>) -> Option<nat> {
    let body = if s.len() > 0 && s[0] == '+' {
        s.skip(1)
    } else {
        s
    };
    if all_digits(body) {
        Some(digits_value(body))
    } else {
        None
    }
}

/// The number that a text denotes: digits after an optional sign.
pub open spec fn signed_value(s: Seq<char>) -> Option<int> {
    if s.len() > 0 && s[0] == '-' {
        if all_digits(s.skip(1)) {
            Some(-(digits_value(s.skip(1)) as int))
        } else {
            None
        }
    } else {
        match unsigned_value(s) {
            Some(n) => Some(n as int),
            None => None,
        }
    }
}

proof fn lemma_digits_prefix(s: Seq<char>, i: int, j: int)
    requires
        0 <= i <= j <= s.len(),
    ensures
        digits_value(s.take(i)) <= digits_value(s.take(j)) || exists|k: int| 0 <= k < j && !is_digit(#[trigger] s[k]),
    decreases j,
{
    if i < j {
        assert(s.take(j).drop_last() =~= s.take(j - 1));
        lemma_digits_prefix(s, i, j - 1);
        if !is_digit(s[j - 1]) {
        }
    }
}

/// Reads the digits from one position up to another; nothing if there is none, if
/// something else stands there, or if the number exceeds `max`.
fn parse_digits(chars: &Vec<char>, from: usize, to: usize, max: u64) -> (r: Option<u64>)
    requires
        from <= to <= chars.len(),
    ensures
        r is Some <==> all_digits(chars@.subrange(from as int, to as int)) && digits_value(
            chars@.subrange(from as int, to as int),
        ) <= max,
        r matches Some(n) ==> n == digits_value(chars@.subrange(from as int, to as int)),
{
    let ghost s = chars@.subrange(from as int, to as int);
    if from == to {
        return None;
    }
    let mut value: u64 = 0;
    let mut i: usize = from;
    while i < to
        invariant
            from <= i <= to <= chars.len(),
            s == chars@.subrange(from as int, to as int),
            value == digits_value(s.take(i - from)),
            value <= max,
            forall|k: int| 0 <= k < i - from ==> is_digit(#[trigger] s[k]),
        decreases to - i,
    {
        let c = chars[i];
        assert(c == s[i - from]);
        if c < '0' || c > '9' {
            return None;
        }
        let d: u64 = c as u64 - '0' as u64;
        proof {
            assert(s.take(i + 1 - from).drop_last() =~= s.take(i - from));
            assert(s.take(i + 1 - from).last() == c);
            assert(digits_value(s.take(i + 1 - from)) == value * 10 + d);
            lemma_digits_prefix(s, i + 1 - from, s.len() as int);
            assert(s.take(s.len() as int) =~= s);
        }
        match value.checked_mul(10) {
            None => {
                return None;
            },
            Some(shifted) => {
                match shifted.checked_add(d) {
                    None => {
                        return None;
                    },
                    Some(sum) => {
                        if sum > max {
                            return None;
                        }
                        value = sum;
                    },
                }
            },
        }
        i += 1;
    }
    assert(s.take(s.len() as int) =~= s);
    Some(value)
}

/// Reads an unsigned number of at most `max` from part of a text.
pub fn parse_unsigned(chars: &Vec<char>, from: usize, to: usize, max: u64) -> (r: Option<u64>)
    requires
        from <= to <= chars.len(),
    ensures
        r is Some <==> (unsigned_value(chars@.subrange(from as int, to as int)) matches Some(n) && n <= max),
        r matches Some(n) ==> unsigned_value(chars@.subrange(from as int, to as int)) == Some(n as nat),
{
    if from < to && chars[from] == '+' {
        assert(chars@.subrange(from as int, to as int).skip(1) =~= chars@.subrange(from + 1, to as int));
        parse_digits(chars, from + 1, to, max)
    } else {
        parse_digits(chars, from, to, max)
    }
}

/// Reads an unsigned number of at most `max`.
pub fn parse_number(text: &str, max: u64) -> (r: Option<u64>)
    ensures
        r is Some <==> (unsigned_value(text@) matches Some(n) && n <= max),
        r matches Some(n) ==> unsigned_value(text@) == Some(n as nat),
{
    let chars = chars_of(text);
    assert(chars@.subrange(0, chars@.len() as int) =~= chars@);
    parse_unsigned(&chars, 0, chars.len(), max)
}

/// Reads a 32-bit signed number from part of a text.
pub fn parse_i32(chars: &Vec<char>, from: usize, to: usize) -> (r: Option<i32>)
    requires
        from <= to <= chars.len(),
    ensures
        r is Some <==> (signed_value(chars@.subrange(from as int, to as int)) matches Some(n) && i32::MIN <= n
            <= i32::MAX),
        r matches Some(n) ==> signed_value(chars@.subrange(from as int, to as int)) == Some(n as int),
{
    if from < to && chars[from] == '-' {
        assert(chars@.subrange(from as int, to as int).skip(1) =~= chars@.subrange(from + 1, to as int));
        match parse_digits(chars, from + 1, to, 2147483648) {
            Some(n) => Some((0i64 - n as i64) as i32),
            None => None,
        }
    } else {
        match parse_unsigned(chars, from, to, 2147483647) {
            Some(n) => Some(n as i32),
            None => None,
        }
    }
}

/// Unicode white space.
pub open spec fn is_space(c: char) -> bool {
    let n = c as u32;
    ||| 0x9 <= n <= 0xd
    ||| n == 0x20
    ||| n == 0x85
    ||| n == 0xa0
    ||| n == 0x1680
    ||| 0x2000 <= n <= 0x200a
    ||| n == 0x2028
    ||| n == 0x2029
    ||| n == 0x202f
    ||| n == 0x205f
    ||| n == 0x3000
}

/// Whether a text holds nothing but white space.
pub open spec fn is_blank(s: Seq<char>) -> bool {
    forall|i: int| 0 <= i < s.len() ==> is_space(#[trigger] s[i])
}

/// Whether a character is white space.
pub fn space(c: char) -> (r: bool)
    ensures
        r == is_space(c),
{
    let n: u32 = c as u32;
    (0x9 <= n && n <= 0xd) || n == 0x20 || n == 0x85 || n == 0xa0 || n == 0x1680 || (0x2000 <= n && n <= 0x200a)
        || n == 0x2028 || n == 0x2029 || n == 0x202f || n == 0x205f || n == 0x3000
}

/// Whether a text holds nothing but white space.
pub fn blank(text: &str) -> (r: bool)
    ensures
        r == is_blank(text@),
{
    let chars = chars_of(text);
    let mut i: usize = 0;
    while i < chars.len()
        invariant
            i <= chars.len(),
            chars@ == text@,
            forall|k: int| 0 <= k < i ==> is_space(#[trigger] text@[k]),
        decreases chars.len() - i,
    {
        if !space(chars[i]) {
            assert(!is_space(text@[i as int]));
            return false;
        }
        i += 1;
    }
    true
}

/// A text without the white space in front of it.
pub open spec fn trimmed_start(s: Seq<char>) -> Seq<char>
    decreases s.len(),
{
    if s.len() > 0 && is_space(s[0]) {
        trimmed_start(s.skip(1))
    } else {
        s
    }
}

/// A text without the white space behind it.
pub open spec fn trimmed_end(s: Seq<char>) -> Seq<char>
    decreases s.len(),
{
    if s.len() > 0 && is_space(s.last()) {
        trimmed_end(s.drop_last())
    } else {
        s
    }
}

/// A text without the white space around it.
pub open spec fn trimmed(s: Seq<char>) -> Seq<char> {
    trimmed_end(trimmed_start(s))
}

/// The bounds of a text without the white space around it.
pub fn trim_bounds(chars: &Vec<char>, from: usize, to: usize) -> (r: (usize, usize))
    requires
        from <= to <= chars.len(),
    ensures
        from <= r.0 <= r.1 <= to,
        chars@.subrange(r.0 as int, r.1 as int) == trimmed(chars@.subrange(from as int, to as int)),
{
    let ghost whole = chars@.subrange(from as int, to as int);
    let mut start: usize = from;
    while start < to && space(chars[start])
        invariant
            from <= start <= to <= chars.len(),
            trimmed_start(whole) == trimmed_start(chars@.subrange(start as int, to as int)),
        decreases to - start,
    {
        assert(chars@.subrange(start as int, to as int).skip(1) =~= chars@.subrange(start + 1, to as int));
        start += 1;
    }
    let ghost rest = chars@.subrange(start as int, to as int);
    assert(trimmed_start(whole) == rest);
    let mut end: usize = to;
    while end > start && space(chars[end - 1])
        invariant
            from <= start <= end <= to <= chars.len(),
            trimmed_end(rest) == trimmed_end(chars@.subrange(start as int, end as int)),
        decreases end - start,
    {
        assert(chars@.subrange(start as int, end as int).drop_last() =~= chars@.subrange(start as int, end - 1));
        end -= 1;
    }
    (start, end)
}

/// Whether a text stands in another one at a position.
pub open spec fn stands_in(s: Seq<char>, part: Seq<char>, i: int) -> bool {
    0 <= i && i + part.len() <= s.len() && s.subrange(i, i + part.len()) == part
}

/// The first position, from a given one, at which a text stands in another one.
pub open spec fn found_from(s: Seq<char>, part: Seq<char>, i: int) -> Option<int>
    decreases s.len() + 1 - i,
{
    if i < 0 || i + part.len() > s.len() {
        None
    } else if stands_in(s, part, i) {
        Some(i)
    } else {
        found_from(s, part, i + 1)
    }
}

/// The first position at which a text stands in another one.
pub open spec fn found(s: Seq<char>, part: Seq<char>) -> Option<int> {
    found_from(s, part, 0)
}

/// Where a text is found, it stands, and it does not stand before.
pub proof fn lemma_found_from(s: Seq<char>, part: Seq<char>, i: int)
    requires
        0 <= i,
    ensures
        match found_from(s, part, i) {
            Some(at) => i <= at && stands_in(s, part, at) && forall|k: int|
                i <= k < at ==> !#[trigger] stands_in(s, part, k),
            None => forall|k: int| i <= k ==> !#[trigger] stands_in(s, part, k),
        },
    decreases s.len() + 1 - i,
{
    if i + part.len() <= s.len() && !stands_in(s, part, i) {
        lemma_found_from(s, part, i + 1);
    }
}

fn stands_at(chars: &Vec<char>, part: &Vec<char>, from: usize, to: usize, i: usize) -> (r: bool)
    requires
        from <= i,
        i + part.len() <= to <= chars.len(),
    ensures
        r == stands_in(chars@.subrange(from as int, to as int), part@, i - from),
{
    let ghost s = chars@.subrange(from as int, to as int);
    let mut k: usize = 0;
    while k < part.len()
        invariant
            k <= part.len(),
            from <= i,
            i + part.len() <= to <= chars.len(),
            s == chars@.subrange(from as int, to as int),
            forall|j: int| 0 <= j < k ==> s[i - from + j] == #[trigger] part@[j],
        decreases part.len() - k,
    {
        if chars[i + k] != part[k] {
            assert(s.subrange(i - from, i - from + part@.len())[k as int] != part@[k as int]);
            return false;
        }
        k += 1;
    }
    assert(s.subrange(i - from, i - from + part@.len()) =~= part@);
    true
}

/// Where a text stands first in a part of another one, counted from the start of the whole.
pub fn find_in(chars: &Vec<char>, from: usize, to: usize, part: &str) -> (r: Option<usize>)
    requires
        from <= to <= chars.len(),
    ensures
        match (r, found(chars@.subrange(from as int, to as int), part@)) {
            (Some(i), Some(k)) => i == from + k && i + part@.len() <= to,
            (None, None) => true,
            _ => false,
        },
{
    let wanted = chars_of(part);
    let ghost s = chars@.subrange(from as int, to as int);
    let mut i: usize = from;
    while wanted.len() <= to - i
        invariant
            from <= i <= to <= chars.len(),
            wanted@ == part@,
            s == chars@.subrange(from as int, to as int),
            found(s, part@) == found_from(s, part@, i - from),
        decreases to - i,
    {
        if stands_at(chars, &wanted, from, to, i) {
            return Some(i);
        }
        assert(part@.len() == 0 ==> s.subrange(i - from, i - from) =~= part@);
        i += 1;
    }
    None
}

/// Whether a text stands anywhere in another one.
pub fn contains_text(text: &str, part: &str) -> (r: bool)
    ensures
        r == (found(text@, part@) is Some),
{
    let chars = chars_of(text);
    assert(chars@.subrange(0, chars@.len() as int) =~= text@);
    find_in(&chars, 0, chars.len(), part).is_some()
}

/// The last position of a character in a text.
pub open spec fn last_position(s: Seq<char>, c: char) -> Option<int>
    decreases s.len(),
{
    if s.len() == 0 {
        None
    } else if s.last() == c {
        Some(s.len() - 1)
    } else {
        last_position(s.drop_last(), c)
    }
}

/// The last position of a character in a part of a text, counted from the start of the
/// whole.
pub fn find_last(chars: &Vec<char>, from: usize, c: char) -> (r: Option<usize>)
    requires
        from <= chars.len(),
    ensures
        match (r, last_position(chars@.skip(from as int), c)) {
            (Some(i), Some(k)) => i == from + k && from <= i < chars.len(),
            (None, None) => true,
            _ => false,
        },
{
    let ghost s = chars@.skip(from as int);
    let mut i: usize = chars.len();
    assert(s.take(s.len() as int) =~= s);
    while i > from
        invariant
            from <= i <= chars.len(),
            s == chars@.skip(from as int),
            last_position(s, c) == last_position(s.take(i - from), c),
        decreases i,
    {
        assert(s.take(i - from).drop_last() =~= s.take(i - from - 1));
        assert(s.take(i - from).last() == chars@[i - 1]);
        if chars[i - 1] == c {
            return Some(i - 1);
        }
        i -= 1;
    }
    None
}

/// Whether a text begins with another one.
pub open spec fn begins_with(s: Seq<char>, prefix: Seq<char>) -> bool {
    prefix.len() <= s.len() && s.take(prefix.len() as int) == prefix
}

/// Whether a text begins with another one.
pub fn starts_with(text: &str, prefix: &str) -> (r: bool)
    ensures
        r == begins_with(text@, prefix@),
{
    let a = chars_of(text);
    let b = chars_of(prefix);
    if a.len() < b.len() {
        return false;
    }
    let mut i: usize = 0;
    while i < b.len()
        invariant
            i <= b.len() <= a.len(),
            a@ == text@,
            b@ == prefix@,
            forall|k: int| 0 <= k < i ==> a@[k] == b@[k],
        decreases b.len() - i,
    {
        if a[i] != b[i] {
            assert(text@.take(prefix@.len() as int)[i as int] != prefix@[i as int]);
            return false;
        }
        i += 1;
    }
    assert(text@.take(prefix@.len() as int) =~= prefix@);
    true
}

// ---------------------------------------------------------------------------
// Laws
// ---------------------------------------------------------------------------

/// A digit is one of ten characters, in order, and stands for its number.
pub proof fn law_digits(d: nat)
    requires
        d < 10,
    ensures
        digit_char(0) == '0' && digit_char(1) == '1' && digit_char(2) == '2' && digit_char(3) == '3' && digit_char(4)
            == '4' && digit_char(5) == '5' && digit_char(6) == '6' && digit_char(7) == '7' && digit_char(8) == '8'
            && digit_char(9) == '9',
        is_digit(digit_char(d)),
        digits_value(seq![digit_char(d)]) == d,
{
    reveal_with_fuel(digits_value, 2);
}

/// A number in decimal notation is read back as it was written: its digits are one of
/// `0` to `9`, the last of them the remainder by ten, and there is no leading zero.
pub proof fn law_decimal_is_read_back(n: nat)
    ensures
        all_digits(decimal(n)),
        digits_value(decimal(n)) == n,
        unsigned_value(decimal(n)) == Some(n),
        signed_value(signed_decimal(n as int)) == Some(n as int),
        n > 0 ==> signed_value(signed_decimal(-n)) == Some(-n),
        n > 0 ==> decimal(n)[0] != '0',
        decimal(0) == seq!['0'],
        forall|d: nat| d < 10 && n > 0 ==> #[trigger] decimal(10 * n + d) == decimal(n).push(digit_char(d)),
    decreases n,
{
    let s = decimal(n);
    if n >= 10 {
        law_decimal_is_read_back(n / 10);
        law_digits((n % 10) as nat);
        assert(s.drop_last() =~= decimal(n / 10));
        assert(s[0] == decimal(n / 10)[0]);
    } else {
        law_digits(n);
    }
    assert(s[0] != '+' && s[0] != '-') by {
        assert(is_digit(s[0]));
    }
    if n > 0 {
        let t = signed_decimal(-n);
        reveal_strlit("-");
        assert(t[0] == '-');
        assert(t.skip(1) =~= s);
    }
    assert forall|d: nat| d < 10 && n > 0 implies #[trigger] decimal(10 * n + d) == decimal(n).push(digit_char(d)) by {
        assert((10 * n + d) / 10 == n && (10 * n + d) % 10 == d);
    }
}

/// Different numbers have different notations.
pub proof fn law_decimal_is_injective(a: nat, b: nat)
    ensures
        decimal(a) == decimal(b) <==> a == b,
{
    law_decimal_is_read_back(a);
    law_decimal_is_read_back(b);
}

/// What a text of digits stands for is read from left to right, ten times what came before
/// plus the next digit; a plus sign in front changes nothing, a minus sign the sign, and any
/// other text stands for no number.
pub proof fn law_numbers_are_read(s: Seq<char>, d: nat)
    requires
        d < 10,
    ensures
        all_digits(s) ==> unsigned_value(s.push(digit_char(d))) == Some(10 * unsigned_value(s)->0 + d),
        all_digits(s) ==> unsigned_value(s) is Some && unsigned_value(seq!['+'] + s) == unsigned_value(s),
        all_digits(s) ==> signed_value(s) == Some(unsigned_value(s)->0 as int) && signed_value(seq!['-'] + s) == Some(
            -(unsigned_value(s)->0 as int),
        ),
        unsigned_value(s) is Some && s[0] != '+' ==> forall|i: int| 0 <= i < s.len() ==> '0' <= #[trigger] s[i] <= '9',
        unsigned_value(Seq::empty()) is None && signed_value(Seq::empty()) is None,
{
    law_digits(d);
    if all_digits(s) {
        let t = s.push(digit_char(d));
        assert(is_digit(s[0]) && t[0] == s[0]);
        assert(t.drop_last() =~= s);
        assert forall|i: int| 0 <= i < t.len() implies is_digit(#[trigger] t[i]) by {
            if i < s.len() {
                assert(t[i] == s[i]);
            }
        }
        assert((seq!['+'] + s).skip(1) =~= s);
        assert((seq!['-'] + s).skip(1) =~= s);
    }
    if unsigned_value(s) is Some && s[0] != '+' {
        assert forall|i: int| 0 <= i < s.len() implies '0' <= #[trigger] s[i] <= '9' by {
            assert(is_digit(s[i]));
        }
    }
}

/// A text of fixed width holds the last hexadecimal digits of a number: of so many digits
/// as it is wide, each one of sixteen characters, the last the remainder by sixteen.
pub proof fn law_hexadecimal_digits(n: nat, width: nat)
    ensures
        fixed_hex(n, width).len() == width,
        hex_char(0) == '0' && hex_char(9) == '9' && hex_char(10) == 'a' && hex_char(15) == 'f',
        forall|d: nat|
            d < 15 ==> #[trigger] hex_char(d) as u32 + 1 == hex_char(d + 1) as u32 || d == 9,
        forall|d: nat|
            d < 16 ==> #[trigger] fixed_hex(16 * n + d, width + 1) == fixed_hex(n, width).push(hex_char(d)),
        forall|d: nat| d < 16 && n > 0 ==> #[trigger] hex(16 * n + d) == hex(n).push(hex_char(d)),
        n < 16 ==> hex(n) == seq![hex_char(n)],
    decreases width,
{
    lemma_fixed_hex_len(n, width);
    assert forall|d: nat| d < 16 implies #[trigger] fixed_hex(16 * n + d, width + 1) == fixed_hex(n, width).push(
        hex_char(d),
    ) by {
        assert((16 * n + d) / 16 == n && (16 * n + d) % 16 == d);
    }
    assert forall|d: nat| d < 16 && n > 0 implies #[trigger] hex(16 * n + d) == hex(n).push(hex_char(d)) by {
        assert((16 * n + d) / 16 == n && (16 * n + d) % 16 == d);
    }
}

/// A trimmed text is the part between the blanks at the two ends: nothing but blanks is
/// taken away, and none is left at an end.
pub proof fn law_trimming(s: Seq<char>)
    ensures
        ({
            let t = trimmed(s);
            &&& exists|a: int, b: int|
                {
                    &&& 0 <= a <= b <= s.len()
                    &&& #[trigger] s.subrange(a, b) == t
                    &&& forall|i: int| 0 <= i < a || b <= i < s.len() ==> is_space(#[trigger] s[i])
                }
            &&& t.len() > 0 ==> !is_space(t[0]) && !is_space(t.last())
        }),
        is_space(' ') && is_space('\t') && is_space('\n') && is_space('\r'),
        forall|c: char| 0x21 <= c as u32 <= 0x7e ==> !(#[trigger] is_space(c)),
{
    let start = trimmed_start(s);
    lemma_trimmed_start(s);
    lemma_trimmed_end(start);
    let t = trimmed(s);
    let a = s.len() - start.len();
    let b = a + t.len();
    assert(start =~= s.skip(a));
    assert(s.subrange(a, b) =~= t) by {
        assert(t =~= start.take(t.len() as int));
    }
    assert forall|i: int| 0 <= i < a || b <= i < s.len() implies is_space(#[trigger] s[i]) by {
        if b <= i {
            assert(start[i - a] == s[i]);
        }
    }
    if t.len() > 0 {
        assert(t[0] == start[0]);
    }
}

proof fn lemma_trimmed_start(s: Seq<char>)
    ensures
        ({
            let t = trimmed_start(s);
            &&& t.len() <= s.len()
            &&& t == s.skip(s.len() - t.len())
            &&& forall|i: int| 0 <= i < s.len() - t.len() ==> is_space(#[trigger] s[i])
            &&& t.len() > 0 ==> !is_space(t[0])
        }),
    decreases s.len(),
{
    if s.len() > 0 && is_space(s[0]) {
        lemma_trimmed_start(s.skip(1));
        let t = trimmed_start(s);
        assert(t =~= s.skip(s.len() - t.len()));
        assert forall|i: int| 0 <= i < s.len() - t.len() implies is_space(#[trigger] s[i]) by {
            if i > 0 {
                assert(s.skip(1)[i - 1] == s[i]);
            }
        }
    } else {
        assert(s.skip(0) =~= s);
    }
}

proof fn lemma_trimmed_end(s: Seq<char>)
    ensures
        ({
            let t = trimmed_end(s);
            &&& t.len() <= s.len()
            &&& t == s.take(t.len() as int)
            &&& forall|i: int| t.len() <= i < s.len() ==> is_space(#[trigger] s[i])
            &&& t.len() > 0 ==> !is_space(t.last())
        }),
    decreases s.len(),
{
    if s.len() > 0 && is_space(s.last()) {
        lemma_trimmed_end(s.drop_last());
        let t = trimmed_end(s);
        assert(t =~= s.take(t.len() as int));
        assert forall|i: int| t.len() <= i < s.len() implies is_space(#[trigger] s[i]) by {
            if i < s.len() - 1 {
                assert(s.drop_last()[i] == s[i]);
            }
        }
    } else {
        assert(s.take(s.len() as int) =~= s);
    }
}

} // verus!
