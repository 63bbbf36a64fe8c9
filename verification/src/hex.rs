//! Hex text of card data: parsing keys and blocks typed by the user or read
//! from a dump, and printing sector bytes.

use vstd::prelude::*;
use crate::text::{push_char, push_decimal, decimal, digit_char};

verus! {

/// Whether `c` is an ASCII hex digit (`char::is_ascii_hexdigit`).
pub open spec fn is_hex_digit(c: char) -> bool {
    ('0' <= c && c <= '9') || ('a' <= c && c <= 'f') || ('A' <= c && c <= 'F')
}

/// The value of a hex digit.
pub open spec fn hex_value(c: char) -> nat {
    if '0' <= c && c <= '9' {
        (c as int - '0' as int) as nat
    } else if 'a' <= c && c <= 'f' {
        (c as int - 'a' as int + 10) as nat
    } else {
        (c as int - 'A' as int + 10) as nat
    }
}

/// The hex digits of `s`, in order; every other character is dropped.
pub open spec fn hex_digits(s: Seq<char>) -> Seq<char>
    decreases s.len(),
{
    if s.len() == 0 {
        Seq::empty()
    } else if is_hex_digit(s.last()) {
        hex_digits(s.drop_last()).push(s.last())
    } else {
        hex_digits(s.drop_last())
    }
}

/// The bytes spelled by consecutive pairs of hex digits, high digit first.
pub open spec fn decode_hex_pairs(digits: Seq<char>) -> Seq<u8> {
    Seq::new(
        digits.len() / 2,
        |i: int| (hex_value(digits[2 * i]) * 16 + hex_value(digits[2 * i + 1])) as u8,
    )
}

/// The message for a hex field with the wrong number of digits.
pub open spec fn hex_length_error(field_name: Seq<char>, n: nat) -> Seq<char> {
    field_name + " must be exactly "@ + decimal(2 * n) + " hex chars"@
}

/// Reading `n` bytes from hex text: only the hex digits count, and there must
/// be exactly `2 * n` of them.
pub open spec fn parse_hex(input: Seq<char>, n: nat, field_name: Seq<char>) -> Result<
    Seq<u8>,
    Seq<char>,
> {
    let digits = hex_digits(input);
    if digits.len() != 2 * n {
        Err(hex_length_error(field_name, n))
    } else {
        Ok(decode_hex_pairs(digits))
    }
}

/// The upper-case hex digit for a value below 16.
pub open spec fn hex_char(v: nat) -> char {
    if v < 10 {
        digit_char(v)
    } else if v == 10 {
        'A'
    } else if v == 11 {
        'B'
    } else if v == 12 {
        'C'
    } else if v == 13 {
        'D'
    } else if v == 14 {
        'E'
    } else {
        'F'
    }
}

/// The high hex digit of a byte.
pub open spec fn high_digit(b: u8) -> char {
    hex_char((b / 16) as nat)
}

/// The low hex digit of a byte.
pub open spec fn low_digit(b: u8) -> char {
    hex_char((b % 16) as nat)
}

/// Bytes as upper-case hex, two digits each, nothing between them
/// (`format!("{:02X}")` joined with "").
pub open spec fn hex_compact(bytes: Seq<u8>) -> Seq<char>
    decreases bytes.len(),
{
    if bytes.len() == 0 {
        Seq::empty()
    } else {
        hex_compact(bytes.drop_last()).push(high_digit(bytes.last())).push(low_digit(bytes.last()))
    }
}

/// Bytes as upper-case hex, two digits each, one space between bytes
/// (`format!("{:02X}")` joined with " ").
pub open spec fn hex_spaced(bytes: Seq<u8>) -> Seq<char>
    decreases bytes.len(),
{
    if bytes.len() == 0 {
        Seq::empty()
    } else if bytes.len() == 1 {
        seq![high_digit(bytes[0]), low_digit(bytes[0])]
    } else {
        hex_spaced(bytes.drop_last()).push(' ').push(high_digit(bytes.last())).push(
            low_digit(bytes.last()),
        )
    }
}

/// How a byte shows in the text preview: printable ASCII as itself, any
/// other byte as '.'.
pub open spec fn preview_char(b: u8) -> char {
    if 0x20 <= b && b <= 0x7E {
        b as char
    } else {
        '.'
    }
}

/// The text preview of bytes, one character per byte.
pub open spec fn ascii_preview(bytes: Seq<u8>) -> Seq<char> {
    Seq::new(bytes.len(), |i: int| preview_char(bytes[i]))
}

fn hex_value_of(c: char) -> (v: u8)
    requires
        is_hex_digit(c),
    ensures
        v as nat == hex_value(c),
        v < 16,
{
    if '0' <= c && c <= '9' {
        (c as u32 - '0' as u32) as u8
    } else if 'a' <= c && c <= 'f' {
        (c as u32 - 'a' as u32 + 10) as u8
    } else {
        (c as u32 - 'A' as u32 + 10) as u8
    }
}

fn is_hex_digit_char(c: char) -> (r: bool)
    ensures
        r == is_hex_digit(c),
{
    ('0' <= c && c <= '9') || ('a' <= c && c <= 'f') || ('A' <= c && c <= 'F')
}

fn hex_char_of(v: u8) -> (c: char)
    requires
        v < 16,
    ensures
        c == hex_char(v as nat),
{
    if v == 0 { '0' }
    else if v == 1 { '1' }
    else if v == 2 { '2' }
    else if v == 3 { '3' }
    else if v == 4 { '4' }
    else if v == 5 { '5' }
    else if v == 6 { '6' }
    else if v == 7 { '7' }
    else if v == 8 { '8' }
    else if v == 9 { '9' }
    else if v == 10 { 'A' }
    else if v == 11 { 'B' }
    else if v == 12 { 'C' }
    else if v == 13 { 'D' }
    else if v == 14 { 'E' }
    else { 'F' }
}

/// Parses `n` bytes from hex text. Characters that are not hex digits
/// (spaces, separators) are skipped; the digits that remain must number
/// exactly `2 * n`, else the error names the field and the expected count.
pub fn parse_fixed_hex(input: &str, n: usize, field_name: &str) -> (res: Result<Vec<u8>, String>)
    requires
        n <= usize::MAX / 2,
    ensures
        match res {
            Ok(bytes) => parse_hex(input@, n as nat, field_name@) == Ok::<Seq<u8>, Seq<char>>(bytes@),
            Err(e) => parse_hex(input@, n as nat, field_name@) == Err::<Seq<u8>, Seq<char>>(e@),
        },
{
    let len = input.unicode_len();
    let mut digits: Vec<char> = Vec::new();
    let mut i: usize = 0;
    while i < len
        invariant
            len == input@.len(),
            i <= len,
            digits@ == hex_digits(input@.subrange(0, i as int)),
            forall|j: int| 0 <= j < digits@.len() ==> is_hex_digit(#[trigger] digits@[j]),
        decreases len - i,
    {
        let c = input.get_char(i);
        assert(input@.subrange(0, i + 1).drop_last() =~= input@.subrange(0, i as int));
        if is_hex_digit_char(c) {
            digits.push(c);
        }
        i = i + 1;
    }
    assert(input@.subrange(0, len as int) =~= input@);
    if digits.len() != n * 2 {
        let mut msg = String::from_str(field_name);
        msg.append(" must be exactly ");
        push_decimal(&mut msg, (n * 2) as u64);
        msg.append(" hex chars");
        return Err(msg);
    }
    let mut out: Vec<u8> = Vec::new();
    let mut k: usize = 0;
    while k < n
        invariant
            digits@ == hex_digits(input@),
            digits@.len() == 2 * n,
            n <= usize::MAX / 2,
            k <= n,
            out@ =~= decode_hex_pairs(digits@).subrange(0, k as int),
            forall|j: int| 0 <= j < digits@.len() ==> is_hex_digit(#[trigger] digits@[j]),
        decreases n - k,
    {
        let hi = hex_value_of(digits[2 * k]);
        let lo = hex_value_of(digits[2 * k + 1]);
        out.push(hi * 16 + lo);
        k = k + 1;
    }
    assert(decode_hex_pairs(digits@).subrange(0, n as int) =~= decode_hex_pairs(digits@));
    Ok(out)
}

/// Bytes as upper-case hex with nothing between them, e.g. `[0xDE, 0xAD]`
/// gives "DEAD".
pub fn hex_bytes_no_space(chunk: &[u8]) -> (res: String)
    ensures
        res@ == hex_compact(chunk@),
{
    let mut out = String::new();
    let n = chunk.len();
    let mut i: usize = 0;
    while i < n
        invariant
            n == chunk@.len(),
            i <= n,
            out@ == hex_compact(chunk@.subrange(0, i as int)),
        decreases n - i,
    {
        let b = chunk[i];
        assert(chunk@.subrange(0, i + 1).drop_last() =~= chunk@.subrange(0, i as int));
        push_char(&mut out, hex_char_of(b / 16));
        push_char(&mut out, hex_char_of(b % 16));
        i = i + 1;
    }
    assert(chunk@.subrange(0, n as int) =~= chunk@);
    out
}

/// Bytes as upper-case hex separated by single spaces, e.g. `[0xDE, 0xAD]`
/// gives "DE AD".
pub fn hex_bytes_spaced(chunk: &[u8]) -> (res: String)
    ensures
        res@ == hex_spaced(chunk@),
{
    let mut out = String::new();
    let n = chunk.len();
    let mut i: usize = 0;
    while i < n
        invariant
            n == chunk@.len(),
            i <= n,
            out@ == hex_spaced(chunk@.subrange(0, i as int)),
        decreases n - i,
    {
        let b = chunk[i];
        assert(chunk@.subrange(0, i + 1).drop_last() =~= chunk@.subrange(0, i as int));
        if i > 0 {
            push_char(&mut out, ' ');
        }
        push_char(&mut out, hex_char_of(b / 16));
        push_char(&mut out, hex_char_of(b % 16));
        proof {
            if i == 0 {
                assert(out@ =~= hex_spaced(chunk@.subrange(0, 1)));
            }
        }
        i = i + 1;
    }
    assert(chunk@.subrange(0, n as int) =~= chunk@);
    out
}

/// The text preview of bytes: printable ASCII (0x20..=0x7E) as itself, any
/// other byte as '.'.
pub fn ascii_text(chunk: &[u8]) -> (res: String)
    ensures
        res@ == ascii_preview(chunk@),
{
    let mut out = String::new();
    let n = chunk.len();
    let mut i: usize = 0;
    while i < n
        invariant
            n == chunk@.len(),
            i <= n,
            out@ =~= ascii_preview(chunk@.subrange(0, i as int)),
        decreases n - i,
    {
        let b = chunk[i];
        if 0x20 <= b && b <= 0x7E {
            push_char(&mut out, b as char);
        } else {
            push_char(&mut out, '.');
        }
        i = i + 1;
    }
    assert(chunk@.subrange(0, n as int) =~= chunk@);
    out
}

/// The result of reading a key type: "A" is 0, "B" is 1, either case.
pub open spec fn key_type_code(key_type: Seq<char>) -> Result<u8, Seq<char>> {
    if key_type.len() == 1 && (key_type[0] == 'A' || key_type[0] == 'a') {
        Ok(0)
    } else if key_type.len() == 1 && (key_type[0] == 'B' || key_type[0] == 'b') {
        Ok(1)
    } else {
        Err("keyType must be 'A' or 'B'"@)
    }
}

/// Reads the Mifare key type: "A" (or "a") selects key A (0), "B" (or "b")
/// key B (1); anything else is refused.
pub fn parse_key_type(key_type: &str) -> (res: Result<u8, String>)
    ensures
        match res {
            Ok(code) => key_type_code(key_type@) == Ok::<u8, Seq<char>>(code),
            Err(e) => key_type_code(key_type@) == Err::<u8, Seq<char>>(e@),
        },
{
    if key_type.unicode_len() == 1 {
        let c = key_type.get_char(0);
        if c == 'A' || c == 'a' {
            return Ok(0);
        } else if c == 'B' || c == 'b' {
            return Ok(1);
        }
    }
    Err(String::from_str("keyType must be 'A' or 'B'"))
}

proof fn lemma_hex_char(v: nat)
    requires
        v < 16,
    ensures
        is_hex_digit(hex_char(v)),
        hex_value(hex_char(v)) == v,
{
}

proof fn lemma_byte_digits(b: u8)
    ensures
        is_hex_digit(high_digit(b)),
        is_hex_digit(low_digit(b)),
        (hex_value(high_digit(b)) * 16 + hex_value(low_digit(b))) as u8 == b,
{
    lemma_hex_char((b / 16) as nat);
    lemma_hex_char((b % 16) as nat);
}

proof fn lemma_hex_compact_shape(bytes: Seq<u8>)
    ensures
        hex_compact(bytes).len() == 2 * bytes.len(),
        forall|i: int|
            0 <= i < bytes.len() ==> #[trigger] hex_compact(bytes)[2 * i] == high_digit(bytes[i])
                && hex_compact(bytes)[2 * i + 1] == low_digit(bytes[i]),
    decreases bytes.len(),
{
    if bytes.len() > 0 {
        let prev = bytes.drop_last();
        lemma_hex_compact_shape(prev);
        assert forall|i: int| 0 <= i < bytes.len() implies #[trigger] hex_compact(bytes)[2 * i]
            == high_digit(bytes[i]) && hex_compact(bytes)[2 * i + 1] == low_digit(bytes[i]) by {
            if i < bytes.len() - 1 {
                assert(prev[i] == bytes[i]);
                assert(hex_compact(prev)[2 * i] == high_digit(prev[i]));
            }
        }
    }
}

proof fn lemma_hex_digits_push(s: Seq<char>, c: char)
    ensures
        hex_digits(s.push(c)) == if is_hex_digit(c) {
            hex_digits(s).push(c)
        } else {
            hex_digits(s)
        },
{
    assert(s.push(c).drop_last() =~= s);
}

proof fn lemma_hex_digits_of_compact(bytes: Seq<u8>)
    ensures
        hex_digits(hex_compact(bytes)) == hex_compact(bytes),
    decreases bytes.len(),
{
    if bytes.len() > 0 {
        let prev = bytes.drop_last();
        let b = bytes.last();
        lemma_hex_digits_of_compact(prev);
        lemma_byte_digits(b);
        lemma_hex_digits_push(hex_compact(prev), high_digit(b));
        lemma_hex_digits_push(hex_compact(prev).push(high_digit(b)), low_digit(b));
    }
}

proof fn lemma_hex_digits_of_spaced(bytes: Seq<u8>)
    ensures
        hex_digits(hex_spaced(bytes)) == hex_compact(bytes),
    decreases bytes.len(),
{
    if bytes.len() == 1 {
        let b = bytes[0];
        assert(bytes.drop_last() =~= Seq::<u8>::empty());
        assert(bytes.last() == b);
        lemma_byte_digits(b);
        lemma_hex_digits_push(seq![high_digit(b)], low_digit(b));
        assert(seq![high_digit(b)].push(low_digit(b)) =~= hex_spaced(bytes));
        lemma_hex_digits_push(Seq::<char>::empty(), high_digit(b));
        assert(Seq::<char>::empty().push(high_digit(b)) =~= seq![high_digit(b)]);
        assert(hex_digits(Seq::<char>::empty()) =~= Seq::<char>::empty());
        assert(hex_compact(bytes.drop_last()) =~= Seq::<char>::empty());
    } else if bytes.len() > 1 {
        let prev = bytes.drop_last();
        let b = bytes.last();
        lemma_hex_digits_of_spaced(prev);
        lemma_byte_digits(b);
        let sp = hex_spaced(prev);
        lemma_hex_digits_push(sp, ' ');
        lemma_hex_digits_push(sp.push(' '), high_digit(b));
        lemma_hex_digits_push(sp.push(' ').push(high_digit(b)), low_digit(b));
    }
}

proof fn lemma_decode_compact(bytes: Seq<u8>)
    ensures
        decode_hex_pairs(hex_compact(bytes)) == bytes,
{
    lemma_hex_compact_shape(bytes);
    let d = hex_compact(bytes);
    assert forall|i: int| 0 <= i < bytes.len() implies #[trigger] decode_hex_pairs(d)[i]
        == bytes[i] by {
        assert(d[2 * i] == high_digit(bytes[i]));
        lemma_byte_digits(bytes[i]);
    }
    assert(decode_hex_pairs(d) =~= bytes);
}

/// Hex written without separators reads back as the same bytes: for every
/// byte sequence, parsing `hex_bytes_no_space` of it, for its own length,
/// gives it back, whatever the field's name.
pub proof fn lemma_compact_hex_round_trip(bytes: Seq<u8>, field_name: Seq<char>)
    ensures
        parse_hex(hex_compact(bytes), bytes.len(), field_name) == Ok::<Seq<u8>, Seq<char>>(bytes),
{
    lemma_hex_compact_shape(bytes);
    lemma_hex_digits_of_compact(bytes);
    lemma_decode_compact(bytes);
}

/// Hex written with spaces between bytes (the sector preview) reads back as
/// the same bytes: the spaces are skipped by the parser.
pub proof fn lemma_spaced_hex_round_trip(bytes: Seq<u8>, field_name: Seq<char>)
    ensures
        parse_hex(hex_spaced(bytes), bytes.len(), field_name) == Ok::<Seq<u8>, Seq<char>>(bytes),
{
    lemma_hex_compact_shape(bytes);
    lemma_hex_digits_of_spaced(bytes);
    lemma_decode_compact(bytes);
}

/// Every ASCII hex digit counts, in either case, with its value: '0'..='9'
/// are 0..=9, and 'a'..='f' as well as 'A'..='F' are 10..=15; no other
/// character is a hex digit.
pub proof fn lemma_hex_digit_values(c: char)
    ensures
        '0' <= c <= '9' ==> is_hex_digit(c) && hex_value(c) == c as int - 48,
        'a' <= c <= 'f' ==> is_hex_digit(c) && hex_value(c) == c as int - 97 + 10,
        'A' <= c <= 'F' ==> is_hex_digit(c) && hex_value(c) == c as int - 65 + 10,
        is_hex_digit(c) ==> ('0' <= c <= '9') || ('a' <= c <= 'f') || ('A' <= c <= 'F'),
{
}

/// The lower-case hex digit for a value below 16.
pub open spec fn hex_lower_char(v: nat) -> char {
    if v < 10 {
        digit_char(v)
    } else if v == 10 {
        'a'
    } else if v == 11 {
        'b'
    } else if v == 12 {
        'c'
    } else if v == 13 {
        'd'
    } else if v == 14 {
        'e'
    } else {
        'f'
    }
}

/// Bytes as lower-case hex, two digits each, nothing between them.
pub open spec fn hex_compact_lower(bytes: Seq<u8>) -> Seq<char>
    decreases bytes.len(),
{
    if bytes.len() == 0 {
        Seq::empty()
    } else {
        hex_compact_lower(bytes.drop_last()).push(hex_lower_char((bytes.last() / 16) as nat)).push(
            hex_lower_char((bytes.last() % 16) as nat),
        )
    }
}

proof fn lemma_hex_lower_char(v: nat)
    requires
        v < 16,
    ensures
        is_hex_digit(hex_lower_char(v)),
        hex_value(hex_lower_char(v)) == v,
{
}

proof fn lemma_hex_compact_lower_shape(bytes: Seq<u8>)
    ensures
        hex_compact_lower(bytes).len() == 2 * bytes.len(),
        forall|i: int|
            0 <= i < bytes.len() ==> #[trigger] hex_compact_lower(bytes)[2 * i] == hex_lower_char(
                (bytes[i] / 16) as nat,
            ) && hex_compact_lower(bytes)[2 * i + 1] == hex_lower_char((bytes[i] % 16) as nat),
        forall|j: int|
            0 <= j < hex_compact_lower(bytes).len() ==> is_hex_digit(
                #[trigger] hex_compact_lower(bytes)[j],
            ),
    decreases bytes.len(),
{
    if bytes.len() > 0 {
        let prev = bytes.drop_last();
        let b = bytes.last();
        lemma_hex_compact_lower_shape(prev);
        lemma_hex_lower_char((b / 16) as nat);
        lemma_hex_lower_char((b % 16) as nat);
        assert forall|i: int| 0 <= i < bytes.len() implies #[trigger] hex_compact_lower(bytes)[2
            * i] == hex_lower_char((bytes[i] / 16) as nat) && hex_compact_lower(bytes)[2 * i + 1]
            == hex_lower_char((bytes[i] % 16) as nat) by {
            if i < bytes.len() - 1 {
                assert(prev[i] == bytes[i]);
                assert(hex_compact_lower(prev)[2 * i] == hex_lower_char((prev[i] / 16) as nat));
            }
        }
        assert forall|j: int| 0 <= j < hex_compact_lower(bytes).len() implies is_hex_digit(
            #[trigger] hex_compact_lower(bytes)[j],
        ) by {
            if j < hex_compact_lower(prev).len() {
                assert(hex_compact_lower(bytes)[j] == hex_compact_lower(prev)[j]);
            }
        }
    }
}

proof fn lemma_hex_digits_all(s: Seq<char>)
    requires
        forall|j: int| 0 <= j < s.len() ==> is_hex_digit(#[trigger] s[j]),
    ensures
        hex_digits(s) == s,
    decreases s.len(),
{
    if s.len() > 0 {
        let prev = s.drop_last();
        assert forall|j: int| 0 <= j < prev.len() implies is_hex_digit(#[trigger] prev[j]) by {
            assert(prev[j] == s[j]);
        }
        lemma_hex_digits_all(prev);
        assert(prev.push(s.last()) =~= s);
    }
}

/// Hex typed in lower case reads back as the same bytes: for every byte
/// sequence, parsing its lower-case hex, for its own length, gives it back.
pub proof fn lemma_lower_hex_round_trip(bytes: Seq<u8>, field_name: Seq<char>)
    ensures
        parse_hex(hex_compact_lower(bytes), bytes.len(), field_name) == Ok::<Seq<u8>, Seq<char>>(
            bytes,
        ),
{
    lemma_hex_compact_lower_shape(bytes);
    let d = hex_compact_lower(bytes);
    lemma_hex_digits_all(d);
    assert forall|i: int| 0 <= i < bytes.len() implies #[trigger] decode_hex_pairs(d)[i]
        == bytes[i] by {
        let b = bytes[i];
        assert(d[2 * i] == hex_lower_char((b / 16) as nat));
        lemma_hex_lower_char((b / 16) as nat);
        lemma_hex_lower_char((b % 16) as nat);
    }
    assert(decode_hex_pairs(d) =~= bytes);
}

/// Hex is written in upper case: values 0..=9 become '0'..='9' and 10..=15
/// become 'A'..='F'; the high digit of a byte stands for its upper four
/// bits and the low digit for its lower four.
pub proof fn lemma_hex_char_values(v: nat, b: u8)
    requires
        v < 16,
    ensures
        v < 10 ==> hex_char(v) as int == 48 + v,
        v >= 10 ==> hex_char(v) as int == 65 + v - 10,
        hex_value(high_digit(b)) == b / 16,
        hex_value(low_digit(b)) == b % 16,
{
    lemma_byte_digits(b);
    lemma_hex_char((b / 16) as nat);
    lemma_hex_char((b % 16) as nat);
}

/// The preview keeps one character per byte: printable ASCII (0x20..=0x7E)
/// shows as that very character, and every other byte as '.'.
pub proof fn lemma_preview_chars(bytes: Seq<u8>)
    ensures
        ascii_preview(bytes).len() == bytes.len(),
        forall|i: int|
            0 <= i < bytes.len() ==> (0x20 <= bytes[i] <= 0x7E ==> #[trigger] ascii_preview(bytes)[i]
                as int == bytes[i] as int) && (!(0x20 <= bytes[i] <= 0x7E) ==> ascii_preview(
                bytes,
            )[i] == '.'),
{
}

} // verus!
