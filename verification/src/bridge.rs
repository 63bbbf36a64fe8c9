//! Decoding of the replies of the native NFC bridge.
//!
//! The bridge answers every request with a status code and fills
//! caller-provided byte buffers with NUL-terminated strings: the reply
//! fields on success, a message on failure.

use vstd::prelude::*;
use vstd::utf8::{valid_utf8, decode_utf8};
use crate::text::push_char;

verus! {

/// Opaque handle owned by the native bridge; only ever seen behind a pointer.
pub struct NfcBridgeHandle {
    _private: [u8; 0],
}

/// What `String::from_utf8_lossy` returns for a byte sequence.
pub uninterp spec fn lossy_utf8(bytes: Seq<u8>) -> Seq<char>;

/// Whether a character has the Unicode `White_Space` property.
pub uninterp spec fn white_space(c: char) -> bool;

/// Decodes bytes as UTF-8, replacing invalid sequences.
///
/// Trusted: calls `String::from_utf8_lossy` and takes the result as an owned
/// `String`. The contract names the result and states what its documentation
/// gives: valid UTF-8 is decoded unchanged. What the replacement characters of
/// invalid input are is left to the name.
#[verifier::external_body]
fn decode_lossy(bytes: &[u8]) -> (res: String)
    ensures
        res@ == lossy_utf8(bytes@),
        valid_utf8(bytes@) ==> res@ == decode_utf8(bytes@),
{
    String::from_utf8_lossy(bytes).into_owned()
}

/// Whether `c` is whitespace.
///
/// Trusted: calls `char::is_whitespace`, documented as testing the Unicode
/// `White_Space` property; the contract names that property.
#[verifier::external_body]
fn is_white_space(c: char) -> (r: bool)
    ensures
        r == white_space(c),
{
    c.is_whitespace()
}

/// The bytes of a C string: everything before the first NUL, or the whole
/// buffer when it holds none.
pub open spec fn cstr_bytes(buf: Seq<u8>) -> Seq<u8>
    decreases buf.len(),
{
    if buf.len() == 0 || buf[0] == 0 {
        Seq::empty()
    } else {
        seq![buf[0]] + cstr_bytes(buf.drop_first())
    }
}

/// `s` without its leading whitespace.
pub open spec fn trim_start(s: Seq<char>) -> Seq<char>
    decreases s.len(),
{
    if s.len() > 0 && white_space(s[0]) {
        trim_start(s.drop_first())
    } else {
        s
    }
}

/// `s` without its trailing whitespace.
pub open spec fn trim_end(s: Seq<char>) -> Seq<char>
    decreases s.len(),
{
    if s.len() > 0 && white_space(s.last()) {
        trim_end(s.drop_last())
    } else {
        s
    }
}

/// `s` without leading and trailing whitespace.
pub open spec fn trim(s: Seq<char>) -> Seq<char> {
    trim_end(trim_start(s))
}

/// The text a bridge buffer holds: its C string, decoded, trimmed.
pub open spec fn cstr_text(buf: Seq<u8>) -> Seq<char> {
    trim(lossy_utf8(cstr_bytes(buf)))
}

/// The message of a failed bridge call: the text of the error buffer, or a
/// fixed message when the bridge left it empty.
pub open spec fn error_text(buf: Seq<u8>) -> Seq<char> {
    if cstr_text(buf).len() == 0 {
        "unknown nfc error"@
    } else {
        cstr_text(buf)
    }
}

proof fn lemma_trim_start_suffix(s: Seq<char>, i: int)
    requires
        0 <= i <= s.len(),
        forall|j: int| 0 <= j < i ==> white_space(#[trigger] s[j]),
    ensures
        trim_start(s) == trim_start(s.subrange(i, s.len() as int)),
    decreases i,
{
    if i > 0 {
        assert(white_space(s[0]));
        let t = s.drop_first();
        assert forall|j: int| 0 <= j < i - 1 implies white_space(#[trigger] t[j]) by {
            assert(t[j] == s[j + 1]);
        }
        lemma_trim_start_suffix(t, i - 1);
        assert(t.subrange(i - 1, t.len() as int) =~= s.subrange(i, s.len() as int));
    } else {
        assert(s.subrange(0, s.len() as int) =~= s);
    }
}

proof fn lemma_trim_end_prefix(s: Seq<char>, k: int)
    requires
        0 <= k <= s.len(),
        forall|j: int| k <= j < s.len() ==> white_space(#[trigger] s[j]),
    ensures
        trim_end(s) == trim_end(s.subrange(0, k)),
    decreases s.len() - k,
{
    if k < s.len() {
        assert(white_space(s.last()));
        let t = s.drop_last();
        assert forall|j: int| k <= j < t.len() implies white_space(#[trigger] t[j]) by {
            assert(t[j] == s[j]);
        }
        lemma_trim_end_prefix(t, k);
        assert(t.subrange(0, k) =~= s.subrange(0, k));
    } else {
        assert(s.subrange(0, k) =~= s);
    }
}

/// Removes leading and trailing whitespace.
pub fn trim_string(s: &String) -> (res: String)
    ensures
        res@ == trim(s@),
{
    let t = s.as_str();
    let n = t.unicode_len();
    let mut i: usize = 0;
    while i < n && is_white_space(t.get_char(i))
        invariant
            n == t@.len(),
            t@ == s@,
            i <= n,
            forall|j: int| 0 <= j < i ==> white_space(#[trigger] t@[j]),
        decreases n - i,
    {
        i = i + 1;
    }
    proof {
        lemma_trim_start_suffix(s@, i as int);
    }
    let ghost rest = s@.subrange(i as int, n as int);
    assert(trim_start(rest) == rest);
    let mut k: usize = n;
    while k > i && is_white_space(t.get_char(k - 1))
        invariant
            n == t@.len(),
            t@ == s@,
            i <= k <= n,
            forall|j: int| k <= j < n ==> white_space(#[trigger] t@[j]),
        decreases k,
    {
        k = k - 1;
    }
    proof {
        assert forall|j: int| k - i <= j < rest.len() implies white_space(#[trigger] rest[j]) by {
            assert(rest[j] == s@[j + i]);
        }
        lemma_trim_end_prefix(rest, k - i);
        let kept = rest.subrange(0, k - i);
        assert(kept =~= s@.subrange(i as int, k as int));
        if kept.len() > 0 {
            assert(kept.last() == s@[k - 1]);
        }
        assert(trim_end(kept) == kept);
    }
    let mut out = String::new();
    let mut j: usize = i;
    while j < k
        invariant
            n == t@.len(),
            t@ == s@,
            i <= j <= k <= n,
            out@ =~= s@.subrange(i as int, j as int),
        decreases k - j,
    {
        push_char(&mut out, t.get_char(j));
        j = j + 1;
    }
    out
}

/// The bytes of `buf` before its first NUL (all of them when there is none).
pub fn cstr_prefix(buf: &[u8]) -> (res: Vec<u8>)
    ensures
        res@ == cstr_bytes(buf@),
{
    let mut out: Vec<u8> = Vec::new();
    let mut i: usize = 0;
    let n = buf.len();
    while i < n && buf[i] != 0
        invariant
            n == buf@.len(),
            i <= n,
            forall|j: int| 0 <= j < i ==> buf@[j] != 0,
            out@ =~= buf@.subrange(0, i as int),
        decreases n - i,
    {
        out.push(buf[i]);
        i = i + 1;
    }
    proof {
        lemma_cstr_bytes(buf@, i as int);
    }
    out
}

proof fn lemma_cstr_bytes(buf: Seq<u8>, i: int)
    requires
        0 <= i <= buf.len(),
        forall|j: int| 0 <= j < i ==> buf[j] != 0,
        i == buf.len() || buf[i] == 0,
    ensures
        cstr_bytes(buf) =~= buf.subrange(0, i),
    decreases i,
{
    if i > 0 {
        let t = buf.drop_first();
        assert forall|j: int| 0 <= j < i - 1 implies t[j] != 0 by {
            assert(t[j] == buf[j + 1]);
        }
        lemma_cstr_bytes(t, i - 1);
        assert(seq![buf[0]] + t.subrange(0, i - 1) =~= buf.subrange(0, i));
    }
}

/// Reads the text the bridge left in a buffer: the bytes before the first
/// NUL, decoded as UTF-8 (invalid sequences replaced), without leading or
/// trailing whitespace.
pub fn read_cstr(buf: &[u8]) -> (res: String)
    ensures
        res@ == cstr_text(buf@),
{
    let bytes = cstr_prefix(buf);
    let decoded = decode_lossy(bytes.as_slice());
    trim_string(&decoded)
}

/// Reads the error message of a failed bridge call; an empty message becomes
/// "unknown nfc error".
pub fn read_c_error(buf: &[u8]) -> (res: String)
    ensures
        res@ == error_text(buf@),
        res@.len() > 0,
{
    let msg = read_cstr(buf);
    if msg.as_str().unicode_len() == 0 {
        proof {
            reveal_strlit("unknown nfc error");
        }
        String::from_str("unknown nfc error")
    } else {
        msg
    }
}

/// The outcome of a bridge call: success on status 0, otherwise the message
/// of the error buffer.
pub fn check_bridge_return(ret: i32, err: &[u8]) -> (res: Result<(), String>)
    ensures
        res is Ok <==> ret == 0,
        res matches Err(e) ==> e@ == error_text(err@),
{
    if ret != 0 {
        Err(read_c_error(err))
    } else {
        Ok(())
    }
}

/// The reply to a probe: the number of devices found and the connection
/// string of the first.
pub fn probe_reply(ret: i32, count: usize, first: &[u8], err: &[u8]) -> (res: Result<
    (usize, String),
    String,
>)
    ensures
        res is Ok <==> ret == 0,
        res matches Ok((c, f)) ==> c == count && f@ == cstr_text(first@),
        res matches Err(e) ==> e@ == error_text(err@),
{
    match check_bridge_return(ret, err) {
        Err(e) => Err(e),
        Ok(()) => Ok((count, read_cstr(first))),
    }
}

/// The reply to a request for the reader's name.
pub fn name_reply(ret: i32, name: &[u8], err: &[u8]) -> (res: Result<String, String>)
    ensures
        res is Ok <==> ret == 0,
        res matches Ok(n) ==> n@ == cstr_text(name@),
        res matches Err(e) ==> e@ == error_text(err@),
{
    match check_bridge_return(ret, err) {
        Err(e) => Err(e),
        Ok(()) => Ok(read_cstr(name)),
    }
}

/// The reply to a scan for a card: its UID, ATQA and SAK (as the bridge
/// spells them in hex) and its type.
pub fn scan_reply(
    ret: i32,
    uid: &[u8],
    atqa: &[u8],
    sak: &[u8],
    card_type: &[u8],
    err: &[u8],
) -> (res: Result<(String, String, String, String), String>)
    ensures
        res is Ok <==> ret == 0,
        res matches Ok((u, a, s, t)) ==> u@ == cstr_text(uid@) && a@ == cstr_text(atqa@) && s@
            == cstr_text(sak@) && t@ == cstr_text(card_type@),
        res matches Err(e) ==> e@ == error_text(err@),
{
    match check_bridge_return(ret, err) {
        Err(e) => Err(e),
        Ok(()) => Ok((read_cstr(uid), read_cstr(atqa), read_cstr(sak), read_cstr(card_type))),
    }
}

/// The C string of a buffer is its longest NUL-free start: it holds no NUL,
/// it begins the buffer, and the buffer either ends with it or has a NUL
/// right after it.
pub proof fn lemma_cstr_bytes_shape(buf: Seq<u8>)
    ensures
        cstr_bytes(buf).len() <= buf.len(),
        cstr_bytes(buf) =~= buf.subrange(0, cstr_bytes(buf).len() as int),
        forall|j: int| 0 <= j < cstr_bytes(buf).len() ==> #[trigger] cstr_bytes(buf)[j] != 0,
        cstr_bytes(buf).len() == buf.len() || buf[cstr_bytes(buf).len() as int] == 0,
    decreases buf.len(),
{
    if buf.len() > 0 && buf[0] != 0 {
        let t = buf.drop_first();
        lemma_cstr_bytes_shape(t);
        let c = cstr_bytes(buf);
        assert forall|j: int| 0 <= j < c.len() implies #[trigger] c[j] != 0 by {
            if j > 0 {
                assert(c[j] == cstr_bytes(t)[j - 1]);
            }
        }
        if cstr_bytes(t).len() < t.len() {
            assert(buf[c.len() as int] == t[cstr_bytes(t).len() as int]);
        }
    }
}

proof fn lemma_trim_start_shape(s: Seq<char>)
    ensures
        exists|i: int|
            0 <= i <= s.len() && trim_start(s) == s.subrange(i, s.len() as int) && forall|j: int|
                0 <= j < i ==> white_space(#[trigger] s[j]),
        trim_start(s).len() > 0 ==> !white_space(trim_start(s)[0]),
    decreases s.len(),
{
    if s.len() > 0 && white_space(s[0]) {
        let t = s.drop_first();
        lemma_trim_start_shape(t);
        let i = choose|i: int|
            0 <= i <= t.len() && trim_start(t) == t.subrange(i, t.len() as int) && forall|j: int|
                0 <= j < i ==> white_space(#[trigger] t[j]);
        assert(t.subrange(i, t.len() as int) =~= s.subrange(i + 1, s.len() as int));
        assert forall|j: int| 0 <= j < i + 1 implies white_space(#[trigger] s[j]) by {
            if j > 0 {
                assert(s[j] == t[j - 1]);
            }
        }
    } else {
        assert(s.subrange(0, s.len() as int) =~= s);
    }
}

proof fn lemma_trim_end_shape(s: Seq<char>)
    ensures
        exists|k: int|
            0 <= k <= s.len() && trim_end(s) == s.subrange(0, k) && forall|j: int|
                k <= j < s.len() ==> white_space(#[trigger] s[j]),
        trim_end(s).len() > 0 ==> !white_space(trim_end(s).last()),
    decreases s.len(),
{
    if s.len() > 0 && white_space(s.last()) {
        let t = s.drop_last();
        lemma_trim_end_shape(t);
        let k = choose|k: int|
            0 <= k <= t.len() && trim_end(t) == t.subrange(0, k) && forall|j: int|
                k <= j < t.len() ==> white_space(#[trigger] t[j]);
        assert(t.subrange(0, k) =~= s.subrange(0, k));
        assert forall|j: int| k <= j < s.len() implies white_space(#[trigger] s[j]) by {
            if j < s.len() - 1 {
                assert(s[j] == t[j]);
            }
        }
    } else {
        assert(s.subrange(0, s.len() as int) =~= s);
    }
}

/// Trimming removes whitespace at both ends and nothing else: the result is
/// a contiguous part of the text, everything cut off before and after it is
/// whitespace, and it neither starts nor ends with whitespace.
pub proof fn lemma_trim_shape(s: Seq<char>)
    ensures
        exists|i: int, k: int|
            0 <= i <= k <= s.len() && trim(s) == s.subrange(i, k) && (forall|j: int|
                0 <= j < i ==> white_space(#[trigger] s[j])) && (forall|j: int|
                k <= j < s.len() ==> white_space(#[trigger] s[j])),
        trim(s).len() > 0 ==> !white_space(trim(s)[0]) && !white_space(trim(s).last()),
{
    lemma_trim_start_shape(s);
    let a = trim_start(s);
    let i = choose|i: int|
        0 <= i <= s.len() && a == s.subrange(i, s.len() as int) && forall|j: int|
            0 <= j < i ==> white_space(#[trigger] s[j]);
    lemma_trim_end_shape(a);
    let k = choose|k: int|
        0 <= k <= a.len() && trim_end(a) == a.subrange(0, k) && forall|j: int|
            k <= j < a.len() ==> white_space(#[trigger] a[j]);
    assert(trim(s) =~= s.subrange(i, i + k));
    assert forall|j: int| i + k <= j < s.len() implies white_space(#[trigger] s[j]) by {
        assert(s[j] == a[j - i]);
    }
    if trim(s).len() > 0 {
        assert(trim(s)[0] == a[0]);
    }
    assert(0 <= i <= i + k <= s.len() && trim(s) == s.subrange(i, i + k));
}

} // verus!
