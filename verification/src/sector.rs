//! Requests on single sectors and blocks of a Mifare Classic 1K card, and the
//! preview of a sector that was read.

use vstd::prelude::*;
use vstd::slice::slice_subrange;
use crate::hex::{parse_hex, key_type_code, parse_fixed_hex, parse_key_type, hex_spaced, ascii_preview, hex_bytes_spaced, ascii_text};

verus! {

/// A key and the key slot (0 for key A, 1 for key B) it authenticates as.
pub struct KeyChoice {
    pub key: Vec<u8>,
    pub key_type: u8,
}

/// The number of bytes in one block.
pub const BLOCK_LEN: usize = 16;

/// The number of bytes a key has.
pub const KEY_LEN: usize = 6;

/// The refusal of a sector number beyond the 1K layout.
pub open spec fn sector_range_error() -> Seq<char> {
    "only Mifare Classic 1K sectors (0-15) are supported"@
}

/// The refusal of a block number beyond the four blocks of a sector.
pub open spec fn block_range_error() -> Seq<char> {
    "block must be in range 0..3"@
}

/// Reading a key and its type: the key hex first, then the type.
pub open spec fn key_request(key_hex: Seq<char>, key_type: Seq<char>) -> Result<
    (Seq<u8>, u8),
    Seq<char>,
> {
    match parse_hex(key_hex, 6, "keyHex"@) {
        Err(e) => Err(e),
        Ok(key) => match key_type_code(key_type) {
            Err(e) => Err(e),
            Ok(t) => Ok((key, t)),
        },
    }
}

/// Reading a request to read one sector.
pub open spec fn read_request(sector: u8, key_hex: Seq<char>, key_type: Seq<char>) -> Result<
    (Seq<u8>, u8),
    Seq<char>,
> {
    if sector > 15 {
        Err(sector_range_error())
    } else {
        key_request(key_hex, key_type)
    }
}

/// Reading a request to write one block: key, data and key type, checked in
/// that order after the sector and block numbers.
pub open spec fn write_request(
    sector: u8,
    block: u8,
    data_hex: Seq<char>,
    key_hex: Seq<char>,
    key_type: Seq<char>,
) -> Result<(Seq<u8>, Seq<u8>, u8), Seq<char>> {
    if sector > 15 {
        Err(sector_range_error())
    } else if block > 3 {
        Err(block_range_error())
    } else {
        match parse_hex(key_hex, 6, "keyHex"@) {
            Err(e) => Err(e),
            Ok(key) => match parse_hex(data_hex, 16, "dataHex"@) {
                Err(e) => Err(e),
                Ok(data) => match key_type_code(key_type) {
                    Err(e) => Err(e),
                    Ok(t) => Ok((key, data, t)),
                },
            },
        }
    }
}

/// Reads a key given as hex ("keyHex", 6 bytes) and its type ("A" or "B").
pub fn parse_key_request(key_hex: &str, key_type: &str) -> (res: Result<KeyChoice, String>)
    ensures
        match res {
            Ok(k) => key_request(key_hex@, key_type@) == Ok::<(Seq<u8>, u8), Seq<char>>(
                (k.key@, k.key_type),
            ),
            Err(e) => key_request(key_hex@, key_type@) == Err::<(Seq<u8>, u8), Seq<char>>(e@),
        },
{
    let key = match parse_fixed_hex(key_hex, KEY_LEN, "keyHex") {
        Ok(k) => k,
        Err(e) => return Err(e),
    };
    let key_type = match parse_key_type(key_type) {
        Ok(t) => t,
        Err(e) => return Err(e),
    };
    Ok(KeyChoice { key, key_type })
}

/// Checks a request to read a sector: the sector must lie within 0..=15,
/// then the key and key type must parse.
pub fn validate_read_request(sector: u8, key_hex: &str, key_type: &str) -> (res: Result<
    KeyChoice,
    String,
>)
    ensures
        match res {
            Ok(k) => read_request(sector, key_hex@, key_type@) == Ok::<(Seq<u8>, u8), Seq<char>>(
                (k.key@, k.key_type),
            ),
            Err(e) => read_request(sector, key_hex@, key_type@) == Err::<(Seq<u8>, u8), Seq<char>>(
                e@,
            ),
        },
{
    if sector > 15 {
        return Err(String::from_str("only Mifare Classic 1K sectors (0-15) are supported"));
    }
    parse_key_request(key_hex, key_type)
}

/// Checks a request to write one block: the sector must lie within 0..=15,
/// the block within 0..=3; then the key ("keyHex", 6 bytes), the data
/// ("dataHex", 16 bytes) and the key type must parse, in that order. Gives
/// the key and the data.
pub fn validate_write_request(
    sector: u8,
    block: u8,
    data_hex: &str,
    key_hex: &str,
    key_type: &str,
) -> (res: Result<(KeyChoice, Vec<u8>), String>)
    ensures
        match res {
            Ok((k, data)) => write_request(sector, block, data_hex@, key_hex@, key_type@) == Ok::<
                (Seq<u8>, Seq<u8>, u8),
                Seq<char>,
            >((k.key@, data@, k.key_type)),
            Err(e) => write_request(sector, block, data_hex@, key_hex@, key_type@) == Err::<
                (Seq<u8>, Seq<u8>, u8),
                Seq<char>,
            >(e@),
        },
{
    if sector > 15 {
        return Err(String::from_str("only Mifare Classic 1K sectors (0-15) are supported"));
    }
    if block > 3 {
        return Err(String::from_str("block must be in range 0..3"));
    }
    let key = match parse_fixed_hex(key_hex, KEY_LEN, "keyHex") {
        Ok(k) => k,
        Err(e) => return Err(e),
    };
    let data = match parse_fixed_hex(data_hex, BLOCK_LEN, "dataHex") {
        Ok(d) => d,
        Err(e) => return Err(e),
    };
    let key_type = match parse_key_type(key_type) {
        Ok(t) => t,
        Err(e) => return Err(e),
    };
    Ok((KeyChoice { key, key_type }, data))
}

/// The bytes of block `b` within the bytes of a sector.
pub open spec fn block_bytes(sector_bytes: Seq<u8>, b: int) -> Seq<u8> {
    sector_bytes.subrange(16 * b, 16 * b + 16)
}

/// A sector as shown to the user: each of its four blocks as spaced hex and
/// as printable text.
pub struct SectorPreview {
    pub sector: u8,
    pub blocks: Vec<String>,
    pub ascii: Vec<String>,
}

/// The preview of the 64 bytes read from a sector.
pub fn sector_preview(sector: u8, bytes: &[u8; 64]) -> (res: SectorPreview)
    ensures
        res.sector == sector,
        res.blocks@.len() == 4,
        res.ascii@.len() == 4,
        forall|b: int|
            0 <= b < 4 ==> #[trigger] res.blocks@[b]@ == hex_spaced(block_bytes(bytes@, b))
                && res.ascii@[b]@ == ascii_preview(block_bytes(bytes@, b)),
{
    let all = bytes.as_slice();
    let mut blocks: Vec<String> = Vec::new();
    let mut ascii: Vec<String> = Vec::new();
    let mut b: usize = 0;
    while b < 4
        invariant
            all@ == bytes@,
            all@.len() == 64,
            b <= 4,
            blocks@.len() == b,
            ascii@.len() == b,
            forall|j: int|
                0 <= j < b ==> #[trigger] blocks@[j]@ == hex_spaced(block_bytes(bytes@, j))
                    && ascii@[j]@ == ascii_preview(block_bytes(bytes@, j)),
        decreases 4 - b,
    {
        let chunk = slice_subrange(all, 16 * b, 16 * b + 16);
        blocks.push(hex_bytes_spaced(chunk));
        ascii.push(ascii_text(chunk));
        b = b + 1;
    }
    SectorPreview { sector, blocks, ascii }
}

/// The key type is the letter's slot whatever its case: a single 'A' or
/// 'a' selects key A (0), a single 'B' or 'b' key B (1), and any other text
/// is refused.
pub proof fn lemma_key_type_letters(key_type: Seq<char>)
    ensures
        key_type.len() == 1 && (key_type[0] == 'A' || key_type[0] == 'a') ==> key_type_code(
            key_type,
        ) == Ok::<u8, Seq<char>>(0),
        key_type.len() == 1 && (key_type[0] == 'B' || key_type[0] == 'b') ==> key_type_code(
            key_type,
        ) == Ok::<u8, Seq<char>>(1),
        key_type_code(key_type) is Ok ==> key_type.len() == 1 && (key_type[0] == 'A'
            || key_type[0] == 'a' || key_type[0] == 'B' || key_type[0] == 'b'),
{
}

/// An accepted read request names a sector of the card, and carries the key
/// parsed from its hex and the key slot its type selects: key A (0) for
/// "A"/"a", key B (1) for "B"/"b".
pub proof fn lemma_read_request_accepted(sector: u8, key_hex: Seq<char>, key_type: Seq<char>)
    ensures
        read_request(sector, key_hex, key_type) matches Ok((key, t)) ==> {
            &&& sector <= 15
            &&& parse_hex(key_hex, 6, "keyHex"@) == Ok::<Seq<u8>, Seq<char>>(key)
            &&& key.len() == 6
            &&& key_type_code(key_type) == Ok::<u8, Seq<char>>(t)
            &&& key_type.len() == 1
            &&& (t == 0 <==> (key_type[0] == 'A' || key_type[0] == 'a'))
            &&& (t == 1 <==> (key_type[0] == 'B' || key_type[0] == 'b'))
        },
        sector <= 15 && parse_hex(key_hex, 6, "keyHex"@) is Ok && key_type_code(key_type) is Ok
            ==> read_request(sector, key_hex, key_type) is Ok,
{
}

/// An accepted write request names a block of the card, and carries the key
/// and the 16 bytes of data parsed from their hex, and the key slot its type
/// selects: key A (0) for "A"/"a", key B (1) for "B"/"b".
pub proof fn lemma_write_request_accepted(
    sector: u8,
    block: u8,
    data_hex: Seq<char>,
    key_hex: Seq<char>,
    key_type: Seq<char>,
)
    ensures
        write_request(sector, block, data_hex, key_hex, key_type) matches Ok((key, data, t)) ==> {
            &&& sector <= 15
            &&& block <= 3
            &&& parse_hex(key_hex, 6, "keyHex"@) == Ok::<Seq<u8>, Seq<char>>(key)
            &&& key.len() == 6
            &&& parse_hex(data_hex, 16, "dataHex"@) == Ok::<Seq<u8>, Seq<char>>(data)
            &&& data.len() == 16
            &&& key_type_code(key_type) == Ok::<u8, Seq<char>>(t)
            &&& key_type.len() == 1
            &&& (t == 0 <==> (key_type[0] == 'A' || key_type[0] == 'a'))
            &&& (t == 1 <==> (key_type[0] == 'B' || key_type[0] == 'b'))
        },
        sector <= 15 && block <= 3 && parse_hex(key_hex, 6, "keyHex"@) is Ok && parse_hex(
            data_hex,
            16,
            "dataHex"@,
        ) is Ok && key_type_code(key_type) is Ok ==> write_request(
            sector,
            block,
            data_hex,
            key_hex,
            key_type,
        ) is Ok,
{
}

} // verus!
