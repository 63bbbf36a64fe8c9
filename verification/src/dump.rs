//! Card dumps: all sixteen sectors of a card as hex text, as saved to and
//! loaded from a dump file, and the plan that writes a loaded dump back to a
//! card.

use vstd::prelude::*;
use vstd::slice::slice_subrange;
use crate::hex::{parse_hex, parse_fixed_hex, hex_compact, hex_bytes_no_space, lemma_compact_hex_round_trip};
use crate::sector::{block_bytes, BLOCK_LEN};
use crate::text::{decimal, push_decimal};

verus! {

/// One sector of a dump: its number and its four blocks as hex text.
pub struct DumpSector {
    pub sector: u8,
    pub blocks: Vec<String>,
}

impl DeepView for DumpSector {
    type V = (u8, Seq<Seq<char>>);

    open spec fn deep_view(&self) -> (u8, Seq<Seq<char>>) {
        (self.sector, self.blocks.deep_view())
    }
}

/// A dump of a card: a format tag, the card's UID and type, and its sectors.
pub struct DumpFile {
    pub format: String,
    pub uid: String,
    pub card_type: String,
    pub sectors: Vec<DumpSector>,
}

/// The contents of a dump.
pub struct DumpView {
    pub format: Seq<char>,
    pub uid: Seq<char>,
    pub card_type: Seq<char>,
    pub sectors: Seq<(u8, Seq<Seq<char>>)>,
}

impl View for DumpFile {
    type V = DumpView;

    open spec fn view(&self) -> DumpView {
        DumpView {
            format: self.format@,
            uid: self.uid@,
            card_type: self.card_type@,
            sectors: self.sectors.deep_view(),
        }
    }
}

/// One block to write: sector, block within the sector, 16 bytes of data.
pub struct BlockWrite {
    pub sector: u8,
    pub block: u8,
    pub data: Vec<u8>,
}

impl DeepView for BlockWrite {
    type V = (u8, u8, Seq<u8>);

    open spec fn deep_view(&self) -> (u8, u8, Seq<u8>) {
        (self.sector, self.block, self.data@)
    }
}

/// What writing a dump to a card does: the block writes, in order, up to the
/// first defect of the dump, and that defect when there is one.
pub struct DumpWritePlan {
    pub writes: Vec<BlockWrite>,
    pub error: Option<String>,
}

/// The format tag of a dump.
pub open spec fn dump_format() -> Seq<char> {
    "mifare-classic-1k-v1"@
}

/// The blocks of a sector that a dump writes: data blocks 0..=2, and the
/// trailer (block 3, which holds the keys) only when asked.
pub open spec fn last_block(write_trailer: bool) -> nat {
    if write_trailer {
        3
    } else {
        2
    }
}

/// A write plan: block writes and the defect that ends it, if any.
pub type Steps = (Seq<(u8, u8, Seq<u8>)>, Option<Seq<char>>);

/// Appends `w` before the writes of `rest`.
pub open spec fn after(w: Seq<(u8, u8, Seq<u8>)>, rest: Steps) -> Steps {
    (w + rest.0, rest.1)
}

/// The writes of blocks `b..=last` of a sector, each parsed from its hex;
/// the first block that does not parse ends them.
pub open spec fn block_steps(sector: u8, blocks: Seq<Seq<char>>, b: nat, last: nat) -> Steps
    decreases last + 1 - b,
{
    if b > last {
        (Seq::empty(), None)
    } else {
        match parse_hex(blocks[b as int], 16, "dump block"@) {
            Err(e) => (Seq::empty(), Some(e)),
            Ok(data) => after(seq![(sector, b as u8, data)], block_steps(sector, blocks, b + 1, last)),
        }
    }
}

/// The refusal of a sector number beyond the 1K layout.
pub open spec fn invalid_sector_error(sector: u8) -> Seq<char> {
    "invalid sector in dump: "@ + decimal(sector as nat)
}

/// The refusal of a sector that does not hold four blocks.
pub open spec fn block_count_error(sector: u8) -> Seq<char> {
    "sector "@ + decimal(sector as nat) + " must have 4 blocks"@
}

/// The writes of one dump sector.
pub open spec fn sector_steps(s: (u8, Seq<Seq<char>>), last: nat) -> Steps {
    if s.0 > 15 {
        (Seq::empty(), Some(invalid_sector_error(s.0)))
    } else if s.1.len() != 4 {
        (Seq::empty(), Some(block_count_error(s.0)))
    } else {
        block_steps(s.0, s.1, 0, last)
    }
}

/// The writes of dump sectors, in order; the first defect ends them.
pub open spec fn dump_steps(sectors: Seq<(u8, Seq<Seq<char>>)>, last: nat) -> Steps
    decreases sectors.len(),
{
    if sectors.len() == 0 {
        (Seq::empty(), None)
    } else {
        let first = sector_steps(sectors[0], last);
        if first.1 is Some {
            first
        } else {
            after(first.0, dump_steps(sectors.drop_first(), last))
        }
    }
}

/// The refusal of a dump that does not hold sixteen sectors.
pub open spec fn sector_count_error() -> Seq<char> {
    "dump file must contain exactly 16 sectors"@
}

/// The plan for writing a dump: refused outright unless it has sixteen
/// sectors, otherwise its writes sector by sector.
pub open spec fn dump_plan(dump: DumpView, write_trailer: bool) -> Result<Steps, Seq<char>> {
    if dump.sectors.len() != 16 {
        Err(sector_count_error())
    } else {
        Ok(dump_steps(dump.sectors, last_block(write_trailer)))
    }
}

/// The view of an optional message.
pub open spec fn opt_text(e: Option<String>) -> Option<Seq<char>> {
    match e {
        Some(s) => Some(s@),
        None => None,
    }
}

fn plan_blocks(
    sector: u8,
    blocks: &Vec<String>,
    last: u8,
    writes: &mut Vec<BlockWrite>,
) -> (err: Option<String>)
    requires
        blocks@.len() == 4,
        last <= 3,
    ensures
        after(old(writes).deep_view(), block_steps(sector, blocks.deep_view(), 0, last as nat))
            == (final(writes).deep_view(), opt_text(err)),
{
    let ghost all = block_steps(sector, blocks.deep_view(), 0, last as nat);
    let ghost start = writes.deep_view();
    let mut b: u8 = 0;
    while b <= last
        invariant
            blocks@.len() == 4,
            last <= 3,
            b <= last + 1,
            start == old(writes).deep_view(),
            all == block_steps(sector, blocks.deep_view(), 0, last as nat),
            after(start, all) == after(
                writes.deep_view(),
                block_steps(sector, blocks.deep_view(), b as nat, last as nat),
            ),
        decreases last + 1 - b,
    {
        let ghost before = writes.deep_view();
        assert(blocks.deep_view()[b as int] == blocks@[b as int]@);
        match parse_fixed_hex(blocks[b as usize].as_str(), BLOCK_LEN, "dump block") {
            Err(e) => {
                assert(writes.deep_view() + Seq::empty() =~= writes.deep_view());
                return Some(e);
            },
            Ok(data) => {
                let ghost item = (sector, b, data@);
                writes.push(BlockWrite { sector, block: b, data });
                proof {
                    let rest = block_steps(sector, blocks.deep_view(), (b + 1) as nat, last as nat);
                    assert(writes.deep_view() =~= before.push(item));
                    assert(before + (seq![item] + rest.0) =~= before.push(item) + rest.0);
                }
            },
        }
        b = b + 1;
    }
    None
}

fn plan_sector(sector: &DumpSector, last: u8, writes: &mut Vec<BlockWrite>) -> (err: Option<String>)
    requires
        last <= 3,
    ensures
        after(old(writes).deep_view(), sector_steps(sector.deep_view(), last as nat))
            == (final(writes).deep_view(), opt_text(err)),
{
    if sector.sector > 15 {
        let mut msg = String::from_str("invalid sector in dump: ");
        push_decimal(&mut msg, sector.sector as u64);
        assert(writes.deep_view() + Seq::empty() =~= writes.deep_view());
        return Some(msg);
    }
    if sector.blocks.len() != 4 {
        let mut msg = String::from_str("sector ");
        push_decimal(&mut msg, sector.sector as u64);
        msg.append(" must have 4 blocks");
        assert(writes.deep_view() + Seq::empty() =~= writes.deep_view());
        return Some(msg);
    }
    plan_blocks(sector.sector, &sector.blocks, last, writes)
}

/// Plans writing a dump to a card. A dump that does not hold exactly sixteen
/// sectors is refused. Otherwise the plan lists, sector after sector, the
/// blocks to write (0..=2, or 0..=3 with `write_trailer`) with their parsed
/// data, and stops at the first sector numbered beyond 15, the first sector
/// without four blocks, or the first block whose hex does not give 16 bytes;
/// that defect is the plan's error. The writes listed before it are the ones
/// a card receives before the defect is reported.
pub fn plan_dump_writes(dump: &DumpFile, write_trailer: bool) -> (res: Result<DumpWritePlan, String>)
    ensures
        match res {
            Ok(p) => dump_plan(dump@, write_trailer) == Ok::<Steps, Seq<char>>(
                (p.writes.deep_view(), opt_text(p.error)),
            ),
            Err(e) => dump_plan(dump@, write_trailer) == Err::<Steps, Seq<char>>(e@),
        },
{
    if dump.sectors.len() != 16 {
        return Err(String::from_str("dump file must contain exactly 16 sectors"));
    }
    let last: u8 = if write_trailer { 3 } else { 2 };
    let ghost secs = dump.sectors.deep_view();
    let ghost all = dump_steps(secs, last as nat);
    let mut writes: Vec<BlockWrite> = Vec::new();
    let n = dump.sectors.len();
    let mut i: usize = 0;
    assert(secs.skip(0) =~= secs);
    assert(after(Seq::empty(), all) =~= all);
    while i < n
        invariant
            n == dump.sectors@.len(),
            secs == dump.sectors.deep_view(),
            last <= 3,
            i <= n,
            all == dump_steps(secs, last as nat),
            last as nat == last_block(write_trailer),
            n == 16,
            all == after(writes.deep_view(), dump_steps(secs.skip(i as int), last as nat)),
        decreases n - i,
    {
        let ghost before = writes.deep_view();
        let ghost here = secs.skip(i as int);
        assert(here.len() > 0);
        assert(here[0] == dump.sectors@[i as int].deep_view());
        let err = plan_sector(&dump.sectors[i], last, &mut writes);
        let ghost first = sector_steps(here[0], last as nat);
        match err {
            Some(e) => {
                proof {
                    assert(dump_steps(here, last as nat) == first);
                }
                return Ok(DumpWritePlan { writes, error: Some(e) });
            },
            None => {
                proof {
                    assert(here.drop_first() =~= secs.skip(i + 1));
                    let rest = dump_steps(secs.skip(i + 1), last as nat);
                    assert(before + (first.0 + rest.0) =~= (before + first.0) + rest.0);
                }
            },
        }
        i = i + 1;
    }
    proof {
        assert(secs.skip(n as int) =~= Seq::<(u8, Seq<Seq<char>>)>::empty());
        assert(writes.deep_view() + Seq::empty() =~= writes.deep_view());
    }
    Ok(DumpWritePlan { writes, error: None })
}

/// The four blocks of a sector's bytes as compact hex.
pub open spec fn sector_hex_blocks(bytes: Seq<u8>) -> Seq<Seq<char>> {
    Seq::new(4, |b: int| hex_compact(block_bytes(bytes, b)))
}

/// The dump of a card from its UID, its type, and the bytes read from each
/// sector, sector `i` being the `i`-th read.
pub open spec fn dump_of_reads(uid: Seq<char>, card_type: Seq<char>, reads: Seq<Seq<u8>>) -> DumpView {
    DumpView {
        format: dump_format(),
        uid,
        card_type,
        sectors: Seq::new(reads.len(), |i: int| (i as u8, sector_hex_blocks(reads[i]))),
    }
}

/// The dump entry of one sector: its number and its four blocks as hex
/// without separators.
pub fn dump_sector(sector: u8, bytes: &[u8; 64]) -> (res: DumpSector)
    ensures
        res.deep_view() == (sector, sector_hex_blocks(bytes@)),
{
    let all = bytes.as_slice();
    let mut blocks: Vec<String> = Vec::new();
    let mut b: usize = 0;
    while b < 4
        invariant
            all@ == bytes@,
            all@.len() == 64,
            b <= 4,
            blocks@.len() == b,
            forall|j: int| 0 <= j < b ==> #[trigger] blocks@[j]@ == hex_compact(block_bytes(bytes@, j)),
        decreases 4 - b,
    {
        let chunk = slice_subrange(all, BLOCK_LEN * b, BLOCK_LEN * b + BLOCK_LEN);
        blocks.push(hex_bytes_no_space(chunk));
        b = b + 1;
    }
    let res = DumpSector { sector, blocks };
    assert(res.blocks.deep_view() =~= sector_hex_blocks(bytes@));
    res
}

/// The bytes of each read, in order.
pub open spec fn read_bytes(reads: Seq<[u8; 64]>) -> Seq<Seq<u8>> {
    reads.map_values(|r: [u8; 64]| r@)
}

/// The dump of a card from its UID, its type, and the 64 bytes read from each
/// of its sixteen sectors, in sector order.
pub fn assemble_dump(uid: String, card_type: String, reads: &Vec<[u8; 64]>) -> (res: DumpFile)
    requires
        reads@.len() == 16,
    ensures
        res@ == dump_of_reads(uid@, card_type@, read_bytes(reads@)),
{
    let mut sectors: Vec<DumpSector> = Vec::new();
    let mut i: usize = 0;
    while i < 16
        invariant
            reads@.len() == 16,
            i <= 16,
            sectors@.len() == i,
            forall|j: int|
                0 <= j < i ==> #[trigger] sectors@[j].deep_view() == (j as u8, sector_hex_blocks(
                    reads@[j]@,
                )),
        decreases 16 - i,
    {
        sectors.push(dump_sector(i as u8, &reads[i]));
        i = i + 1;
    }
    let res = DumpFile { format: String::from_str("mifare-classic-1k-v1"), uid, card_type, sectors };
    assert(res@.sectors =~= dump_of_reads(uid@, card_type@, read_bytes(reads@)).sectors);
    res
}

/// The writes that put back the blocks `0..=last` of one sector's bytes.
pub open spec fn sector_writes(sector: u8, bytes: Seq<u8>, last: nat) -> Seq<(u8, u8, Seq<u8>)> {
    Seq::new(last + 1, |b: int| (sector, b as u8, block_bytes(bytes, b)))
}

/// The writes that put back the blocks `0..=last` of the sectors read from
/// `start` on, sector by sector.
pub open spec fn card_writes(reads: Seq<Seq<u8>>, start: nat, last: nat) -> Seq<(u8, u8, Seq<u8>)>
    decreases reads.len() - start,
{
    if start >= reads.len() {
        Seq::empty()
    } else {
        sector_writes(start as u8, reads[start as int], last) + card_writes(reads, start + 1, last)
    }
}

proof fn lemma_block_steps_of_read(sector: u8, bytes: Seq<u8>, b: nat, last: nat)
    requires
        bytes.len() == 64,
        last <= 3,
        b <= last + 1,
    ensures
        block_steps(sector, sector_hex_blocks(bytes), b, last) == (
            Seq::new(
                (last + 1 - b) as nat,
                |k: int| (sector, (b + k) as u8, block_bytes(bytes, b + k)),
            ),
            None::<Seq<char>>,
        ),
    decreases last + 1 - b,
{
    let blocks = sector_hex_blocks(bytes);
    let expect = Seq::new(
        (last + 1 - b) as nat,
        |k: int| (sector, (b + k) as u8, block_bytes(bytes, b + k)),
    );
    if b <= last {
        let data = block_bytes(bytes, b as int);
        lemma_compact_hex_round_trip(data, "dump block"@);
        assert(blocks[b as int] == hex_compact(data));
        lemma_block_steps_of_read(sector, bytes, b + 1, last);
        let rest = Seq::new(
            (last + 1 - (b + 1)) as nat,
            |k: int| (sector, (b + 1 + k) as u8, block_bytes(bytes, b + 1 + k)),
        );
        assert(seq![(sector, b as u8, data)] + rest =~= expect);
    } else {
        assert(expect =~= Seq::empty());
    }
}

proof fn lemma_dump_steps_of_reads(uid: Seq<char>, card_type: Seq<char>, reads: Seq<Seq<u8>>, start: nat, last: nat)
    requires
        reads.len() <= 16,
        start <= reads.len(),
        last <= 3,
        forall|i: int| 0 <= i < reads.len() ==> (#[trigger] reads[i]).len() == 64,
    ensures
        dump_steps(dump_of_reads(uid, card_type, reads).sectors.skip(start as int), last) == (
            card_writes(reads, start, last),
            None::<Seq<char>>,
        ),
    decreases reads.len() - start,
{
    let secs = dump_of_reads(uid, card_type, reads).sectors;
    let here = secs.skip(start as int);
    if start < reads.len() {
        let bytes = reads[start as int];
        assert(here[0] == (start as u8, sector_hex_blocks(bytes)));
        lemma_block_steps_of_read(start as u8, bytes, 0, last);
        assert(Seq::new((last + 1 - 0) as nat, |k: int| (start as u8, (0 + k) as u8, block_bytes(bytes, 0 + k)))
            =~= sector_writes(start as u8, bytes, last));
        assert(here.drop_first() =~= secs.skip((start + 1) as int));
        lemma_dump_steps_of_reads(uid, card_type, reads, start + 1, last);
    } else {
        assert(here =~= Seq::<(u8, Seq<Seq<char>>)>::empty());
    }
}

/// Writing back a dump made from what was read puts back exactly what was
/// read: for the sixteen 64-byte reads of a card, the plan for its dump has no
/// defect and writes, sector by sector, blocks 0..=2 (0..=3 with the trailer)
/// with the bytes read from them.
pub proof fn lemma_dump_write_back(
    uid: Seq<char>,
    card_type: Seq<char>,
    reads: Seq<Seq<u8>>,
    write_trailer: bool,
)
    requires
        reads.len() == 16,
        forall|i: int| 0 <= i < reads.len() ==> (#[trigger] reads[i]).len() == 64,
    ensures
        dump_plan(dump_of_reads(uid, card_type, reads), write_trailer) == Ok::<Steps, Seq<char>>(
            (card_writes(reads, 0, last_block(write_trailer)), None),
        ),
{
    let secs = dump_of_reads(uid, card_type, reads).sectors;
    assert(secs.skip(0) =~= secs);
    lemma_dump_steps_of_reads(uid, card_type, reads, 0, last_block(write_trailer));
}

/// Whether every write stays on the card's layout: a sector within 0..=15,
/// a block within `0..=last`, and a whole block of data.
pub open spec fn writes_in_layout(writes: Seq<(u8, u8, Seq<u8>)>, last: nat) -> bool {
    forall|i: int|
        0 <= i < writes.len() ==> (#[trigger] writes[i]).0 <= 15 && writes[i].1 <= last
            && writes[i].2.len() == 16
}

proof fn lemma_block_steps_in_layout(sector: u8, blocks: Seq<Seq<char>>, b: nat, last: nat)
    requires
        sector <= 15,
        last <= 3,
    ensures
        writes_in_layout(block_steps(sector, blocks, b, last).0, last),
    decreases last + 1 - b,
{
    if b <= last {
        lemma_block_steps_in_layout(sector, blocks, b + 1, last);
        match parse_hex(blocks[b as int], 16, "dump block"@) {
            Err(e) => {},
            Ok(data) => {
                let rest = block_steps(sector, blocks, b + 1, last).0;
                let all = seq![(sector, b as u8, data)] + rest;
                assert forall|i: int| 0 <= i < all.len() implies (#[trigger] all[i]).0 <= 15
                    && all[i].1 <= last && all[i].2.len() == 16 by {
                    if i > 0 {
                        assert(all[i] == rest[i - 1]);
                    }
                }
            },
        }
    }
}

proof fn lemma_dump_steps_in_layout(sectors: Seq<(u8, Seq<Seq<char>>)>, last: nat)
    requires
        last <= 3,
    ensures
        writes_in_layout(dump_steps(sectors, last).0, last),
    decreases sectors.len(),
{
    if sectors.len() > 0 {
        let s = sectors[0];
        if s.0 <= 15 && s.1.len() == 4 {
            lemma_block_steps_in_layout(s.0, s.1, 0, last);
        }
        lemma_dump_steps_in_layout(sectors.drop_first(), last);
        let first = sector_steps(s, last).0;
        let rest = dump_steps(sectors.drop_first(), last).0;
        let all = first + rest;
        assert forall|i: int| 0 <= i < all.len() implies (#[trigger] all[i]).0 <= 15 && all[i].1
            <= last && all[i].2.len() == 16 by {
            if i >= first.len() {
                assert(all[i] == rest[i - first.len()]);
            }
        }
    }
}

/// Whatever a dump holds, writing it only ever touches the card's layout:
/// each planned write names a sector within 0..=15, carries a whole block of
/// 16 bytes, and targets blocks 0..=2 only, so that the trailer block (which
/// holds the sector's keys) is left alone unless `write_trailer` asks for it.
pub proof fn lemma_plan_stays_in_layout(dump: DumpView, write_trailer: bool)
    ensures
        dump_plan(dump, write_trailer) matches Ok(steps) ==> writes_in_layout(
            steps.0,
            last_block(write_trailer),
        ),
{
    lemma_dump_steps_in_layout(dump.sectors, last_block(write_trailer));
}

/// A dump is refused outright exactly when it does not hold sixteen
/// sectors, and then with the message that says so; a dump of sixteen
/// sectors always gets a plan.
pub proof fn lemma_plan_refusal(dump: DumpView, write_trailer: bool)
    ensures
        dump_plan(dump, write_trailer) is Err <==> dump.sectors.len() != 16,
        dump_plan(dump, write_trailer) matches Err(e) ==> e == sector_count_error(),
{
}

} // verus!
