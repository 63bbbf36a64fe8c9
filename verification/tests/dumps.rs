use mac_nfc_tool::dump::{assemble_dump, dump_sector, plan_dump_writes, DumpFile, DumpSector};

fn reads() -> Vec<[u8; 64]> {
    (0..16u8)
        .map(|s| {
            let mut b = [0u8; 64];
            for (i, x) in b.iter_mut().enumerate() {
                *x = s.wrapping_mul(64).wrapping_add(i as u8);
            }
            b
        })
        .collect()
}

fn block(s: u8, b: usize) -> Vec<u8> {
    reads()[s as usize][b * 16..b * 16 + 16].to_vec()
}

#[test]
fn dump_sector_is_compact_hex() {
    let mut bytes = [0u8; 64];
    bytes[0] = 0xAB;
    bytes[63] = 0x01;
    let s = dump_sector(5, &bytes);
    assert_eq!(s.sector, 5);
    assert_eq!(s.blocks[0], "AB000000000000000000000000000000");
    assert_eq!(s.blocks[1], "00000000000000000000000000000000");
    assert_eq!(s.blocks[3], "00000000000000000000000000000001");
}

#[test]
fn assembled_dump_has_sixteen_sectors() {
    let d = assemble_dump("04A1B2C3".to_string(), "Mifare Classic 1K".to_string(), &reads());
    assert_eq!(d.format, "mifare-classic-1k-v1");
    assert_eq!(d.uid, "04A1B2C3");
    assert_eq!(d.card_type, "Mifare Classic 1K");
    assert_eq!(d.sectors.len(), 16);
    for (i, s) in d.sectors.iter().enumerate() {
        assert_eq!(s.sector as usize, i);
        assert_eq!(s.blocks.len(), 4);
    }
}

#[test]
fn dump_writes_back_data_blocks() {
    let d = assemble_dump("u".to_string(), "t".to_string(), &reads());
    let plan = plan_dump_writes(&d, false).unwrap();
    assert_eq!(plan.error, None);
    assert_eq!(plan.writes.len(), 48);
    for (i, w) in plan.writes.iter().enumerate() {
        let s = (i / 3) as u8;
        let b = (i % 3) as u8;
        assert_eq!((w.sector, w.block), (s, b));
        assert_eq!(w.data, block(s, b as usize));
    }
}

#[test]
fn dump_writes_back_trailers_when_asked() {
    let d = assemble_dump("u".to_string(), "t".to_string(), &reads());
    let plan = plan_dump_writes(&d, true).unwrap();
    assert_eq!(plan.error, None);
    assert_eq!(plan.writes.len(), 64);
    let w = &plan.writes[4 * 9 + 3];
    assert_eq!((w.sector, w.block), (9, 3));
    assert_eq!(w.data, block(9, 3));
}

fn small_dump(sectors: Vec<DumpSector>) -> DumpFile {
    DumpFile { format: "mifare-classic-1k-v1".to_string(), uid: String::new(), card_type: String::new(), sectors }
}

fn good_sector(n: u8) -> DumpSector {
    DumpSector { sector: n, blocks: vec!["00".repeat(16); 4] }
}

#[test]
fn refuses_dump_without_sixteen_sectors() {
    let d = small_dump((0..15).map(good_sector).collect());
    assert_eq!(plan_dump_writes(&d, false).err(), Some("dump file must contain exactly 16 sectors".to_string()));
}

#[test]
fn stops_at_invalid_sector() {
    let mut secs: Vec<DumpSector> = (0..16).map(good_sector).collect();
    secs[2].sector = 16;
    let plan = plan_dump_writes(&small_dump(secs), false).unwrap();
    assert_eq!(plan.writes.len(), 6);
    assert_eq!(plan.error, Some("invalid sector in dump: 16".to_string()));
}

#[test]
fn stops_at_sector_without_four_blocks() {
    let mut secs: Vec<DumpSector> = (0..16).map(good_sector).collect();
    secs[1].blocks.pop();
    let plan = plan_dump_writes(&small_dump(secs), true).unwrap();
    assert_eq!(plan.writes.len(), 4);
    assert_eq!(plan.error, Some("sector 1 must have 4 blocks".to_string()));
}

#[test]
fn stops_at_bad_block_after_earlier_blocks() {
    let mut secs: Vec<DumpSector> = (0..16).map(good_sector).collect();
    secs[0].blocks[2] = "0011".to_string();
    let plan = plan_dump_writes(&small_dump(secs), false).unwrap();
    assert_eq!(plan.writes.len(), 2);
    assert_eq!((plan.writes[1].sector, plan.writes[1].block), (0, 1));
    assert_eq!(plan.error, Some("dump block must be exactly 32 hex chars".to_string()));
}

#[test]
fn unwritten_trailer_is_not_checked() {
    let mut secs: Vec<DumpSector> = (0..16).map(good_sector).collect();
    secs[4].blocks[3] = "not hex".to_string();
    let plan = plan_dump_writes(&small_dump(secs), false).unwrap();
    assert_eq!(plan.error, None);
    assert_eq!(plan.writes.len(), 48);
}
