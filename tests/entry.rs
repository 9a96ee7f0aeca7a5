use dunes_index::index::{block_count, height, Height};
use dunes_index::entry::{
    sat_range_load, sat_range_store, BlockHash, CorruptRecord, Dune, DuneEntry, DuneId, InscriptionEntry,
    InscriptionId, OutPoint, Sat, SatPoint, Txid,
};

fn txid(seed: u8) -> Txid {
    let mut bytes = [0u8; 32];
    for (i, b) in bytes.iter_mut().enumerate() {
        *b = seed.wrapping_add(i as u8).wrapping_mul(7);
    }
    Txid(bytes)
}

#[test]
fn hashes_round_trip() {
    let t = txid(3);
    assert_eq!(Txid::load(t.store()), t);
    let h = BlockHash(t.0);
    assert_eq!(BlockHash::load(h.store()), h);
}

#[test]
fn outpoint_layout_and_round_trip() {
    let p = OutPoint { txid: txid(1), vout: 0x0102_0304 };
    let v = p.store();
    assert_eq!(&v[..32], &p.txid.0[..]);
    assert_eq!(&v[32..], &[1, 2, 3, 4]);
    assert_eq!(OutPoint::load(v), p);
    assert!(OutPoint::null().is_null());
    assert!(!p.is_null());
}

#[test]
fn inscription_id_round_trip() {
    let id = InscriptionId { txid: txid(9), index: u32::MAX };
    let v = id.store();
    assert_eq!(&v[32..], &[0xFF, 0xFF, 0xFF, 0xFF]);
    assert_eq!(InscriptionId::load(v), id);
}

#[test]
fn sat_point_layout_and_round_trip() {
    let sp = SatPoint { outpoint: OutPoint { txid: txid(2), vout: 5 }, offset: 0x0102 };
    let v = sp.store();
    assert_eq!(&v[..32], &sp.outpoint.txid.0[..]);
    assert_eq!(&v[32..36], &[5, 0, 0, 0]);
    assert_eq!(&v[36..], &[2, 1, 0, 0, 0, 0, 0, 0]);
    assert_eq!(SatPoint::load(v), sp);
}

#[test]
fn dune_id_round_trip() {
    let id = DuneId { height: 10, index: 9 };
    assert_eq!(id.store(), (10, 9));
    assert_eq!(DuneId::load(id.store()), id);
}

#[test]
fn inscription_entry_round_trip() {
    for sat in [None, Some(Sat(0)), Some(Sat(u64::MAX))] {
        let e = InscriptionEntry {
            fee: 1,
            height: 2,
            inscription_number: 3,
            sat,
            sequence_number: 0,
            timestamp: 5,
        };
        assert_eq!(InscriptionEntry::load(e.store()), e);
    }
}

#[test]
fn dune_entry_round_trip_with_and_without_sentinels() {
    let full = DuneEntry {
        burned: 123456789123456789,
        deadline: Some(7),
        divisibility: 9,
        end: Some(11),
        etching: txid(4),
        limit: Some(1000000001),
        number: 25,
        dune: Dune(u128::MAX),
        spacers: 3,
        supply: 123456789123456789,
        symbol: Some('$'),
        timestamp: 6,
    };
    assert_eq!(DuneEntry::load(full.store()), Ok(full));
    let empty = DuneEntry { deadline: None, end: None, limit: None, symbol: None, ..full };
    let stored = empty.store();
    assert_eq!(stored.3, u32::MAX);
    assert_eq!(stored.5, u128::MAX);
    assert_eq!(stored.10, u32::MAX);
    assert_eq!(DuneEntry::load(stored), Ok(empty));
    let wide = DuneEntry { symbol: Some('¢'), ..full };
    assert_eq!(DuneEntry::load(wide.store()), Ok(wide));
}

#[test]
fn dune_entry_etching_halves_are_little_endian() {
    let mut bytes = [0u8; 32];
    bytes[0] = 1;
    bytes[16] = 2;
    let e = DuneEntry { etching: Txid(bytes), ..DuneEntry::default() };
    assert_eq!(e.store().4, (1, 2));
}

#[test]
fn dune_entry_default_is_empty() {
    let d = DuneEntry::default();
    assert_eq!(d.etching, Txid::all_zeros());
    assert_eq!(d.end, None);
    assert_eq!(d.limit, None);
    assert_eq!(d.symbol, None);
    assert_eq!(d.dune, Dune(0));
    let s = d.spaced_dune();
    assert_eq!(s.dune, Dune(0));
    assert_eq!(s.spacers, 0);
}

#[test]
fn invalid_symbol_code_point_is_corrupt() {
    let mut v = DuneEntry::default().store();
    v.10 = 0xD800;
    assert_eq!(DuneEntry::load(v), Err(CorruptRecord));
    v.10 = 0x110000;
    assert_eq!(DuneEntry::load(v), Err(CorruptRecord));
    v.10 = u32::MAX;
    assert_eq!(DuneEntry::load(v).unwrap().symbol, None);
    v.10 = 0x24;
    assert_eq!(DuneEntry::load(v).unwrap().symbol, Some('$'));
}

#[test]
fn sat_range_round_trip() {
    let cases = [
        (0u64, 0u64),
        (0, 1),
        (1, 2),
        ((1 << 51) - 1, (1 << 51) - 1 + (1 << 33) - 1),
        (2_099_999_997_690_000, 2_099_999_997_690_000 + 5_000_000_000),
    ];
    for (base, end) in cases {
        assert_eq!(sat_range_load(sat_range_store((base, end))), (base, end));
    }
}

#[test]
fn sat_range_packing() {
    let v = sat_range_store((1, 2));
    assert_eq!(v, [1, 0, 0, 0, 0, 0, 0x08, 0, 0, 0, 0]);
}

#[test]
fn block_count_follows_highest_height() {
    assert_eq!(block_count(None), 0);
    assert_eq!(block_count(Some(0)), 1);
    assert_eq!(block_count(Some(41)), 42);
    assert_eq!(height(Some(7)), Some(Height(7)));
    assert_eq!(height(None), None);
}
