//! Fixed-shape storage values of the index tables, and the conversions
//! between them and the domain types.
use vstd::prelude::*;
use vstd::utf8::{char_is_scalar, char_u32_cast, is_scalar};
use crate::bytes::{
    be_bytes, le_bytes, le_value, lemma_be_bytes_of_value, lemma_be_round_trip,
    lemma_le_bytes_len, lemma_le_bytes_of_value, lemma_le_round_trip, lemma_pow256_values,
    push_be, push_le, read_be, read_le, to_array,
};

verus! {

/// A stored record that does not decode into its domain shape.
#[derive(Debug, Clone, Copy, PartialEq, Eq)]
pub struct CorruptRecord;

/// A stored symbol that is neither the "no symbol" sentinel nor a Unicode scalar value.
pub open spec fn symbol_corrupt(v: u32) -> bool {
    v != u32::MAX && !is_scalar(v)
}

/// Hash of a block, in its native byte order.
#[derive(Debug, Clone, Copy, PartialEq, Eq)]
pub struct BlockHash(pub [u8; 32]);

/// Identifier of a transaction, in its native byte order.
#[derive(Debug, Clone, Copy, PartialEq, Eq)]
pub struct Txid(pub [u8; 32]);

impl BlockHash {
    pub fn load(value: [u8; 32]) -> (r: BlockHash)
        ensures
            r.0 == value,
    {
        BlockHash(value)
    }

    pub fn store(self) -> (r: [u8; 32])
        ensures
            r == self.0,
    {
        self.0
    }
}

impl Txid {
    /// The identifier whose bytes are all zero.
    pub fn all_zeros() -> (r: Txid)
        ensures
            forall|i: int| 0 <= i < 32 ==> r.0@[i] == 0,
    {
        Txid([0u8; 32])
    }

    pub fn load(value: [u8; 32]) -> (r: Txid)
        ensures
            r.0 == value,
    {
        Txid(value)
    }

    pub fn store(self) -> (r: [u8; 32])
        ensures
            r == self.0,
    {
        self.0
    }
}

/// Loading what `store` wrote gives the block hash back.
pub proof fn lemma_block_hash_round_trip(x: BlockHash, y: BlockHash)
    requires
        y.0 == x.0,
    ensures
        y == x,
{
}

/// Loading what `store` wrote gives the transaction id back.
pub proof fn lemma_txid_round_trip(x: Txid, y: Txid)
    requires
        y.0 == x.0,
    ensures
        y == x,
{
}

/// Reference to one output of a transaction.
#[derive(Debug, Clone, Copy, PartialEq, Eq)]
pub struct OutPoint {
    pub txid: Txid,
    pub vout: u32,
}

impl OutPoint {
    /// The stored form: the transaction id, then the index, most significant byte first.
    pub open spec fn bytes(self) -> Seq<u8> {
        self.txid.0@ + be_bytes(self.vout as nat, 4)
    }

    /// The reference that stands for no output: zero id, index `u32::MAX`.
    pub open spec fn spec_is_null(self) -> bool {
        &&& forall|i: int| 0 <= i < 32 ==> self.txid.0@[i] == 0
        &&& self.vout == u32::MAX
    }

    /// The reference that stands for no output.
    pub open spec fn spec_null() -> OutPoint {
        OutPoint { txid: Txid(vstd::array::spec_array_fill_for_copy_type::<u8, 32>(0u8)), vout: u32::MAX }
    }

    pub fn null() -> (r: OutPoint)
        ensures
            r == OutPoint::spec_null(),
            r.spec_is_null(),
    {
        OutPoint { txid: Txid([0u8; 32]), vout: u32::MAX }
    }

    pub fn is_null(&self) -> (r: bool)
        ensures
            r == self.spec_is_null(),
    {
        if self.vout != u32::MAX {
            return false;
        }
        let mut i: usize = 0;
        while i < 32
            invariant
                i <= 32,
                forall|j: int| 0 <= j < i ==> self.txid.0@[j] == 0,
            decreases 32 - i,
        {
            if self.txid.0[i] != 0 {
                return false;
            }
            i = i + 1;
        }
        true
    }

    pub fn load(value: [u8; 36]) -> (r: OutPoint)
        ensures
            r.bytes() == value@,
    {
        let (txid, vout) = load_id_and_index(&value);
        OutPoint { txid, vout }
    }

    pub fn store(self) -> (r: [u8; 36])
        ensures
            r@ == self.bytes(),
    {
        store_id_and_index(self.txid, self.vout)
    }
}

/// Reads a transaction id and a big-endian index from 36 bytes.
fn load_id_and_index(value: &[u8; 36]) -> (r: (Txid, u32))
    ensures
        r.0.0@ + be_bytes(r.1 as nat, 4) == value@,
{
    let mut id: Vec<u8> = Vec::new();
    let mut i: usize = 0;
    while i < 32
        invariant
            i <= 32,
            id@ == value@.subrange(0, i as int),
        decreases 32 - i,
    {
        id.push(value[i]);
        i = i + 1;
        assert(id@ =~= value@.subrange(0, i as int));
    }
    let txid: [u8; 32] = to_array(&id);
    let index = read_be(value, 32, 4);
    proof {
        lemma_pow256_values();
        lemma_be_bytes_of_value(value@.subrange(32, 36));
        assert(value@ =~= value@.subrange(0, 32) + value@.subrange(32, 36));
    }
    (Txid(txid), index as u32)
}

/// Writes a transaction id and a big-endian index into 36 bytes.
fn store_id_and_index(txid: Txid, index: u32) -> (r: [u8; 36])
    ensures
        r@ == txid.0@ + be_bytes(index as nat, 4),
{
    let mut v: Vec<u8> = Vec::new();
    let mut i: usize = 0;
    while i < 32
        invariant
            i <= 32,
            v@ == txid.0@.subrange(0, i as int),
        decreases 32 - i,
    {
        v.push(txid.0[i]);
        i = i + 1;
        assert(v@ =~= txid.0@.subrange(0, i as int));
    }
    push_be(&mut v, index as u128, 4);
    proof {
        lemma_le_bytes_len(index as nat, 4);
        assert(txid.0@.subrange(0, 32) =~= txid.0@);
    }
    to_array(&v)
}

/// Two ids with equal bytes, followed by indices with equal stored forms, are equal.
proof fn lemma_id_and_index_injective(a: Txid, i: u32, b: Txid, j: u32)
    requires
        a.0@ + be_bytes(i as nat, 4) == b.0@ + be_bytes(j as nat, 4),
    ensures
        a == b,
        i == j,
{
    let s = a.0@ + be_bytes(i as nat, 4);
    let t = b.0@ + be_bytes(j as nat, 4);
    lemma_pow256_values();
    lemma_be_round_trip(i as nat, 4);
    lemma_be_round_trip(j as nat, 4);
    assert(s.subrange(0, 32) =~= a.0@);
    assert(t.subrange(0, 32) =~= b.0@);
    assert(s.subrange(32, 36) =~= be_bytes(i as nat, 4));
    assert(t.subrange(32, 36) =~= be_bytes(j as nat, 4));
    assert(a.0 =~= b.0);
}

/// Loading what `store` wrote gives the output reference back: two references
/// with the same stored form are equal.
pub proof fn lemma_outpoint_round_trip(x: OutPoint, y: OutPoint)
    requires
        y.bytes() == x.bytes(),
    ensures
        y == x,
{
    lemma_id_and_index_injective(x.txid, x.vout, y.txid, y.vout);
}

/// Identifier of an inscription: the transaction that revealed it and an index.
#[derive(Debug, Clone, Copy, PartialEq, Eq)]
pub struct InscriptionId {
    pub txid: Txid,
    pub index: u32,
}

impl InscriptionId {
    /// The stored form: the transaction id, then the index, most significant byte first.
    pub open spec fn bytes(self) -> Seq<u8> {
        self.txid.0@ + be_bytes(self.index as nat, 4)
    }

    pub fn load(value: [u8; 36]) -> (r: InscriptionId)
        ensures
            r.bytes() == value@,
    {
        let (txid, index) = load_id_and_index(&value);
        InscriptionId { txid, index }
    }

    pub fn store(self) -> (r: [u8; 36])
        ensures
            r@ == self.bytes(),
    {
        store_id_and_index(self.txid, self.index)
    }
}

/// Loading what `store` wrote gives the inscription id back: two ids with the
/// same stored form are equal.
pub proof fn lemma_inscription_id_round_trip(x: InscriptionId, y: InscriptionId)
    requires
        y.bytes() == x.bytes(),
    ensures
        y == x,
{
    lemma_id_and_index_injective(x.txid, x.index, y.txid, y.index);
}

/// One satoshi: an output and an offset into it.
#[derive(Debug, Clone, Copy, PartialEq, Eq)]
pub struct SatPoint {
    pub outpoint: OutPoint,
    pub offset: u64,
}

impl SatPoint {
    /// The stored form, in the byte order of the transaction codec: the
    /// transaction id, then the output index and the offset, each least
    /// significant byte first.
    pub open spec fn bytes(self) -> Seq<u8> {
        self.outpoint.txid.0@ + le_bytes(self.outpoint.vout as nat, 4) + le_bytes(
            self.offset as nat,
            8,
        )
    }

    pub fn load(value: [u8; 44]) -> (r: SatPoint)
        ensures
            r.bytes() == value@,
    {
        let mut id: Vec<u8> = Vec::new();
        let mut i: usize = 0;
        while i < 32
            invariant
                i <= 32,
                id@ == value@.subrange(0, i as int),
            decreases 32 - i,
        {
            id.push(value[i]);
            i = i + 1;
            assert(id@ =~= value@.subrange(0, i as int));
        }
        let txid: [u8; 32] = to_array(&id);
        let vout = read_le(&value, 32, 4);
        let offset = read_le(&value, 36, 8);
        proof {
            lemma_pow256_values();
            lemma_le_bytes_of_value(value@.subrange(32, 36));
            crate::bytes::lemma_le_value_bound(value@.subrange(32, 36));
            lemma_le_bytes_of_value(value@.subrange(36, 44));
            crate::bytes::lemma_le_value_bound(value@.subrange(36, 44));
            assert(value@ =~= value@.subrange(0, 32) + value@.subrange(32, 36) + value@.subrange(
                36,
                44,
            ));
        }
        SatPoint { outpoint: OutPoint { txid: Txid(txid), vout: vout as u32 }, offset: offset as u64 }
    }

    pub fn store(self) -> (r: [u8; 44])
        ensures
            r@ == self.bytes(),
    {
        let mut v: Vec<u8> = Vec::new();
        let mut i: usize = 0;
        while i < 32
            invariant
                i <= 32,
                v@ == self.outpoint.txid.0@.subrange(0, i as int),
            decreases 32 - i,
        {
            v.push(self.outpoint.txid.0[i]);
            i = i + 1;
            assert(v@ =~= self.outpoint.txid.0@.subrange(0, i as int));
        }
        assert(self.outpoint.txid.0@.subrange(0, 32) =~= self.outpoint.txid.0@);
        push_le(&mut v, self.outpoint.vout as u128, 4);
        push_le(&mut v, self.offset as u128, 8);
        proof {
            lemma_le_bytes_len(self.outpoint.vout as nat, 4);
            lemma_le_bytes_len(self.offset as nat, 8);
        }
        to_array(&v)
    }
}

/// Loading what `store` wrote gives the satoshi point back: two points with
/// the same stored form are equal.
pub proof fn lemma_sat_point_round_trip(x: SatPoint, y: SatPoint)
    requires
        y.bytes() == x.bytes(),
    ensures
        y == x,
{
    let s = x.bytes();
    let t = y.bytes();
    lemma_pow256_values();
    lemma_le_bytes_len(x.outpoint.vout as nat, 4);
    lemma_le_bytes_len(y.outpoint.vout as nat, 4);
    lemma_le_bytes_len(x.offset as nat, 8);
    lemma_le_bytes_len(y.offset as nat, 8);
    lemma_le_round_trip(x.outpoint.vout as nat, 4);
    lemma_le_round_trip(y.outpoint.vout as nat, 4);
    lemma_le_round_trip(x.offset as nat, 8);
    lemma_le_round_trip(y.offset as nat, 8);
    assert(s.subrange(0, 32) =~= x.outpoint.txid.0@);
    assert(t.subrange(0, 32) =~= y.outpoint.txid.0@);
    assert(s.subrange(32, 36) =~= le_bytes(x.outpoint.vout as nat, 4));
    assert(t.subrange(32, 36) =~= le_bytes(y.outpoint.vout as nat, 4));
    assert(s.subrange(36, 44) =~= le_bytes(x.offset as nat, 8));
    assert(t.subrange(36, 44) =~= le_bytes(y.offset as nat, 8));
    assert(x.outpoint.txid.0 =~= y.outpoint.txid.0);
}

/// Identifier of a dune: the height of its etching block and the index of the
/// etching transaction in it.
#[derive(Debug, Clone, Copy, PartialEq, Eq, PartialOrd, Ord, Hash)]
pub struct DuneId {
    pub height: u32,
    pub index: u16,
}

impl DuneId {
    pub fn load(value: (u32, u16)) -> (r: DuneId)
        ensures
            r.height == value.0,
            r.index == value.1,
    {
        DuneId { height: value.0, index: value.1 }
    }

    pub fn store(self) -> (r: (u32, u16))
        ensures
            r == (self.height, self.index),
    {
        (self.height, self.index)
    }
}

/// Loading what `store` wrote gives the dune id back.
pub proof fn lemma_dune_id_round_trip(x: DuneId, y: DuneId)
    requires
        (y.height, y.index) == (x.height, x.index),
    ensures
        y == x,
{
}

/// An absolute satoshi ordinal.
#[derive(Debug, Clone, Copy, PartialEq, Eq)]
pub struct Sat(pub u64);

impl Sat {
    pub fn n(self) -> (r: u64)
        ensures
            r == self.0,
    {
        self.0
    }
}

/// Storage shape of an inscription record: fee, height, number, satoshi,
/// sequence number, timestamp.
pub type InscriptionEntryValue = (u64, u32, u64, Option<u64>, u64, u32);

/// What is kept of an inscription once it is created.
#[derive(Debug, Clone, Copy, PartialEq, Eq)]
pub struct InscriptionEntry {
    pub fee: u64,
    pub height: u32,
    pub inscription_number: u64,
    pub sat: Option<Sat>,
    pub sequence_number: u64,
    pub timestamp: u32,
}

impl InscriptionEntry {
    pub open spec fn stored(self) -> InscriptionEntryValue {
        (
            self.fee,
            self.height,
            self.inscription_number,
            match self.sat {
                Some(s) => Some(s.0),
                None => None,
            },
            self.sequence_number,
            self.timestamp,
        )
    }

    pub fn load(value: InscriptionEntryValue) -> (r: InscriptionEntry)
        ensures
            r.stored() == value,
    {
        let (fee, height, inscription_number, sat, sequence_number, timestamp) = value;
        let sat = match sat {
            Some(n) => Some(Sat(n)),
            None => None,
        };
        InscriptionEntry { fee, height, inscription_number, sat, sequence_number, timestamp }
    }

    pub fn store(self) -> (r: InscriptionEntryValue)
        ensures
            r == self.stored(),
    {
        let sat = match self.sat {
            Some(s) => Some(s.n()),
            None => None,
        };
        (self.fee, self.height, self.inscription_number, sat, self.sequence_number, self.timestamp)
    }
}

/// Loading what `store` wrote gives the inscription record back.
pub proof fn lemma_inscription_entry_round_trip(x: InscriptionEntry, y: InscriptionEntry)
    requires
        y.stored() == x.stored(),
    ensures
        y == x,
{
    match x.sat {
        Some(a) => {
            assert(y.sat is Some);
        },
        None => {},
    }
}

/// The numeric name of a dune.
#[derive(Debug, Clone, Copy, PartialEq, Eq, PartialOrd, Ord, Hash)]
pub struct Dune(pub u128);

/// A dune name with the positions of its display spacers.
#[derive(Debug, Clone, Copy, PartialEq, Eq)]
pub struct SpacedDune {
    pub dune: Dune,
    pub spacers: u32,
}

/// Storage shape of a dune record: burned, deadline, divisibility, end,
/// etching halves, limit, number, dune, spacers, supply, symbol, timestamp.
pub type DuneEntryValue = (
    u128,
    Option<u32>,
    u8,
    u32,
    (u128, u128),
    u128,
    u64,
    u128,
    u32,
    u128,
    u32,
    u32,
);

/// Ledger entry of one dune.
#[derive(Debug, Clone, Copy, PartialEq, Eq)]
pub struct DuneEntry {
    pub burned: u128,
    pub deadline: Option<u32>,
    pub divisibility: u8,
    pub end: Option<u32>,
    pub etching: Txid,
    pub limit: Option<u128>,
    pub number: u64,
    pub dune: Dune,
    pub spacers: u32,
    pub supply: u128,
    pub symbol: Option<char>,
    pub timestamp: u32,
}

/// Relies on char::from_u32: `Some` exactly for Unicode scalar values, holding
/// the character with that code point.
#[verifier::external_body]
fn char_from_u32(v: u32) -> (r: Option<char>)
    ensures
        r == (if is_scalar(v) {
            Some(v as char)
        } else {
            None
        }),
{
    char::from_u32(v)
}

impl DuneEntry {
    /// The stored form. Absent `end`, `limit` and `symbol` take the
    /// sentinels `u32::MAX`, `u128::MAX` and `u32::MAX`; the etching id is split
    /// into two little-endian halves.
    pub open spec fn stored(self) -> DuneEntryValue {
        (
            self.burned,
            self.deadline,
            self.divisibility,
            match self.end {
                Some(e) => e,
                None => u32::MAX,
            },
            (
                le_value(self.etching.0@.subrange(0, 16)) as u128,
                le_value(self.etching.0@.subrange(16, 32)) as u128,
            ),
            match self.limit {
                Some(l) => l,
                None => u128::MAX,
            },
            self.number,
            self.dune.0,
            self.spacers,
            self.supply,
            match self.symbol {
                Some(c) => c as u32,
                None => u32::MAX,
            },
            self.timestamp,
        )
    }

    /// `self` is what loading `v` gives: each sentinel reads as absent.
    pub open spec fn loaded_from(self, v: DuneEntryValue) -> bool {
        &&& self.burned == v.0
        &&& self.deadline == v.1
        &&& self.divisibility == v.2
        &&& self.end == (if v.3 == u32::MAX {
            None
        } else {
            Some(v.3)
        })
        &&& self.etching.0@ == le_bytes(v.4.0 as nat, 16) + le_bytes(v.4.1 as nat, 16)
        &&& self.limit == (if v.5 == u128::MAX {
            None
        } else {
            Some(v.5)
        })
        &&& self.number == v.6
        &&& self.dune == Dune(v.7)
        &&& self.spacers == v.8
        &&& self.supply == v.9
        &&& self.symbol == (if v.10 == u32::MAX {
            None
        } else {
            Some(v.10 as char)
        })
        &&& self.timestamp == v.11
    }

    pub fn spaced_dune(&self) -> (r: SpacedDune)
        ensures
            r == (SpacedDune { dune: self.dune, spacers: self.spacers }),
    {
        SpacedDune { dune: self.dune, spacers: self.spacers }
    }

    /// Reads a stored dune record. A symbol that is neither the sentinel nor
    /// a Unicode scalar value marks the record as corrupt.
    pub fn load(value: DuneEntryValue) -> (r: Result<DuneEntry, CorruptRecord>)
        ensures
            r is Err <==> symbol_corrupt(value.10),
            match r {
                Ok(e) => e.loaded_from(value),
                Err(_) => true,
            },
    {
        let (
            burned,
            deadline,
            divisibility,
            end,
            etching,
            limit,
            number,
            dune,
            spacers,
            supply,
            symbol,
            timestamp,
        ) = value;
        let mut bytes: Vec<u8> = Vec::new();
        push_le(&mut bytes, etching.0, 16);
        push_le(&mut bytes, etching.1, 16);
        proof {
            lemma_le_bytes_len(etching.0 as nat, 16);
            lemma_le_bytes_len(etching.1 as nat, 16);
        }
        let etching: [u8; 32] = to_array(&bytes);
        let symbol = if symbol == u32::MAX {
            None
        } else {
            match char_from_u32(symbol) {
                Some(c) => Some(c),
                None => {
                    return Err(CorruptRecord);
                },
            }
        };
        Ok(DuneEntry {
            burned,
            deadline,
            divisibility,
            end: if end != u32::MAX {
                Some(end)
            } else {
                None
            },
            etching: Txid(etching),
            limit: if limit != u128::MAX {
                Some(limit)
            } else {
                None
            },
            number,
            dune: Dune(dune),
            spacers,
            supply,
            symbol,
            timestamp,
        })
    }

    pub fn store(self) -> (r: DuneEntryValue)
        ensures
            r == self.stored(),
    {
        proof {
            lemma_pow256_values();
            crate::bytes::lemma_le_value_bound(self.etching.0@.subrange(0, 16));
            crate::bytes::lemma_le_value_bound(self.etching.0@.subrange(16, 32));
        }
        let low = read_le(&self.etching.0, 0, 16);
        let high = read_le(&self.etching.0, 16, 16);
        (
            self.burned,
            self.deadline,
            self.divisibility,
            match self.end {
                Some(e) => e,
                None => u32::MAX,
            },
            (low, high),
            match self.limit {
                Some(l) => l,
                None => u128::MAX,
            },
            self.number,
            self.dune.0,
            self.spacers,
            self.supply,
            match self.symbol {
                Some(c) => c as u32,
                None => u32::MAX,
            },
            self.timestamp,
        )
    }
}

impl Default for DuneEntry {
    fn default() -> (r: DuneEntry)
        ensures
            r.burned == 0,
            r.deadline is None,
            r.divisibility == 0,
            r.end is None,
            forall|i: int| 0 <= i < 32 ==> r.etching.0@[i] == 0,
            r.limit is None,
            r.number == 0,
            r.dune == Dune(0),
            r.spacers == 0,
            r.supply == 0,
            r.symbol is None,
            r.timestamp == 0,
    {
        DuneEntry {
            burned: 0,
            deadline: None,
            divisibility: 0,
            end: None,
            etching: Txid::all_zeros(),
            limit: None,
            number: 0,
            dune: Dune(0),
            spacers: 0,
            supply: 0,
            symbol: None,
            timestamp: 0,
        }
    }
}

/// Loading what `store` wrote succeeds and gives the dune record back, for
/// every record whose `end` and `limit` are not the sentinel values themselves.
pub proof fn lemma_dune_entry_round_trip(x: DuneEntry, y: DuneEntry)
    requires
        x.end != Some(u32::MAX),
        x.limit != Some(u128::MAX),
    ensures
        !symbol_corrupt(x.stored().10),
        y.loaded_from(x.stored()) ==> y == x,
{
    match x.symbol {
        Some(c) => {
            char_is_scalar(c);
            char_u32_cast(c, c as u32);
            assert(!is_scalar(u32::MAX));
        },
        None => {},
    }
    if y.loaded_from(x.stored()) {
        let e = x.etching.0@;
        let lo = e.subrange(0, 16);
        let hi = e.subrange(16, 32);
        lemma_pow256_values();
        crate::bytes::lemma_le_value_bound(lo);
        crate::bytes::lemma_le_value_bound(hi);
        lemma_le_bytes_of_value(lo);
        lemma_le_bytes_of_value(hi);
        assert(y.etching.0@ =~= e);
        assert(y.etching.0 =~= x.etching.0);
    }
}

/// Storage value of a satoshi range: 51 bits of base and 33 bits of length,
/// packed into a little-endian integer and cut to eleven bytes.
pub open spec fn sat_range_packed(range: (u64, u64)) -> u128 {
    (range.0 as u128) | (((range.1 - range.0) as u64 as u128) << 51u128)
}

/// The range that eleven stored bytes describe.
pub open spec fn sat_range_of(v: Seq<u8>) -> (u64, u64) {
    let n = le_value(v);
    let base = n % 0x8_0000_0000_0000;
    let delta = (n / 0x8_0000_0000_0000) % 0x20_0000_0000;
    (base as u64, (base + delta) as u64)
}

/// Packs the half-open satoshi range `[range.0, range.1)`.
pub fn sat_range_store(range: (u64, u64)) -> (r: [u8; 11])
    requires
        range.0 <= range.1,
    ensures
        r@ == le_bytes(sat_range_packed(range) as nat, 11),
{
    let base = range.0;
    let delta = range.1 - range.0;
    let n: u128 = (base as u128) | ((delta as u128) << 51u128);
    let mut v: Vec<u8> = Vec::new();
    push_le(&mut v, n, 11);
    proof {
        lemma_le_bytes_len(n as nat, 11);
    }
    to_array(&v)
}

/// Unpacks a satoshi range.
pub fn sat_range_load(value: [u8; 11]) -> (r: (u64, u64))
    ensures
        r == sat_range_of(value@),
{
    let n = read_le(&value, 0, 11);
    let base: u128 = n % 0x8_0000_0000_0000;
    let delta: u128 = (n / 0x8_0000_0000_0000) % 0x20_0000_0000;
    assert(value@.subrange(0, 11) =~= value@);
    (base as u64, (base + delta) as u64)
}

/// Loading a stored satoshi range gives it back, for every base below `2^51`
/// and length below `2^33`.
pub proof fn lemma_sat_range_round_trip(base: u64, delta: u64)
    requires
        base < 0x8_0000_0000_0000,
        delta < 0x2_0000_0000,
    ensures
        sat_range_of(le_bytes(sat_range_packed((base, (base + delta) as u64)) as nat, 11))
            == (base, (base + delta) as u64),
{
    let b = base as u128;
    let d = delta as u128;
    assert(((base + delta) as u64 - base) as u64 == delta);
    assert(b | (d << 51u128) == b + d * 0x8_0000_0000_0000) by (bit_vector)
        requires
            b < 0x8_0000_0000_0000,
            d < 0x2_0000_0000,
    ;
    let n: nat = (b + d * 0x8_0000_0000_0000) as nat;
    lemma_pow256_values();
    lemma_le_round_trip(n, 11);
    assert(n % 0x8_0000_0000_0000 == base as nat && n / 0x8_0000_0000_0000 == delta as nat)
        by (nonlinear_arith)
        requires
            n == base as nat + delta as nat * 0x8_0000_0000_0000,
            base < 0x8_0000_0000_0000,
    ;
}

} // verus!
