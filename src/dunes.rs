//! Dune etchings and the listing of every dune in the index.
use vstd::prelude::*;
use std::collections::BTreeMap;
use crate::entry::{Dune, DuneEntry, DuneId, Txid};

verus! {

/// The open-mint terms of an etching.
#[derive(Debug, Clone, Copy, PartialEq, Eq, Default)]
pub struct Mint {
    pub deadline: Option<u32>,
    pub limit: Option<u128>,
    pub term: Option<u32>,
}

/// The fields that an etching sets on a new dune.
#[derive(Debug, Clone, Copy, PartialEq, Eq, Default)]
pub struct Etching {
    pub divisibility: u8,
    pub mint: Option<Mint>,
    pub dune: Option<Dune>,
    pub spacers: u32,
    pub symbol: Option<char>,
}

/// One dune as the listing shows it. `timestamp` is in seconds since the epoch.
#[derive(Debug, Clone, Copy, PartialEq, Eq)]
pub struct DuneInfo {
    pub burned: u128,
    pub divisibility: u8,
    pub end: Option<u32>,
    pub etching: Txid,
    pub height: u32,
    pub id: DuneId,
    pub index: u16,
    pub limit: Option<u128>,
    pub number: u64,
    pub dune: Dune,
    pub spacers: u32,
    pub supply: u128,
    pub symbol: Option<char>,
    pub timestamp: u32,
}

/// Every dune in the index, keyed by its numeric name.
#[derive(Debug, Clone, PartialEq, Eq)]
pub struct Output {
    pub dunes: BTreeMap<u128, DuneInfo>,
}

/// The listing entry of the dune `id` with ledger entry `entry`.
pub open spec fn spec_dune_info(id: DuneId, entry: DuneEntry) -> DuneInfo {
    DuneInfo {
        burned: entry.burned,
        divisibility: entry.divisibility,
        end: entry.end,
        etching: entry.etching,
        height: id.height,
        id,
        index: id.index,
        limit: entry.limit,
        number: entry.number,
        dune: entry.dune,
        spacers: entry.spacers,
        supply: entry.supply,
        symbol: entry.symbol,
        timestamp: entry.timestamp,
    }
}

/// The listing of `dunes`, a later entry of the same name replacing an earlier one.
pub open spec fn listing(dunes: Seq<(DuneId, DuneEntry)>) -> Map<u128, DuneInfo>
    decreases dunes.len(),
{
    if dunes.len() == 0 {
        Map::empty()
    } else {
        let (id, entry) = dunes.last();
        listing(dunes.drop_last()).insert(entry.dune.0, spec_dune_info(id, entry))
    }
}

/// The listing entry of one dune.
pub fn dune_info(id: DuneId, entry: &DuneEntry) -> (r: DuneInfo)
    ensures
        r == spec_dune_info(id, *entry),
{
    DuneInfo {
        burned: entry.burned,
        divisibility: entry.divisibility,
        end: entry.end,
        etching: entry.etching,
        height: id.height,
        id,
        index: id.index,
        limit: entry.limit,
        number: entry.number,
        dune: entry.dune,
        spacers: entry.spacers,
        supply: entry.supply,
        symbol: entry.symbol,
        timestamp: entry.timestamp,
    }
}

/// Lists the dunes of the index by name.
pub fn run(dunes: &Vec<(DuneId, DuneEntry)>) -> (r: Output)
    ensures
        r.dunes@ == listing(dunes@),
{
    broadcast use vstd::laws_cmp::group_laws_cmp;

    let mut map: BTreeMap<u128, DuneInfo> = BTreeMap::new();
    let mut i: usize = 0;
    while i < dunes.len()
        invariant
            i <= dunes@.len(),
            map@ == listing(dunes@.take(i as int)),
        decreases dunes@.len() - i,
    {
        let (id, entry) = dunes[i];
        proof {
            assert(dunes@.take(i + 1).drop_last() =~= dunes@.take(i as int));
        }
        map.insert(entry.dune.0, dune_info(id, &entry));
        i = i + 1;
    }
    assert(dunes@.take(i as int) =~= dunes@);
    Output { dunes: map }
}

} // verus!
