//! Per-transaction tracking of inscription locations.
//!
//! The updater is handed each transaction of a block in order, as plain
//! values: the value and the inscriptions of every spent output, the output
//! values, and what the envelope parser made of the transaction. It returns
//! the table writes that move every inscription to its new satoshi point, and
//! the bookkeeping for inscriptions whose envelope spans several transactions.
use vstd::prelude::*;
use crate::entry::{InscriptionEntry, InscriptionId, OutPoint, Sat, SatPoint, Txid};

verus! {

/// Where an inscription in transit comes from.
#[derive(Debug, Clone, Copy, PartialEq, Eq)]
pub enum Origin {
    /// Created by this transaction, with the fee it paid.
    New(u64),
    /// Already located at this satoshi point.
    Old(SatPoint),
}

/// An inscription in transit, at an offset into the value that flows through
/// the transaction.
#[derive(Debug, Clone, Copy, PartialEq, Eq)]
pub struct Flotsam {
    pub inscription_id: InscriptionId,
    pub offset: u64,
    pub origin: Origin,
}

/// `x` put into `s` after every element whose offset is not greater.
pub open spec fn insert_by_offset(s: Seq<Flotsam>, x: Flotsam) -> Seq<Flotsam>
    decreases s.len(),
{
    if s.len() == 0 {
        seq![x]
    } else if s.last().offset <= x.offset {
        s.push(x)
    } else {
        insert_by_offset(s.drop_last(), x).push(s.last())
    }
}

/// `s` in the order of the offsets, equal offsets keeping their order.
pub open spec fn sorted_by_offset(s: Seq<Flotsam>) -> Seq<Flotsam>
    decreases s.len(),
{
    if s.len() == 0 {
        s
    } else {
        insert_by_offset(sorted_by_offset(s.drop_last()), s.last())
    }
}

proof fn lemma_insert_at(s: Seq<Flotsam>, x: Flotsam, p: int)
    requires
        0 <= p <= s.len(),
        p == 0 || s[p - 1].offset <= x.offset,
        forall|j: int| p <= j < s.len() ==> s[j].offset > x.offset,
    ensures
        insert_by_offset(s, x) == s.insert(p, x),
    decreases s.len(),
{
    if s.len() == 0 {
        assert(s.insert(p, x) =~= seq![x]);
    } else if s.last().offset <= x.offset {
        assert(p == s.len());
        assert(s.insert(p, x) =~= s.push(x));
    } else {
        lemma_insert_at(s.drop_last(), x, p);
        assert(s.drop_last().insert(p, x).push(s.last()) =~= s.insert(p, x));
    }
}

/// Every offset of the sorted sequence is one of the input's bounds.
proof fn lemma_sorted_bound(s: Seq<Flotsam>, b: nat)
    requires
        forall|j: int| 0 <= j < s.len() ==> s[j].offset <= b,
    ensures
        sorted_by_offset(s).len() == s.len(),
        forall|j: int|
            0 <= j < sorted_by_offset(s).len() ==> sorted_by_offset(s)[j].offset <= b,
    decreases s.len(),
{
    if s.len() > 0 {
        lemma_sorted_bound(s.drop_last(), b);
        lemma_insert_bound(sorted_by_offset(s.drop_last()), s.last(), b);
    }
}

proof fn lemma_insert_bound(s: Seq<Flotsam>, x: Flotsam, b: nat)
    requires
        forall|j: int| 0 <= j < s.len() ==> s[j].offset <= b,
        x.offset <= b,
    ensures
        insert_by_offset(s, x).len() == s.len() + 1,
        forall|j: int|
            0 <= j < insert_by_offset(s, x).len() ==> insert_by_offset(s, x)[j].offset <= b,
    decreases s.len(),
{
    if s.len() > 0 && s.last().offset > x.offset {
        lemma_insert_bound(s.drop_last(), x, b);
    }
}

/// Orders flotsam by offset; flotsam with equal offsets keep their order.
pub fn sort_by_offset(v: Vec<Flotsam>) -> (r: Vec<Flotsam>)
    ensures
        r@ == sorted_by_offset(v@),
{
    let mut r: Vec<Flotsam> = Vec::new();
    let mut i: usize = 0;
    while i < v.len()
        invariant
            i <= v.len(),
            r@ == sorted_by_offset(v@.take(i as int)),
        decreases v.len() - i,
    {
        let x = v[i];
        let mut p: usize = r.len();
        while p > 0 && r[p - 1].offset > x.offset
            invariant
                p <= r.len(),
                forall|j: int| p <= j < r.len() ==> r@[j].offset > x.offset,
            decreases p,
        {
            p = p - 1;
        }
        proof {
            lemma_insert_at(r@, x, p as int);
            assert(v@.take(i + 1).drop_last() =~= v@.take(i as int));
        }
        r.insert(p, x);
        i = i + 1;
    }
    assert(v@.take(v.len() as int) =~= v@);
    r
}

/// The total of a run of values.
pub open spec fn total(values: Seq<u64>) -> nat
    decreases values.len(),
{
    if values.len() == 0 {
        0
    } else {
        total(values.drop_last()) + values.last() as nat
    }
}

proof fn lemma_total_prefix(values: Seq<u64>, k: int)
    requires
        0 <= k <= values.len(),
    ensures
        total(values.take(k)) <= total(values),
    decreases values.len() - k,
{
    if k < values.len() {
        lemma_total_prefix(values, k + 1);
        assert(values.take(k + 1).drop_last() =~= values.take(k));
    } else {
        assert(values.take(k) =~= values);
    }
}

/// The output that holds the satoshi at `offset` into the concatenated output
/// values, searched from output `k` on, and the offset into that output.
pub open spec fn locate_from(values: Seq<u64>, k: nat, offset: nat) -> Option<(nat, nat)>
    decreases values.len() - k,
{
    if k >= values.len() {
        None
    } else if offset < total(values.take((k + 1) as int)) {
        Some((k, (offset - total(values.take(k as int))) as nat))
    } else {
        locate_from(values, k + 1, offset)
    }
}

/// The output that holds the satoshi at `offset`, and the offset into it.
pub open spec fn locate(values: Seq<u64>, offset: nat) -> Option<(nat, nat)> {
    locate_from(values, 0, offset)
}

/// Finds the output that holds the satoshi at `offset`.
fn find_output(values: &Vec<u64>, offset: u64) -> (r: Option<(usize, u64)>)
    requires
        total(values@) <= u64::MAX,
    ensures
        match r {
            Some((k, o)) => locate(values@, offset as nat) == Some((k as nat, o as nat))
                && k < values@.len(),
            None => locate(values@, offset as nat) is None && offset >= total(values@),
        },
{
    let mut acc: u64 = 0;
    let mut k: usize = 0;
    while k < values.len()
        invariant
            k <= values.len(),
            total(values@) <= u64::MAX,
            acc as nat == total(values@.take(k as int)),
            offset >= acc,
            locate(values@, offset as nat) == locate_from(values@, k as nat, offset as nat),
        decreases values.len() - k,
    {
        proof {
            assert(values@.take(k + 1).drop_last() =~= values@.take(k as int));
            lemma_total_prefix(values@, k + 1);
        }
        if offset - acc < values[k] {
            return Some((k, offset - acc));
        }
        acc = acc + values[k];
        k = k + 1;
    }
    assert(values@.take(k as int) =~= values@);
    None
}

/// The satoshi at `offset` into the concatenation of the half-open ranges.
pub open spec fn sat_for(ranges: Seq<(u64, u64)>, offset: nat) -> Option<nat>
    decreases ranges.len(),
{
    if ranges.len() == 0 {
        None
    } else if offset < ranges[0].1 - ranges[0].0 {
        Some((ranges[0].0 + offset) as nat)
    } else {
        sat_for(ranges.drop_first(), (offset - (ranges[0].1 - ranges[0].0)) as nat)
    }
}

/// Every range starts no later than it ends.
pub open spec fn ranges_valid(ranges: Seq<(u64, u64)>) -> bool {
    forall|i: int| 0 <= i < ranges.len() ==> ranges[i].0 <= ranges[i].1
}

/// Finds the satoshi at `offset` into the concatenated ranges.
pub fn find_sat(ranges: &Vec<(u64, u64)>, offset: u64) -> (r: Option<u64>)
    requires
        ranges_valid(ranges@),
    ensures
        match r {
            Some(n) => sat_for(ranges@, offset as nat) == Some(n as nat),
            None => sat_for(ranges@, offset as nat) is None,
        },
{
    let mut consumed: u64 = 0;
    let mut i: usize = 0;
    assert(ranges@.subrange(0, ranges@.len() as int) =~= ranges@);
    while i < ranges.len()
        invariant
            i <= ranges.len(),
            ranges_valid(ranges@),
            consumed <= offset,
            sat_for(ranges@, offset as nat) == sat_for(
                ranges@.subrange(i as int, ranges@.len() as int),
                (offset - consumed) as nat,
            ),
        decreases ranges.len() - i,
    {
        let (start, end) = ranges[i];
        let size = end - start;
        proof {
            let rest = ranges@.subrange(i as int, ranges@.len() as int);
            assert(rest.drop_first() =~= ranges@.subrange(i + 1, ranges@.len() as int));
        }
        if offset - consumed < size {
            return Some(start + (offset - consumed));
        }
        consumed = consumed + size;
        i = i + 1;
    }
    None
}

/// What the envelope parser made of the transactions of a reassembly.
#[derive(Debug, Clone, Copy, PartialEq, Eq)]
pub enum ParsedInscription {
    /// No inscription.
    NoInscription,
    /// An envelope that goes on in a later transaction.
    Partial,
    /// A whole envelope.
    Complete,
}

/// Bookkeeping for envelopes that span several transactions.
#[derive(Debug, Clone, PartialEq, Eq)]
pub enum Reassembly {
    /// Nothing changes.
    Unchanged,
    /// The envelope goes on: drop the entry under `previous`, record `txids`
    /// under `txid`, and keep this transaction's bytes under `txid`.
    Pending { previous: Txid, txid: Txid, txids: Vec<Txid> },
    /// The envelope is whole: drop the entry under `previous`, keep this
    /// transaction's bytes under `txid`, and record `txids` under `inscription_id`,
    /// the id of the first transaction with index zero.
    Completed { previous: Txid, txid: Txid, txids: Vec<Txid>, inscription_id: InscriptionId },
}

/// The transactions recorded so far for a reassembly.
pub open spec fn pending_txids(pending: Option<Vec<Txid>>) -> Seq<Txid> {
    match pending {
        Some(v) => v@,
        None => Seq::empty(),
    }
}

/// `r` is the next step of the reassembly that the transaction `txid`,
/// spending from `previous`, continues.
pub open spec fn reassembled(
    r: Reassembly,
    previous: Txid,
    txid: Txid,
    pending: Option<Vec<Txid>>,
    parsed: ParsedInscription,
) -> bool {
    match parsed {
        ParsedInscription::NoInscription => r == Reassembly::Unchanged,
        ParsedInscription::Partial => match r {
            Reassembly::Pending { previous: p, txid: t, txids } => p == previous && t == txid
                && txids@ == pending_txids(pending).push(txid),
            _ => false,
        },
        ParsedInscription::Complete => match r {
            Reassembly::Completed { previous: p, txid: t, txids, inscription_id } => p == previous
                && t == txid && txids@ == pending_txids(pending).push(txid) && inscription_id == (
            InscriptionId { txid: txids@[0], index: 0 }),
            _ => false,
        },
    }
}

/// The next step of the reassembly that the transaction `txid`, spending from
/// `previous`, continues: `pending` holds the transactions recorded under
/// `previous`, and `parsed` what the parser made of them followed by this one.
pub fn reassemble(previous: Txid, txid: Txid, pending: Option<Vec<Txid>>, parsed: ParsedInscription) -> (r:
    Reassembly)
    ensures
        match parsed {
            ParsedInscription::NoInscription => r == Reassembly::Unchanged,
            ParsedInscription::Partial => match r {
                Reassembly::Pending { previous: p, txid: t, txids } => p == previous && t == txid
                    && txids@ == pending_txids(pending).push(txid),
                _ => false,
            },
            ParsedInscription::Complete => match r {
                Reassembly::Completed { previous: p, txid: t, txids, inscription_id } => p
                    == previous && t == txid && txids@ == pending_txids(pending).push(txid)
                    && inscription_id == (InscriptionId { txid: txids@[0], index: 0 }),
                _ => false,
            },
        },
{
    let mut txids: Vec<Txid> = match pending {
        Some(v) => v,
        None => Vec::new(),
    };
    txids.push(txid);
    match parsed {
        ParsedInscription::NoInscription => Reassembly::Unchanged,
        ParsedInscription::Partial => Reassembly::Pending { previous, txid, txids },
        ParsedInscription::Complete => {
            let first = txids[0];
            Reassembly::Completed {
                previous,
                txid,
                txids,
                inscription_id: InscriptionId { txid: first, index: 0 },
            }
        },
    }
}


/// One write to the index tables.
#[derive(Debug, Clone, Copy, PartialEq, Eq)]
pub enum TableWrite {
    /// Remove the entry of this satoshi point from the point-to-inscription table.
    RemoveSatPoint(SatPoint),
    /// Record the inscription under its number.
    InsertNumber(u64, InscriptionId),
    /// Record the inscription under its satoshi ordinal.
    InsertSat(u64, InscriptionId),
    /// Record the inscription's entry.
    InsertEntry(InscriptionId, InscriptionEntry),
    /// Record the inscription at this satoshi point, in both directions.
    Locate(InscriptionId, SatPoint),
}

/// One input of a transaction, with what the index knows of the output it spends.
#[derive(Debug, Clone, PartialEq, Eq)]
pub struct TxInput {
    pub previous_output: OutPoint,
    /// The inscriptions located on the spent output, with their satoshi points.
    pub inscriptions: Vec<(SatPoint, InscriptionId)>,
    /// The value of the spent output; not read for the null reference.
    pub value: u64,
}

/// A transaction as the updater sees it.
#[derive(Debug, Clone, PartialEq, Eq)]
pub struct Transaction {
    pub txid: Txid,
    pub inputs: Vec<TxInput>,
    /// The values of the outputs, in order.
    pub outputs: Vec<u64>,
}

/// What the index holds for the envelope of a transaction: the transactions
/// recorded under the first input's previous transaction, and what the parser
/// made of them followed by this one.
#[derive(Debug, Clone, PartialEq, Eq)]
pub struct Envelope {
    pub pending: Option<Vec<Txid>>,
    pub parsed: ParsedInscription,
}

/// What processing one transaction produced.
#[derive(Debug, Clone, PartialEq, Eq)]
pub struct TxUpdate {
    /// For a coinbase, the reward it left unclaimed; zero otherwise.
    pub residual: u64,
    pub writes: Vec<TableWrite>,
    pub reassembly: Reassembly,
}

/// The updater of one block.
#[derive(Debug, Clone, PartialEq, Eq)]
pub struct InscriptionUpdater {
    /// Flotsam carried to the coinbase, at offsets into the reward.
    pub flotsam: Vec<Flotsam>,
    pub height: u32,
    /// Satoshis lost before this block; the block's caller advances it by
    /// the coinbase's residual once the block is done.
    pub lost_sats: u64,
    pub next_number: u64,
    /// The subsidy plus the fees collected so far.
    pub reward: u64,
    /// The subsidy of the block.
    pub subsidy: u64,
    pub timestamp: u32,
}

pub open spec fn is_null_input(i: TxInput) -> bool {
    i.previous_output.spec_is_null()
}

/// The value an input brings: the subsidy for the null reference.
pub open spec fn input_value(i: TxInput, subsidy: u64) -> nat {
    if is_null_input(i) {
        subsidy as nat
    } else {
        i.value as nat
    }
}

/// The total value of the inputs.
pub open spec fn input_total(ins: Seq<TxInput>, subsidy: u64) -> nat
    decreases ins.len(),
{
    if ins.len() == 0 {
        0
    } else {
        input_total(ins.drop_last(), subsidy) + input_value(ins.last(), subsidy)
    }
}

/// The flotsam of the inscriptions on one spent output, whose value starts at `start`.
pub open spec fn old_flotsam(inscriptions: Seq<(SatPoint, InscriptionId)>, start: nat) -> Seq<
    Flotsam,
> {
    inscriptions.map_values(
        |p: (SatPoint, InscriptionId)|
            Flotsam {
                inscription_id: p.1,
                offset: (start + p.0.offset) as u64,
                origin: Origin::Old(p.0),
            },
    )
}

/// The flotsam of every inscription on the spent outputs, in input order.
pub open spec fn input_flotsam(ins: Seq<TxInput>, subsidy: u64) -> Seq<Flotsam>
    decreases ins.len(),
{
    if ins.len() == 0 {
        Seq::empty()
    } else {
        let prev = ins.drop_last();
        input_flotsam(prev, subsidy) + if is_null_input(ins.last()) {
            Seq::empty()
        } else {
            old_flotsam(ins.last().inscriptions@, input_total(prev, subsidy))
        }
    }
}

pub open spec fn is_coinbase(tx: Transaction) -> bool {
    tx.inputs@.len() > 0 && is_null_input(tx.inputs@[0])
}

/// No inscription sits on the first satoshi, so an envelope there can create one.
pub open spec fn envelope_read(fs: Seq<Flotsam>) -> bool {
    forall|j: int| 0 <= j < fs.len() ==> fs[j].offset != 0
}

/// Every inscription in transit: those of the inputs, one created by a whole
/// envelope, and, in a coinbase, those carried from earlier transactions.
pub open spec fn all_flotsam(u: InscriptionUpdater, tx: Transaction, env: Envelope) -> Seq<
    Flotsam,
> {
    let base = input_flotsam(tx.inputs@, u.subsidy);
    let fee = input_total(tx.inputs@, u.subsidy) - total(tx.outputs@);
    let with_new = if envelope_read(base) && env.parsed == ParsedInscription::Complete {
        base.push(
            Flotsam {
                inscription_id: InscriptionId {
                    txid: pending_txids(env.pending).push(tx.txid)[0],
                    index: 0,
                },
                offset: 0,
                origin: Origin::New(fee as u64),
            },
        )
    } else {
        base
    };
    if is_coinbase(tx) {
        with_new + u.flotsam@
    } else {
        with_new
    }
}

/// Where a flotsam lands: in the output that holds its offset, or, in a
/// coinbase, past the lost satoshis; `None` when it is carried on.
pub open spec fn destination(tx: Transaction, lost_sats: u64, f: Flotsam) -> Option<SatPoint> {
    match locate(tx.outputs@, f.offset as nat) {
        Some((k, o)) => Some(
            SatPoint { outpoint: OutPoint { txid: tx.txid, vout: k as u32 }, offset: o as u64 },
        ),
        None => if is_coinbase(tx) {
            Some(
                SatPoint {
                    outpoint: OutPoint::spec_null(),
                    offset: (lost_sats + f.offset - total(tx.outputs@)) as u64,
                },
            )
        } else {
            None
        },
    }
}

/// The flotsam that land, each with its new satoshi point, in order.
pub open spec fn placements(tx: Transaction, lost_sats: u64, fs: Seq<Flotsam>) -> Seq<
    (Flotsam, SatPoint),
>
    decreases fs.len(),
{
    if fs.len() == 0 {
        Seq::empty()
    } else {
        placements(tx, lost_sats, fs.drop_last()) + match destination(tx, lost_sats, fs.last()) {
            Some(sp) => seq![(fs.last(), sp)],
            None => Seq::empty(),
        }
    }
}

/// The flotsam carried on, rebased onto the reward.
pub open spec fn carried(tx: Transaction, lost_sats: u64, reward: u64, fs: Seq<Flotsam>) -> Seq<
    Flotsam,
>
    decreases fs.len(),
{
    if fs.len() == 0 {
        Seq::empty()
    } else {
        let f = fs.last();
        carried(tx, lost_sats, reward, fs.drop_last()) + if destination(tx, lost_sats, f) is None {
            seq![
                Flotsam {
                    offset: (reward + f.offset - total(tx.outputs@)) as u64,
                    ..f
                },
            ]
        } else {
            Seq::empty()
        }
    }
}

/// How many of the placed flotsam are new inscriptions.
pub open spec fn new_count(ps: Seq<(Flotsam, SatPoint)>) -> nat
    decreases ps.len(),
{
    if ps.len() == 0 {
        0
    } else {
        new_count(ps.drop_last()) + if ps.last().0.origin is New {
            1nat
        } else {
            0nat
        }
    }
}

pub open spec fn ranges_view(ranges: Option<&Vec<(u64, u64)>>) -> Option<Seq<(u64, u64)>> {
    match ranges {
        Some(r) => Some(r@),
        None => None,
    }
}

/// The satoshi ordinal at `offset`, where the ranges are known.
pub open spec fn sat_at(ranges: Option<Seq<(u64, u64)>>, offset: nat) -> Option<u64> {
    match ranges {
        Some(r) => match sat_for(r, offset) {
            Some(n) => Some(n as u64),
            None => None,
        },
        None => None,
    }
}

/// The writes that move `f` to `sp`; a new inscription takes number `number`.
pub open spec fn location_writes(
    height: u32,
    timestamp: u32,
    ranges: Option<Seq<(u64, u64)>>,
    number: u64,
    f: Flotsam,
    sp: SatPoint,
) -> Seq<TableWrite> {
    let id = f.inscription_id;
    let head = match f.origin {
        Origin::Old(old) => seq![TableWrite::RemoveSatPoint(old)],
        Origin::New(fee) => {
            let sat = sat_at(ranges, f.offset as nat);
            seq![TableWrite::InsertNumber(number, id)] + match sat {
                Some(n) => seq![TableWrite::InsertSat(n, id)],
                None => Seq::empty(),
            } + seq![
                TableWrite::InsertEntry(
                    id,
                    InscriptionEntry {
                        fee,
                        height,
                        inscription_number: number,
                        sat: match sat {
                            Some(n) => Some(Sat(n)),
                            None => None,
                        },
                        sequence_number: 0,
                        timestamp,
                    },
                ),
            ]
        },
    };
    head.push(TableWrite::Locate(id, sp))
}

/// The writes of a run of placements, numbering new inscriptions from `number`.
pub open spec fn writes_of(
    height: u32,
    timestamp: u32,
    ranges: Option<Seq<(u64, u64)>>,
    number: nat,
    ps: Seq<(Flotsam, SatPoint)>,
) -> Seq<TableWrite>
    decreases ps.len(),
{
    if ps.len() == 0 {
        Seq::empty()
    } else {
        let prev = ps.drop_last();
        writes_of(height, timestamp, ranges, number, prev) + location_writes(
            height,
            timestamp,
            ranges,
            (number + new_count(prev)) as u64,
            ps.last().0,
            ps.last().1,
        )
    }
}

impl InscriptionUpdater {
    /// Carried flotsam lie within the reward.
    pub open spec fn wf(self) -> bool {
        forall|j: int| 0 <= j < self.flotsam@.len() ==> self.flotsam@[j].offset <= self.reward
    }

    /// The flotsam of `tx` in the order they are settled.
    pub open spec fn settled(self, tx: Transaction, env: Envelope) -> Seq<Flotsam> {
        sorted_by_offset(all_flotsam(self, tx, env))
    }

    /// The placements of `tx`.
    pub open spec fn placed(self, tx: Transaction, env: Envelope) -> Seq<(Flotsam, SatPoint)> {
        placements(tx, self.lost_sats, self.settled(tx, env))
    }

    /// The table writes that processing `tx` makes.
    pub open spec fn writes(
        self,
        tx: Transaction,
        env: Envelope,
        ranges: Option<Seq<(u64, u64)>>,
    ) -> Seq<TableWrite> {
        writes_of(self.height, self.timestamp, ranges, self.next_number as nat, self.placed(tx, env))
    }

    /// The values of `tx` stay within the machine's integers, and `tx` is valid:
    /// its outputs spend no more than its inputs (a coinbase no more than the
    /// reward), and every inscription lies within the output it sits on.
    pub open spec fn accepts(
        self,
        tx: Transaction,
        env: Envelope,
        ranges: Option<Seq<(u64, u64)>>,
    ) -> bool {
        let ins = tx.inputs@;
        let i = input_total(ins, self.subsidy);
        let t = total(tx.outputs@);
        &&& self.wf()
        &&& ins.len() >= 1
        &&& tx.outputs@.len() <= u32::MAX
        &&& i <= u64::MAX
        &&& t <= u64::MAX
        &&& forall|k: int, j: int|
            0 <= k < ins.len() && !is_null_input(ins[k]) && 0 <= j < ins[k].inscriptions@.len()
                ==> ins[k].inscriptions@[j].0.offset < ins[k].value
        &&& env.parsed == ParsedInscription::Complete ==> t <= i
        &&& is_coinbase(tx) ==> {
            &&& t <= self.reward
            &&& self.lost_sats + i <= u64::MAX
            &&& self.lost_sats + self.reward <= u64::MAX
        }
        &&& !is_coinbase(tx) ==> t <= i && self.reward + (i - t) <= u64::MAX
        &&& self.next_number + all_flotsam(self, tx, env).len() <= u64::MAX
        &&& match ranges {
            Some(r) => ranges_valid(r),
            None => true,
        }
    }

    /// The updater of the block at `height`, whose subsidy is `subsidy`;
    /// `highest_number` is the highest inscription number assigned so far.
    pub fn new(height: u32, subsidy: u64, lost_sats: u64, highest_number: Option<u64>, timestamp: u32) -> (r:
        InscriptionUpdater)
        requires
            highest_number != Some(u64::MAX),
        ensures
            r.flotsam@.len() == 0,
            r.height == height,
            r.lost_sats == lost_sats,
            r.next_number == match highest_number {
                Some(n) => n + 1,
                None => 0,
            },
            r.reward == subsidy,
            r.subsidy == subsidy,
            r.timestamp == timestamp,
            r.wf(),
    {
        let next_number = match highest_number {
            Some(n) => n + 1,
            None => 0,
        };
        InscriptionUpdater {
            flotsam: Vec::new(),
            height,
            lost_sats,
            next_number,
            reward: subsidy,
            subsidy,
            timestamp,
        }
    }

    /// Moves `flotsam` to `new_satpoint`, appending the writes that takes.
    fn update_inscription_location(
        &mut self,
        input_sat_ranges: Option<&Vec<(u64, u64)>>,
        flotsam: Flotsam,
        new_satpoint: SatPoint,
        writes: &mut Vec<TableWrite>,
    )
        requires
            flotsam.origin is New ==> old(self).next_number < u64::MAX,
            match input_sat_ranges {
                Some(r) => ranges_valid(r@),
                None => true,
            },
        ensures
            final(writes)@ == old(writes)@ + location_writes(
                old(self).height,
                old(self).timestamp,
                ranges_view(input_sat_ranges),
                old(self).next_number,
                flotsam,
                new_satpoint,
            ),
            final(self).next_number == old(self).next_number + if flotsam.origin is New {
                1nat
            } else {
                0nat
            },
            final(self).flotsam == old(self).flotsam,
            final(self).height == old(self).height,
            final(self).lost_sats == old(self).lost_sats,
            final(self).reward == old(self).reward,
            final(self).subsidy == old(self).subsidy,
            final(self).timestamp == old(self).timestamp,
    {
        let inscription_id = flotsam.inscription_id;
        let ghost start = writes@;
        match flotsam.origin {
            Origin::Old(old_satpoint) => {
                writes.push(TableWrite::RemoveSatPoint(old_satpoint));
            },
            Origin::New(fee) => {
                writes.push(TableWrite::InsertNumber(self.next_number, inscription_id));
                let mut sat: Option<Sat> = None;
                if let Some(ranges) = input_sat_ranges {
                    if let Some(n) = find_sat(ranges, flotsam.offset) {
                        writes.push(TableWrite::InsertSat(n, inscription_id));
                        sat = Some(Sat(n));
                    }
                }
                writes.push(
                    TableWrite::InsertEntry(
                        inscription_id,
                        InscriptionEntry {
                            fee,
                            height: self.height,
                            inscription_number: self.next_number,
                            sat,
                            sequence_number: 0,
                            timestamp: self.timestamp,
                        },
                    ),
                );
                self.next_number = self.next_number + 1;
            },
        }
        writes.push(TableWrite::Locate(inscription_id, new_satpoint));
        assert(writes@ =~= start + location_writes(
            self.height,
            self.timestamp,
            ranges_view(input_sat_ranges),
            old(self).next_number,
            flotsam,
            new_satpoint,
        ));
    }

    /// Processes one transaction: moves every inscription on its inputs, and
    /// the one that a whole envelope creates, to its new satoshi point. In a
    /// coinbase, the flotsam carried from the block's earlier transactions
    /// are settled too, and those past the outputs are lost; elsewhere those
    /// past the outputs are carried to the coinbase and the fee is added to
    /// the reward.
    pub fn index_transaction_inscriptions(
        &mut self,
        tx: &Transaction,
        env: Envelope,
        input_sat_ranges: Option<&Vec<(u64, u64)>>,
    ) -> (r: TxUpdate)
        requires
            old(self).accepts(*tx, env, ranges_view(input_sat_ranges)),
        ensures
            r.writes@ == old(self).writes(*tx, env, ranges_view(input_sat_ranges)),
            if envelope_read(input_flotsam(tx.inputs@, old(self).subsidy)) {
                reassembled(
                    r.reassembly,
                    tx.inputs@[0].previous_output.txid,
                    tx.txid,
                    env.pending,
                    env.parsed,
                )
            } else {
                r.reassembly == Reassembly::Unchanged
            },
            final(self).next_number == old(self).next_number + new_count(old(self).placed(*tx, env)),
            is_coinbase(*tx) ==> {
                &&& final(self).flotsam@.len() == 0
                &&& final(self).reward == old(self).reward
                &&& r.residual == old(self).reward - total(tx.outputs@)
            },
            !is_coinbase(*tx) ==> {
                &&& final(self).flotsam@ == old(self).flotsam@ + carried(
                    *tx,
                    old(self).lost_sats,
                    old(self).reward,
                    old(self).settled(*tx, env),
                )
                &&& final(self).reward == old(self).reward + input_total(
                    tx.inputs@,
                    old(self).subsidy,
                ) - total(tx.outputs@)
                &&& r.residual == 0
            },
            final(self).height == old(self).height,
            final(self).lost_sats == old(self).lost_sats,
            final(self).subsidy == old(self).subsidy,
            final(self).timestamp == old(self).timestamp,
            final(self).wf(),
    {
        let ghost u0 = *self;
        let ghost ins = tx.inputs@;
        let ghost rv = ranges_view(input_sat_ranges);
        let (mut flot, input_value) = collect_input_flotsam(tx, self.subsidy);
        let output_value = output_total(&tx.outputs);
        let is_coinbase = tx.inputs[0].previous_output.is_null();
        let ghost base = flot@;
        let read = no_offset_zero(&flot);
        let Envelope { pending, parsed } = env;
        let mut reassembly = Reassembly::Unchanged;
        if read {
            reassembly = reassemble(tx.inputs[0].previous_output.txid, tx.txid, pending, parsed);
            if let Reassembly::Completed { inscription_id, .. } = &reassembly {
                flot.push(
                    Flotsam {
                        inscription_id: *inscription_id,
                        offset: 0,
                        origin: Origin::New(input_value - output_value),
                    },
                );
            }
        }
        let ghost bound: nat = if is_coinbase && u0.reward > input_value {
            u0.reward as nat
        } else {
            input_value as nat
        };
        if is_coinbase {
            let ghost before = flot@;
            let mut j: usize = 0;
            while j < self.flotsam.len()
                invariant
                    j <= self.flotsam@.len(),
                    self.flotsam == u0.flotsam,
                    flot@ == before + u0.flotsam@.take(j as int),
                decreases self.flotsam@.len() - j,
            {
                flot.push(self.flotsam[j]);
                j = j + 1;
                assert(flot@ =~= before + u0.flotsam@.take(j as int));
            }
            assert(u0.flotsam@.take(j as int) =~= u0.flotsam@);
            self.flotsam = Vec::new();
        }
        let ghost all = all_flotsam(u0, *tx, env);
        assert(flot@ =~= all);
        assert forall|j: int| 0 <= j < all.len() implies all[j].offset <= bound by {
            if j >= base.len() {
                if is_coinbase && j >= all.len() - u0.flotsam@.len() {
                    assert(all[j] == u0.flotsam@[j - (all.len() - u0.flotsam@.len())]);
                }
            }
        }
        proof {
            lemma_sorted_bound(all, bound);
        }
        let s = sort_by_offset(flot);
        let ghost carry0 = self.flotsam@;
        assert(u0.next_number + s@.len() <= u64::MAX);
        let mut writes: Vec<TableWrite> = Vec::new();
        let mut i: usize = 0;
        while i < s.len()
            invariant
                i <= s@.len(),
                s@ == u0.settled(*tx, env),
                s@.len() == all.len(),
                u0.next_number + s@.len() <= u64::MAX,
                forall|j: int| 0 <= j < s@.len() ==> s@[j].offset <= bound,
                u0.accepts(*tx, env, rv),
                rv == ranges_view(input_sat_ranges),
                input_value == input_total(ins, u0.subsidy),
                output_value == total(tx.outputs@),
                is_coinbase == crate::updater::is_coinbase(*tx),
                ins == tx.inputs@,
                bound == (if is_coinbase && u0.reward > input_value {
                    u0.reward as nat
                } else {
                    input_value as nat
                }),
                carry0 == (if is_coinbase {
                    Seq::<Flotsam>::empty()
                } else {
                    u0.flotsam@
                }),
                writes@ == writes_of(
                    u0.height,
                    u0.timestamp,
                    rv,
                    u0.next_number as nat,
                    placements(*tx, u0.lost_sats, s@.take(i as int)),
                ),
                new_count(placements(*tx, u0.lost_sats, s@.take(i as int))) <= i,
                self.next_number == u0.next_number + new_count(
                    placements(*tx, u0.lost_sats, s@.take(i as int)),
                ),
                self.flotsam@ == carry0 + carried(
                    *tx,
                    u0.lost_sats,
                    u0.reward,
                    s@.take(i as int),
                ),
                !is_coinbase ==> forall|j: int|
                    0 <= j < self.flotsam@.len() ==> self.flotsam@[j].offset <= u0.reward + (
                    input_value - output_value),
                self.height == u0.height,
                self.lost_sats == u0.lost_sats,
                self.reward == u0.reward,
                self.subsidy == u0.subsidy,
                self.timestamp == u0.timestamp,
            decreases s@.len() - i,
        {
            let f = s[i];
            let ghost prefix = s@.take(i as int);
            let ghost pl = placements(*tx, u0.lost_sats, prefix);
            proof {
                assert(s@.take(i + 1).drop_last() =~= prefix);
                assert(s@.take(i + 1).last() == f);
            }
            match find_output(&tx.outputs, f.offset) {
                Some((k, o)) => {
                    let sp = SatPoint {
                        outpoint: OutPoint { txid: tx.txid, vout: k as u32 },
                        offset: o,
                    };
                    assert(destination(*tx, u0.lost_sats, f) == Some(sp));
                    self.update_inscription_location(input_sat_ranges, f, sp, &mut writes);
                    proof {
                        let pl2 = placements(*tx, u0.lost_sats, s@.take(i + 1));
                        assert(pl2 =~= pl.push((f, sp)));
                        assert(pl2.drop_last() =~= pl);
                        assert(carried(*tx, u0.lost_sats, u0.reward, s@.take(i + 1)) =~= carried(
                            *tx,
                            u0.lost_sats,
                            u0.reward,
                            prefix,
                        ));
                    }
                },
                None => {
                    if is_coinbase {
                        let sp = SatPoint {
                            outpoint: OutPoint::null(),
                            offset: self.lost_sats + (f.offset - output_value),
                        };
                        assert(destination(*tx, u0.lost_sats, f) == Some(sp));
                        self.update_inscription_location(input_sat_ranges, f, sp, &mut writes);
                        proof {
                            let pl2 = placements(*tx, u0.lost_sats, s@.take(i + 1));
                            assert(pl2 =~= pl.push((f, sp)));
                            assert(pl2.drop_last() =~= pl);
                            assert(carried(*tx, u0.lost_sats, u0.reward, s@.take(i + 1)) =~= carried(
                                *tx,
                                u0.lost_sats,
                                u0.reward,
                                prefix,
                            ));
                        }
                    } else {
                        let moved = Flotsam {
                            inscription_id: f.inscription_id,
                            offset: self.reward + (f.offset - output_value),
                            origin: f.origin,
                        };
                        self.flotsam.push(moved);
                        proof {
                            let pl2 = placements(*tx, u0.lost_sats, s@.take(i + 1));
                            assert(pl2 =~= pl);
                            assert(carried(*tx, u0.lost_sats, u0.reward, s@.take(i + 1)) =~= carried(
                                *tx,
                                u0.lost_sats,
                                u0.reward,
                                prefix,
                            ).push(moved));
                        }
                    }
                },
            }
            i = i + 1;
        }
        assert(s@.take(s@.len() as int) =~= s@);
        proof {
            if is_coinbase {
                lemma_coinbase_carries_nothing(*tx, u0.lost_sats, u0.reward, s@);
            }
        }
        let residual: u64;
        if is_coinbase {
            residual = self.reward - output_value;
        } else {
            self.reward = self.reward + (input_value - output_value);
            residual = 0;
        }
        TxUpdate { residual, writes, reassembly }
    }
}

/// Processing a transaction is a function of the updater's state, the
/// transaction, its envelope and the satoshi ranges: running it again over an
/// unchanged transaction from the same prior state makes the same writes,
/// leaves the same flotsam and assigns the same numbers.
pub proof fn lemma_rerun_reproduces(
    a: InscriptionUpdater,
    b: InscriptionUpdater,
    tx: Transaction,
    env: Envelope,
    ranges: Option<Seq<(u64, u64)>>,
)
    requires
        a == b,
    ensures
        a.writes(tx, env, ranges) == b.writes(tx, env, ranges),
        a.placed(tx, env) == b.placed(tx, env),
        carried(tx, a.lost_sats, a.reward, a.settled(tx, env)) == carried(
            tx,
            b.lost_sats,
            b.reward,
            b.settled(tx, env),
        ),
{
}

proof fn lemma_input_flotsam_empty(ins: Seq<TxInput>, subsidy: u64)
    requires
        forall|k: int| 0 <= k < ins.len() ==> ins[k].inscriptions@.len() == 0,
    ensures
        input_flotsam(ins, subsidy).len() == 0,
    decreases ins.len(),
{
    if ins.len() > 0 {
        lemma_input_flotsam_empty(ins.drop_last(), subsidy);
        assert(ins.last().inscriptions@.len() == 0);
    }
}

/// A transaction that spends no inscribed output, creates no inscription, and
/// has no flotsam carried to it, writes nothing and assigns no number.
pub proof fn lemma_no_inscriptions_no_writes(
    u: InscriptionUpdater,
    tx: Transaction,
    env: Envelope,
    ranges: Option<Seq<(u64, u64)>>,
)
    requires
        forall|k: int| 0 <= k < tx.inputs@.len() ==> tx.inputs@[k].inscriptions@.len() == 0,
        env.parsed != ParsedInscription::Complete,
        u.flotsam@.len() == 0,
    ensures
        u.placed(tx, env).len() == 0,
        u.writes(tx, env, ranges).len() == 0,
        new_count(u.placed(tx, env)) == 0,
{
    lemma_input_flotsam_empty(tx.inputs@, u.subsidy);
    let all = all_flotsam(u, tx, env);
    assert(all.len() == 0);
    assert(sorted_by_offset(all).len() == 0);
}

/// A transaction whose first input carries a whole envelope and which spends
/// no inscribed output places exactly one new inscription, with the id of the
/// reassembly's first transaction, on the first satoshi of its first output,
/// under the next inscription number.
pub proof fn lemma_new_inscription_on_first_output(
    u: InscriptionUpdater,
    tx: Transaction,
    env: Envelope,
    ranges: Option<Seq<(u64, u64)>>,
)
    requires
        !is_coinbase(tx),
        forall|k: int| 0 <= k < tx.inputs@.len() ==> tx.inputs@[k].inscriptions@.len() == 0,
        env.parsed == ParsedInscription::Complete,
        tx.outputs@.len() > 0,
        tx.outputs@[0] > 0,
    ensures
        ({
            let id = InscriptionId { txid: pending_txids(env.pending).push(tx.txid)[0], index: 0 };
            let fee = (input_total(tx.inputs@, u.subsidy) - total(tx.outputs@)) as u64;
            let f = Flotsam { inscription_id: id, offset: 0, origin: Origin::New(fee) };
            let sp = SatPoint { outpoint: OutPoint { txid: tx.txid, vout: 0 }, offset: 0 };
            &&& u.placed(tx, env) == seq![(f, sp)]
            &&& u.writes(tx, env, ranges) == location_writes(
                u.height,
                u.timestamp,
                ranges,
                u.next_number,
                f,
                sp,
            )
            &&& new_count(u.placed(tx, env)) == 1
        }),
{
    let id = InscriptionId { txid: pending_txids(env.pending).push(tx.txid)[0], index: 0 };
    let fee = (input_total(tx.inputs@, u.subsidy) - total(tx.outputs@)) as u64;
    let f = Flotsam { inscription_id: id, offset: 0, origin: Origin::New(fee) };
    let sp = SatPoint { outpoint: OutPoint { txid: tx.txid, vout: 0 }, offset: 0 };
    lemma_input_flotsam_empty(tx.inputs@, u.subsidy);
    let base = input_flotsam(tx.inputs@, u.subsidy);
    assert(base.push(f) =~= seq![f]);
    let all = all_flotsam(u, tx, env);
    assert(all == seq![f]);
    assert(seq![f].drop_last() =~= Seq::<Flotsam>::empty());
    assert(sorted_by_offset(Seq::<Flotsam>::empty()) =~= Seq::<Flotsam>::empty());
    assert(sorted_by_offset(all) == seq![f]);
    let values = tx.outputs@;
    assert(values.take(0) =~= Seq::<u64>::empty());
    assert(values.take(1).drop_last() =~= values.take(0));
    assert(total(values.take(1)) == values[0] as nat);
    assert(locate(values, 0) == Some((0nat, 0nat)));
    assert(destination(tx, u.lost_sats, f) == Some(sp));
    let ps = placements(tx, u.lost_sats, seq![f]);
    assert(seq![f].last() == f);
    assert(placements(tx, u.lost_sats, Seq::<Flotsam>::empty()) =~= Seq::<(Flotsam, SatPoint)>::empty());
    assert(ps =~= seq![(f, sp)]);
    let empty = Seq::<(Flotsam, SatPoint)>::empty();
    assert(seq![(f, sp)].drop_last() =~= empty);
    assert(seq![(f, sp)].last() == (f, sp));
    assert(new_count(empty) == 0);
    assert(writes_of(u.height, u.timestamp, ranges, u.next_number as nat, empty) =~= Seq::<TableWrite>::empty());
    assert(writes_of(u.height, u.timestamp, ranges, u.next_number as nat, seq![(f, sp)])
        =~= location_writes(u.height, u.timestamp, ranges, u.next_number, f, sp));
}

/// An envelope spread over two transactions: the first, parsed as partial,
/// records its own id; the second, continuing it and parsed as whole, records
/// both ids and creates one inscription whose id is the first transaction's.
pub proof fn lemma_two_transaction_envelope(
    first: Reassembly,
    previous: Txid,
    t1: Txid,
    second: Reassembly,
    u: InscriptionUpdater,
    tx: Transaction,
    env: Envelope,
    ranges: Option<Seq<(u64, u64)>>,
)
    requires
        reassembled(first, previous, t1, None, ParsedInscription::Partial),
        match first {
            Reassembly::Pending { txids, .. } => env.pending == Some(txids),
            _ => false,
        },
        env.parsed == ParsedInscription::Complete,
        reassembled(second, t1, tx.txid, env.pending, env.parsed),
        !is_coinbase(tx),
        forall|k: int| 0 <= k < tx.inputs@.len() ==> tx.inputs@[k].inscriptions@.len() == 0,
        tx.outputs@.len() > 0,
        tx.outputs@[0] > 0,
    ensures
        match second {
            Reassembly::Completed { txids, inscription_id, .. } => txids@ == seq![t1, tx.txid]
                && inscription_id == (InscriptionId { txid: t1, index: 0 }),
            _ => false,
        },
        u.placed(tx, env).len() == 1,
        u.placed(tx, env)[0].0.inscription_id == (InscriptionId { txid: t1, index: 0 }),
{
    lemma_new_inscription_on_first_output(u, tx, env, ranges);
    assert(pending_txids(None).push(t1) =~= seq![t1]);
    assert(pending_txids(env.pending) == seq![t1]);
    assert(pending_txids(env.pending).push(tx.txid) =~= seq![t1, tx.txid]);
}

proof fn lemma_locate_past_end(values: Seq<u64>, k: nat, offset: nat)
    requires
        offset >= total(values),
    ensures
        locate_from(values, k, offset) is None,
    decreases values.len() - k,
{
    if k < values.len() {
        lemma_total_prefix(values, (k + 1) as int);
        lemma_locate_past_end(values, k + 1, offset);
    }
}

proof fn lemma_coinbase_places_all(tx: Transaction, lost_sats: u64, fs: Seq<Flotsam>)
    requires
        is_coinbase(tx),
    ensures
        placements(tx, lost_sats, fs).len() == fs.len(),
        forall|j: int|
            0 <= j < fs.len() ==> placements(tx, lost_sats, fs)[j] == (
            fs[j],
            destination(tx, lost_sats, fs[j])->0,
            ),
    decreases fs.len(),
{
    if fs.len() > 0 {
        lemma_coinbase_places_all(tx, lost_sats, fs.drop_last());
    }
}

/// In a coinbase, every flotsam past the total of the outputs is placed at
/// the null output, at the lost satoshis counted so far plus its distance
/// past the outputs.
pub proof fn lemma_coinbase_loses_unplaced(u: InscriptionUpdater, tx: Transaction, env: Envelope, j: int)
    requires
        is_coinbase(tx),
        0 <= j < u.settled(tx, env).len(),
        u.settled(tx, env)[j].offset >= total(tx.outputs@),
    ensures
        u.placed(tx, env)[j] == (
            u.settled(tx, env)[j],
            SatPoint {
                outpoint: OutPoint::spec_null(),
                offset: (u.lost_sats + u.settled(tx, env)[j].offset - total(tx.outputs@)) as u64,
            },
        ),
{
    let f = u.settled(tx, env)[j];
    lemma_coinbase_places_all(tx, u.lost_sats, u.settled(tx, env));
    lemma_locate_past_end(tx.outputs@, 0, f.offset as nat);
}

proof fn lemma_coinbase_carries_nothing(tx: Transaction, lost_sats: u64, reward: u64, fs: Seq<Flotsam>)
    requires
        is_coinbase(tx),
    ensures
        carried(tx, lost_sats, reward, fs).len() == 0,
    decreases fs.len(),
{
    if fs.len() > 0 {
        lemma_coinbase_carries_nothing(tx, lost_sats, reward, fs.drop_last());
    }
}

/// The total of the output values.
fn output_total(values: &Vec<u64>) -> (r: u64)
    requires
        total(values@) <= u64::MAX,
    ensures
        r == total(values@),
{
    let mut acc: u64 = 0;
    let mut k: usize = 0;
    while k < values.len()
        invariant
            k <= values.len(),
            total(values@) <= u64::MAX,
            acc as nat == total(values@.take(k as int)),
        decreases values.len() - k,
    {
        proof {
            assert(values@.take(k + 1).drop_last() =~= values@.take(k as int));
            lemma_total_prefix(values@, k + 1);
        }
        acc = acc + values[k];
        k = k + 1;
    }
    assert(values@.take(k as int) =~= values@);
    acc
}

/// Whether every flotsam lies past the first satoshi.
fn no_offset_zero(fs: &Vec<Flotsam>) -> (r: bool)
    ensures
        r == envelope_read(fs@),
{
    let mut j: usize = 0;
    while j < fs.len()
        invariant
            j <= fs@.len(),
            forall|k: int| 0 <= k < j ==> fs@[k].offset != 0,
        decreases fs@.len() - j,
    {
        if fs[j].offset == 0 {
            return false;
        }
        j = j + 1;
    }
    true
}

proof fn lemma_input_total_prefix(ins: Seq<TxInput>, subsidy: u64, k: int)
    requires
        0 <= k <= ins.len(),
    ensures
        input_total(ins.take(k), subsidy) <= input_total(ins, subsidy),
    decreases ins.len() - k,
{
    if k < ins.len() {
        lemma_input_total_prefix(ins, subsidy, k + 1);
        assert(ins.take(k + 1).drop_last() =~= ins.take(k));
    } else {
        assert(ins.take(k) =~= ins);
    }
}

/// The flotsam of the inscriptions on the spent outputs, and the input total.
fn collect_input_flotsam(tx: &Transaction, subsidy: u64) -> (r: (Vec<Flotsam>, u64))
    requires
        input_total(tx.inputs@, subsidy) <= u64::MAX,
        forall|k: int, j: int|
            0 <= k < tx.inputs@.len() && !is_null_input(tx.inputs@[k]) && 0 <= j
                < tx.inputs@[k].inscriptions@.len() ==> tx.inputs@[k].inscriptions@[j].0.offset
                < tx.inputs@[k].value,
    ensures
        r.0@ == input_flotsam(tx.inputs@, subsidy),
        r.1 == input_total(tx.inputs@, subsidy),
        forall|j: int| 0 <= j < r.0@.len() ==> r.0@[j].offset <= r.1,
{
    let ghost ins = tx.inputs@;
    let mut flot: Vec<Flotsam> = Vec::new();
    let mut acc: u64 = 0;
    let mut i: usize = 0;
    while i < tx.inputs.len()
        invariant
            i <= ins.len(),
            ins == tx.inputs@,
            input_total(ins, subsidy) <= u64::MAX,
            forall|k: int, j: int|
                0 <= k < ins.len() && !is_null_input(ins[k]) && 0 <= j < ins[k].inscriptions@.len()
                    ==> ins[k].inscriptions@[j].0.offset < ins[k].value,
            flot@ == input_flotsam(ins.take(i as int), subsidy),
            acc == input_total(ins.take(i as int), subsidy),
            forall|j: int| 0 <= j < flot@.len() ==> flot@[j].offset <= acc,
        decreases ins.len() - i,
    {
        let input = &tx.inputs[i];
        proof {
            assert(ins.take(i + 1).drop_last() =~= ins.take(i as int));
            assert(ins.take(i + 1).last() == ins[i as int]);
            lemma_input_total_prefix(ins, subsidy, i + 1);
        }
        if input.previous_output.is_null() {
            acc = acc + subsidy;
            assert(flot@ =~= input_flotsam(ins.take(i + 1), subsidy));
        } else {
            let ghost start = flot@;
            let mut j: usize = 0;
            while j < input.inscriptions.len()
                invariant
                    j <= input.inscriptions@.len(),
                    *input == ins[i as int],
                    !is_null_input(*input),
                    acc as nat + input.value <= u64::MAX,
                    forall|m: int|
                        0 <= m < input.inscriptions@.len() ==> input.inscriptions@[m].0.offset
                            < input.value,
                    flot@ == start + old_flotsam(input.inscriptions@.take(j as int), acc as nat),
                    forall|m: int| 0 <= m < flot@.len() ==> flot@[m].offset <= acc + input.value,
                    forall|m: int| 0 <= m < start.len() ==> start[m].offset <= acc,
                decreases input.inscriptions@.len() - j,
            {
                let (satpoint, inscription_id) = input.inscriptions[j];
                flot.push(
                    Flotsam {
                        inscription_id,
                        offset: acc + satpoint.offset,
                        origin: Origin::Old(satpoint),
                    },
                );
                j = j + 1;
                assert(flot@ =~= start + old_flotsam(input.inscriptions@.take(j as int), acc as nat));
            }
            assert(input.inscriptions@.take(j as int) =~= input.inscriptions@);
            acc = acc + input.value;
        }
        i = i + 1;
    }
    assert(ins.take(i as int) =~= ins);
    (flot, acc)
}

} // verus!
