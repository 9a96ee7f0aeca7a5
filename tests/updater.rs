use dunes_index::entry::{InscriptionEntry, InscriptionId, OutPoint, Sat, SatPoint, Txid};
use dunes_index::updater::{
    find_sat, reassemble, sort_by_offset, Envelope, Flotsam, InscriptionUpdater, Origin,
    ParsedInscription, Reassembly, TableWrite, Transaction, TxInput,
};

fn txid(n: u8) -> Txid {
    Txid([n; 32])
}

fn spend(from: Txid, vout: u32, value: u64) -> TxInput {
    TxInput { previous_output: OutPoint { txid: from, vout }, inscriptions: Vec::new(), value }
}

fn coinbase_input() -> TxInput {
    TxInput { previous_output: OutPoint::null(), inscriptions: Vec::new(), value: 0 }
}

fn nothing() -> Envelope {
    Envelope { pending: None, parsed: ParsedInscription::NoInscription }
}

fn point(t: Txid, vout: u32, offset: u64) -> SatPoint {
    SatPoint { outpoint: OutPoint { txid: t, vout }, offset }
}

#[test]
fn block_without_inscriptions_writes_nothing() {
    let mut u = InscriptionUpdater::new(100, 5000, 0, None, 1);
    let tx = Transaction {
        txid: txid(2),
        inputs: vec![spend(txid(1), 0, 1000)],
        outputs: vec![600, 300],
    };
    let r = u.index_transaction_inscriptions(&tx, nothing(), None);
    assert!(r.writes.is_empty());
    assert_eq!(r.reassembly, Reassembly::Unchanged);
    assert_eq!(r.residual, 0);
    assert_eq!(u.reward, 5100);
    let cb = Transaction { txid: txid(3), inputs: vec![coinbase_input()], outputs: vec![5100] };
    let r = u.index_transaction_inscriptions(&cb, nothing(), None);
    assert!(r.writes.is_empty());
    assert_eq!(r.residual, 0);
    assert_eq!(u.next_number, 0);
}

#[test]
fn new_inscription_lands_on_first_satoshi_of_first_output() {
    let mut u = InscriptionUpdater::new(7, 5000, 0, None, 42);
    let tx = Transaction {
        txid: txid(2),
        inputs: vec![spend(txid(1), 0, 10_000)],
        outputs: vec![9_000],
    };
    let env = Envelope { pending: None, parsed: ParsedInscription::Complete };
    let ranges = vec![(500u64, 10_500u64)];
    let r = u.index_transaction_inscriptions(&tx, env, Some(&ranges));
    let id = InscriptionId { txid: txid(2), index: 0 };
    assert_eq!(
        r.writes,
        vec![
            TableWrite::InsertNumber(0, id),
            TableWrite::InsertSat(500, id),
            TableWrite::InsertEntry(
                id,
                InscriptionEntry {
                    fee: 1_000,
                    height: 7,
                    inscription_number: 0,
                    sat: Some(Sat(500)),
                    sequence_number: 0,
                    timestamp: 42,
                },
            ),
            TableWrite::Locate(id, point(txid(2), 0, 0)),
        ]
    );
    assert_eq!(u.next_number, 1);
    match r.reassembly {
        Reassembly::Completed { txids, inscription_id, .. } => {
            assert_eq!(txids, vec![txid(2)]);
            assert_eq!(inscription_id, id);
        }
        other => panic!("unexpected {:?}", other),
    }
}

#[test]
fn envelope_over_two_transactions_takes_the_first_id() {
    let mut u = InscriptionUpdater::new(7, 5000, 0, Some(4), 42);
    let first = Transaction {
        txid: txid(2),
        inputs: vec![spend(txid(1), 0, 10_000)],
        outputs: vec![10_000],
    };
    let r = u.index_transaction_inscriptions(
        &first,
        Envelope { pending: None, parsed: ParsedInscription::Partial },
        None,
    );
    assert!(r.writes.is_empty());
    assert_eq!(
        r.reassembly,
        Reassembly::Pending { previous: txid(1), txid: txid(2), txids: vec![txid(2)] }
    );
    let second = Transaction {
        txid: txid(3),
        inputs: vec![spend(txid(2), 0, 10_000)],
        outputs: vec![4_000, 5_000],
    };
    let r = u.index_transaction_inscriptions(
        &second,
        Envelope { pending: Some(vec![txid(2)]), parsed: ParsedInscription::Complete },
        None,
    );
    let id = InscriptionId { txid: txid(2), index: 0 };
    let entries: Vec<_> = r
        .writes
        .iter()
        .filter(|w| matches!(w, TableWrite::InsertEntry(..)))
        .collect();
    assert_eq!(entries.len(), 1);
    assert_eq!(
        r.writes,
        vec![
            TableWrite::InsertNumber(5, id),
            TableWrite::InsertEntry(
                id,
                InscriptionEntry {
                    fee: 1_000,
                    height: 7,
                    inscription_number: 5,
                    sat: None,
                    sequence_number: 0,
                    timestamp: 42,
                },
            ),
            TableWrite::Locate(id, point(txid(3), 0, 0)),
        ]
    );
}

#[test]
fn old_inscription_follows_its_satoshi() {
    let mut u = InscriptionUpdater::new(7, 5000, 0, None, 42);
    let id = InscriptionId { txid: txid(9), index: 0 };
    let old = point(txid(1), 1, 700);
    let mut input = spend(txid(1), 1, 1_000);
    input.inscriptions.push((old, id));
    let tx = Transaction {
        txid: txid(2),
        inputs: vec![spend(txid(1), 0, 500), input],
        outputs: vec![1_000, 400],
    };
    let r = u.index_transaction_inscriptions(&tx, nothing(), None);
    assert_eq!(
        r.writes,
        vec![TableWrite::RemoveSatPoint(old), TableWrite::Locate(id, point(txid(2), 1, 200))]
    );
    assert_eq!(u.reward, 5_100);
}

#[test]
fn unplaced_inscription_is_lost_in_the_coinbase() {
    let mut u = InscriptionUpdater::new(7, 5000, 5, None, 42);
    let tx = Transaction { txid: txid(2), inputs: vec![spend(txid(1), 0, 300)], outputs: vec![] };
    let env = Envelope { pending: None, parsed: ParsedInscription::Complete };
    let r = u.index_transaction_inscriptions(&tx, env, None);
    assert!(r.writes.is_empty());
    assert_eq!(u.flotsam.len(), 1);
    assert_eq!(u.flotsam[0].offset, 5000);
    assert_eq!(u.reward, 5300);
    let cb = Transaction { txid: txid(3), inputs: vec![coinbase_input()], outputs: vec![5000] };
    let r = u.index_transaction_inscriptions(&cb, nothing(), None);
    let id = InscriptionId { txid: txid(2), index: 0 };
    let lost = SatPoint { outpoint: OutPoint::null(), offset: 5 };
    assert_eq!(r.writes.last(), Some(&TableWrite::Locate(id, lost)));
    assert_eq!(r.writes[0], TableWrite::InsertNumber(0, id));
    assert_eq!(r.residual, 300);
    assert!(u.flotsam.is_empty());
}

#[test]
fn carried_inscription_lands_in_coinbase_output() {
    let mut u = InscriptionUpdater::new(7, 5000, 0, None, 42);
    let tx = Transaction { txid: txid(2), inputs: vec![spend(txid(1), 0, 300)], outputs: vec![] };
    let env = Envelope { pending: None, parsed: ParsedInscription::Complete };
    u.index_transaction_inscriptions(&tx, env, None);
    let cb = Transaction {
        txid: txid(3),
        inputs: vec![coinbase_input()],
        outputs: vec![4000, 1300],
    };
    let r = u.index_transaction_inscriptions(&cb, nothing(), None);
    let id = InscriptionId { txid: txid(2), index: 0 };
    assert_eq!(r.writes.last(), Some(&TableWrite::Locate(id, point(txid(3), 1, 1000))));
    assert_eq!(r.residual, 0);
}

#[test]
fn rerun_from_same_state_reproduces_writes() {
    let start = InscriptionUpdater::new(7, 5000, 0, Some(10), 42);
    let tx = Transaction {
        txid: txid(2),
        inputs: vec![spend(txid(1), 0, 10_000)],
        outputs: vec![9_000],
    };
    let env = Envelope { pending: None, parsed: ParsedInscription::Complete };
    let mut a = start.clone();
    let mut b = start.clone();
    let ra = a.index_transaction_inscriptions(&tx, env.clone(), None);
    let rb = b.index_transaction_inscriptions(&tx, env, None);
    assert_eq!(ra, rb);
    assert_eq!(a, b);
}

#[test]
fn sort_orders_by_offset() {
    let id = InscriptionId { txid: txid(1), index: 0 };
    let f = |offset: u64, fee: u64| Flotsam { inscription_id: id, offset, origin: Origin::New(fee) };
    let sorted = sort_by_offset(vec![f(5, 0), f(1, 1), f(5, 2), f(0, 3)]);
    assert_eq!(sorted, vec![f(0, 3), f(1, 1), f(5, 0), f(5, 2)]);
}

#[test]
fn sat_lookup_walks_ranges() {
    let ranges = vec![(10u64, 15u64), (100, 100), (200, 210)];
    assert_eq!(find_sat(&ranges, 0), Some(10));
    assert_eq!(find_sat(&ranges, 4), Some(14));
    assert_eq!(find_sat(&ranges, 5), Some(200));
    assert_eq!(find_sat(&ranges, 14), Some(209));
    assert_eq!(find_sat(&ranges, 15), None);
}

#[test]
fn reassembly_with_nothing_parsed_is_unchanged() {
    let r = reassemble(txid(1), txid(2), Some(vec![txid(1)]), ParsedInscription::NoInscription);
    assert_eq!(r, Reassembly::Unchanged);
}
