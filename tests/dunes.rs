use dunes_index::dunes::{dune_info, run, Etching};
use dunes_index::entry::{Dune, DuneEntry, DuneId, Txid};

#[test]
fn no_dunes_lists_nothing() {
    let output = run(&Vec::new());
    assert!(output.dunes.is_empty());
}

#[test]
fn listing_copies_entry_and_id() {
    let entry = DuneEntry {
        burned: 0,
        deadline: None,
        divisibility: 0,
        end: None,
        etching: Txid([1; 32]),
        limit: None,
        number: 0,
        dune: Dune(99),
        spacers: 0,
        supply: 1000,
        symbol: Some('¢'),
        timestamp: 2,
    };
    let id = DuneId { height: 2, index: 1 };
    let info = dune_info(id, &entry);
    assert_eq!(info.height, 2);
    assert_eq!(info.index, 1);
    assert_eq!(info.supply, 1000);
    assert_eq!(info.symbol, Some('¢'));
    let second = DuneEntry { dune: Dune(7), number: 1, ..entry };
    let output = run(&vec![(id, entry), (DuneId { height: 3, index: 0 }, second)]);
    assert_eq!(output.dunes.len(), 2);
    assert_eq!(output.dunes[&99], info);
    assert_eq!(output.dunes[&7].number, 1);
}

#[test]
fn etching_default_is_empty() {
    let e = Etching::default();
    assert_eq!(e.divisibility, 0);
    assert!(e.mint.is_none() && e.dune.is_none() && e.symbol.is_none());
}
