use pledge_ledger::aggregate::{CountryTotal, RecentEntry};
use pledge_ledger::catalog::{Catalog, Country, Origin};
use pledge_ledger::memory::MemoryStore;
use pledge_ledger::model::{LedgerError, FEED_CAPACITY, MAX_PLEDGE_UNITS, UNITS_PER_HOUR};

fn country(id: &str, name: &str) -> Country {
    Country {
        id: id.to_string(),
        name: name.to_string(),
        origin: Origin::Country,
        emissions_year: 2020,
        emissions_unit: "t".to_string(),
        emissions: 1000,
        employees_year: 2020,
        employees: 10,
        employees_unit: "people".to_string(),
    }
}

fn nordic() -> Catalog {
    Catalog::new(vec![country("Denmark", "Denmark"), country("Sweden", "Sweden")]).unwrap()
}

fn units(hours: f64) -> i64 {
    (hours * UNITS_PER_HOUR as f64).round() as i64
}

fn pledge(store: &mut MemoryStore, catalog: &Catalog, token: &str, id: &str, hours: f64) -> Result<(), LedgerError> {
    store.record_pledge(
        catalog,
        token.to_string(),
        id.to_string(),
        units(hours),
        "2024-01-01T00:00:00+00:00".to_string(),
    )
}

fn totals(v: &[CountryTotal]) -> Vec<(String, u64, u64)> {
    v.iter().map(|t| (t.country.clone(), t.hours, t.count)).collect()
}

fn entries(v: &[RecentEntry]) -> Vec<(String, u64)> {
    v.iter().map(|e| (e.country.clone(), e.hours)).collect()
}

#[test]
fn two_pledges_to_denmark() {
    let catalog = nordic();
    let mut store = MemoryStore::new();
    assert_eq!(pledge(&mut store, &catalog, "a", "Denmark", 3.5), Ok(()));
    assert_eq!(pledge(&mut store, &catalog, "b", "Denmark", 1.5), Ok(()));
    assert_eq!(totals(&store.summary(&catalog)), vec![("Denmark".to_string(), units(5.0) as u64, 2)]);
    assert_eq!(
        entries(&store.recent()),
        vec![("Denmark".to_string(), units(1.5) as u64), ("Denmark".to_string(), units(3.5) as u64)]
    );
}

#[test]
fn hours_bounds() {
    let catalog = nordic();
    let mut store = MemoryStore::new();
    assert_eq!(pledge(&mut store, &catalog, "a", "Denmark", 10.0), Ok(()));
    assert_eq!(pledge(&mut store, &catalog, "b", "Denmark", 10.0001), Err(LedgerError::OutOfRange));
    assert_eq!(pledge(&mut store, &catalog, "c", "Denmark", 0.0), Ok(()));
    assert_eq!(totals(&store.summary(&catalog)), vec![("Denmark".to_string(), MAX_PLEDGE_UNITS, 2)]);
}

#[test]
fn negative_hours_rejected_without_change() {
    let catalog = nordic();
    let mut store = MemoryStore::new();
    pledge(&mut store, &catalog, "a", "Sweden", 2.0).unwrap();
    for _ in 0..3 {
        assert_eq!(pledge(&mut store, &catalog, "x", "Sweden", -0.5), Err(LedgerError::OutOfRange));
        assert_eq!(pledge(&mut store, &catalog, "y", "Denmark", 11.0), Err(LedgerError::OutOfRange));
    }
    assert_eq!(totals(&store.summary(&catalog)), vec![("Sweden".to_string(), units(2.0) as u64, 1)]);
    assert_eq!(entries(&store.recent()), vec![("Sweden".to_string(), units(2.0) as u64)]);
}

#[test]
fn unknown_country_rejected_without_change() {
    let catalog = nordic();
    let mut store = MemoryStore::new();
    assert_eq!(pledge(&mut store, &catalog, "a", "Norway", 1.0), Err(LedgerError::InvalidCountry));
    // the country is checked before the hours
    assert_eq!(pledge(&mut store, &catalog, "a", "Norway", 50.0), Err(LedgerError::InvalidCountry));
    assert!(store.summary(&catalog).is_empty());
    assert!(store.recent().is_empty());
}

#[test]
fn feed_keeps_newest_up_to_capacity() {
    let catalog = nordic();
    let mut store = MemoryStore::new();
    for i in 0..7u32 {
        let token = format!("t{}", i);
        pledge(&mut store, &catalog, &token, "Sweden", i as f64).unwrap();
    }
    let recent = entries(&store.recent());
    assert_eq!(recent.len(), FEED_CAPACITY);
    let expected: Vec<(String, u64)> =
        (2..7u32).rev().map(|i| ("Sweden".to_string(), units(i as f64) as u64)).collect();
    assert_eq!(recent, expected);
}

#[test]
fn feed_shorter_than_capacity() {
    let catalog = nordic();
    let mut store = MemoryStore::new();
    pledge(&mut store, &catalog, "a", "Sweden", 1.0).unwrap();
    pledge(&mut store, &catalog, "b", "Denmark", 2.0).unwrap();
    assert_eq!(
        entries(&store.recent()),
        vec![("Denmark".to_string(), units(2.0) as u64), ("Sweden".to_string(), units(1.0) as u64)]
    );
}

#[test]
fn same_token_counts_twice() {
    let catalog = nordic();
    let mut store = MemoryStore::new();
    pledge(&mut store, &catalog, "a", "Denmark", 4.0).unwrap();
    pledge(&mut store, &catalog, "a", "Sweden", 1.0).unwrap();
    assert_eq!(
        totals(&store.summary(&catalog)),
        vec![("Sweden".to_string(), units(1.0) as u64, 1), ("Denmark".to_string(), units(4.0) as u64, 1)]
    );
    // both feed entries now join to the record's latest fields
    assert_eq!(
        entries(&store.recent()),
        vec![("Sweden".to_string(), units(1.0) as u64), ("Sweden".to_string(), units(1.0) as u64)]
    );
}

#[test]
fn summary_single_pledge_and_absent_country() {
    let catalog = nordic();
    let mut store = MemoryStore::new();
    pledge(&mut store, &catalog, "a", "Sweden", 7.25).unwrap();
    assert_eq!(totals(&store.summary(&catalog)), vec![("Sweden".to_string(), units(7.25) as u64, 1)]);
}

#[test]
fn summary_ascending_with_stable_ties() {
    let catalog = Catalog::new(vec![
        country("A", "Alpha"),
        country("B", "Beta"),
        country("C", "Gamma"),
        country("D", "Delta"),
    ])
    .unwrap();
    let mut store = MemoryStore::new();
    pledge(&mut store, &catalog, "1", "D", 2.0).unwrap();
    pledge(&mut store, &catalog, "2", "A", 5.0).unwrap();
    pledge(&mut store, &catalog, "3", "C", 2.0).unwrap();
    pledge(&mut store, &catalog, "4", "B", 1.0).unwrap();
    assert_eq!(
        totals(&store.summary(&catalog)),
        vec![
            ("B".to_string(), units(1.0) as u64, 1),
            ("C".to_string(), units(2.0) as u64, 1),
            ("D".to_string(), units(2.0) as u64, 1),
            ("A".to_string(), units(5.0) as u64, 1),
        ]
    );
}

#[test]
fn empty_store_reads_empty() {
    let catalog = nordic();
    let store = MemoryStore::new();
    assert!(store.summary(&catalog).is_empty());
    assert!(store.recent().is_empty());
}

#[test]
fn feed_after_capacity_pledges_on_used_store() {
    let catalog = nordic();
    let mut store = MemoryStore::new();
    pledge(&mut store, &catalog, "old1", "Denmark", 9.0).unwrap();
    pledge(&mut store, &catalog, "old2", "Denmark", 8.0).unwrap();
    for i in 0..FEED_CAPACITY {
        let token = format!("n{}", i);
        pledge(&mut store, &catalog, &token, "Sweden", (i + 1) as f64).unwrap();
    }
    let expected: Vec<(String, u64)> =
        (1..=FEED_CAPACITY).rev().map(|i| ("Sweden".to_string(), units(i as f64) as u64)).collect();
    assert_eq!(entries(&store.recent()), expected);
}
