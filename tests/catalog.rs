use pledge_ledger::catalog::{has_substring, Catalog, Country, Origin};

fn country(id: &str, name: &str, origin: Origin) -> Country {
    Country {
        id: id.to_string(),
        name: name.to_string(),
        origin,
        emissions_year: 2019,
        emissions_unit: "Mt".to_string(),
        emissions: -3,
        employees_year: 2019,
        employees: 5,
        employees_unit: "k".to_string(),
    }
}

fn catalog() -> Catalog {
    Catalog::new(vec![
        country("world", "World", Origin::World),
        country("dk", "Denmark", Origin::Country),
        country("se", "Sweden", Origin::Country),
    ])
    .unwrap()
}

#[test]
fn duplicate_ids_refused() {
    let c = Catalog::new(vec![
        country("dk", "Denmark", Origin::Country),
        country("dk", "Danmark", Origin::Country),
    ]);
    assert!(c.is_none());
}

#[test]
fn ids_in_order_and_validity() {
    let c = catalog();
    assert_eq!(c.ids_vec(), vec!["world".to_string(), "dk".to_string(), "se".to_string()]);
    assert!(c.is_valid(&"se".to_string()));
    assert!(!c.is_valid(&"no".to_string()));
    assert_eq!(c.index_of(&"dk".to_string()), Some(1));
    assert_eq!(c.len(), 3);
}

#[test]
fn lookup_by_id() {
    let c = catalog();
    assert_eq!(c.lookup(&"dk".to_string()).map(|x| x.name.clone()), Some("Denmark".to_string()));
    assert!(c.lookup(&"Denmark".to_string()).is_none());
}

#[test]
fn search_ignores_case() {
    let c = catalog();
    let names: Vec<String> = c.search(Some("DENM")).iter().map(|x| x.name.clone()).collect();
    assert_eq!(names, vec!["Denmark".to_string()]);
    let names: Vec<String> = c.search(Some("e")).iter().map(|x| x.name.clone()).collect();
    assert_eq!(names, vec!["Denmark".to_string(), "Sweden".to_string()]);
    assert!(c.search(Some("xyz")).is_empty());
}

#[test]
fn search_without_filter_gives_all() {
    let c = catalog();
    assert_eq!(c.search(None).len(), 3);
    assert_eq!(c.search(Some("")).len(), 3);
}

#[test]
fn search_folded_takes_query_as_given() {
    let c = catalog();
    assert!(c.search_folded("DENM").is_empty());
    assert_eq!(c.search_folded("denm").len(), 1);
}

#[test]
fn substring_cases() {
    assert!(has_substring("denmark", "mark"));
    assert!(has_substring("denmark", ""));
    assert!(has_substring("", ""));
    assert!(!has_substring("den", "denmark"));
    assert!(!has_substring("sweden", "swe den"));
}
