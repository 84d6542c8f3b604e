use pledge_ledger::aggregate::{sort_totals, CountryTotal};
use pledge_ledger::api::{error_message, error_status, verification_form, verification_outcome};
use pledge_ledger::catalog::{Catalog, Country, Origin};
use pledge_ledger::config::Config;
use pledge_ledger::decimal::{format_decimal, parse_decimal};
use pledge_ledger::model::LedgerError;
use pledge_ledger::pledge::check_pledge;
use pledge_ledger::store::{
    count_key, hours_key, pledge_batch, recent_command, recent_from_replies, record_fields_command,
    record_key, summary_command, summary_from_replies,
};

fn country(id: &str) -> Country {
    Country {
        id: id.to_string(),
        name: id.to_string(),
        origin: Origin::Country,
        emissions_year: 0,
        emissions_unit: String::new(),
        emissions: 0,
        employees_year: 0,
        employees: 0,
        employees_unit: String::new(),
    }
}

fn strings(v: &[&str]) -> Vec<String> {
    v.iter().map(|s| s.to_string()).collect()
}

#[test]
fn decimal_round_trip() {
    assert_eq!(format_decimal(0), "0");
    assert_eq!(format_decimal(5000000), "5000000");
    assert_eq!(format_decimal(u64::MAX), "18446744073709551615");
    assert_eq!(parse_decimal("18446744073709551615"), Some(u64::MAX));
    assert_eq!(parse_decimal("18446744073709551616"), None);
    assert_eq!(parse_decimal("0042"), Some(42));
    assert_eq!(parse_decimal(""), None);
    assert_eq!(parse_decimal("-1"), None);
    assert_eq!(parse_decimal("3.5"), None);
}

#[test]
fn keys() {
    assert_eq!(record_key("abc"), "token:abc");
    assert_eq!(hours_key("Denmark"), "country:hours:Denmark");
    assert_eq!(count_key("Denmark"), "country:count:Denmark");
}

#[test]
fn batch_of_a_pledge() {
    let catalog = Catalog::new(vec![country("Denmark")]).unwrap();
    let p = check_pledge(&catalog, "a".to_string(), "Denmark".to_string(), 3500000, "T".to_string())
        .unwrap();
    let batch = pledge_batch(&p);
    assert_eq!(
        batch,
        vec![
            strings(&["HSET", "token:a", "country", "Denmark", "hours", "3500000", "timestamp", "T"]),
            strings(&["INCRBY", "country:hours:Denmark", "3500000"]),
            strings(&["INCR", "country:count:Denmark"]),
            strings(&["LPUSH", "recent_updates", "a"]),
            strings(&["LTRIM", "recent_updates", "0", "4"]),
        ]
    );
}

#[test]
fn check_pledge_errors() {
    let catalog = Catalog::new(vec![country("Denmark")]).unwrap();
    let bad_country = check_pledge(&catalog, "a".to_string(), "X".to_string(), 1, "T".to_string());
    assert!(matches!(bad_country, Err(LedgerError::InvalidCountry)));
    let bad_hours = check_pledge(&catalog, "a".to_string(), "Denmark".to_string(), -1, "T".to_string());
    assert!(matches!(bad_hours, Err(LedgerError::OutOfRange)));
    let too_many = check_pledge(&catalog, "a".to_string(), "Denmark".to_string(), 10000001, "T".to_string());
    assert!(matches!(too_many, Err(LedgerError::OutOfRange)));
}

#[test]
fn read_commands() {
    let catalog = Catalog::new(vec![country("A"), country("B")]).unwrap();
    assert_eq!(
        summary_command(&catalog),
        strings(&["MGET", "country:count:A", "country:count:B", "country:hours:A", "country:hours:B"])
    );
    assert_eq!(recent_command(), strings(&["LRANGE", "recent_updates", "0", "4"]));
    assert_eq!(record_fields_command("t"), strings(&["HMGET", "token:t", "country", "hours"]));
}

#[test]
fn summary_from_store_replies() {
    let catalog = Catalog::new(vec![country("A"), country("B"), country("C")]).unwrap();
    let replies = vec![
        Some("2".to_string()),
        None,
        Some("1".to_string()),
        Some("5000000".to_string()),
        None,
        Some("1500000".to_string()),
    ];
    let r = summary_from_replies(&catalog, replies).unwrap();
    let lines: Vec<(String, u64, u64)> = r.iter().map(|t| (t.country.clone(), t.hours, t.count)).collect();
    assert_eq!(lines, vec![("C".to_string(), 1500000, 1), ("A".to_string(), 5000000, 2)]);
}

#[test]
fn summary_from_malformed_replies() {
    let catalog = Catalog::new(vec![country("A")]).unwrap();
    let short = summary_from_replies(&catalog, vec![Some("1".to_string())]);
    assert!(matches!(short, Err(LedgerError::StoreUnavailable)));
    let no_count = summary_from_replies(&catalog, vec![None, Some("1".to_string())]);
    assert!(matches!(no_count, Err(LedgerError::StoreUnavailable)));
    let bad_hours = summary_from_replies(&catalog, vec![Some("1".to_string()), Some("x".to_string())]);
    assert!(matches!(bad_hours, Err(LedgerError::StoreUnavailable)));
}

#[test]
fn recent_from_store_replies() {
    let replies = vec![
        (Some("A".to_string()), Some("1500000".to_string())),
        (None, None),
        (Some("B".to_string()), Some("oops".to_string())),
        (Some("C".to_string()), None),
    ];
    let r = recent_from_replies(replies);
    let lines: Vec<(String, u64)> = r.iter().map(|e| (e.country.clone(), e.hours)).collect();
    assert_eq!(lines, vec![("A".to_string(), 1500000), ("B".to_string(), 0), ("C".to_string(), 0)]);
}

#[test]
fn sort_keeps_ties_in_order() {
    let v = vec![
        CountryTotal { country: "x".to_string(), hours: 3, count: 1 },
        CountryTotal { country: "y".to_string(), hours: 1, count: 1 },
        CountryTotal { country: "z".to_string(), hours: 3, count: 2 },
    ];
    let names: Vec<String> = sort_totals(v).iter().map(|t| t.country.clone()).collect();
    assert_eq!(names, vec!["y".to_string(), "x".to_string(), "z".to_string()]);
}

#[test]
fn bot_check_outcomes() {
    assert_eq!(verification_outcome(200, Some(true)), Ok(()));
    assert_eq!(verification_outcome(200, Some(false)), Err(LedgerError::VerificationRejected));
    assert_eq!(verification_outcome(200, None), Err(LedgerError::VerificationUnreachable));
    assert_eq!(verification_outcome(502, Some(true)), Err(LedgerError::VerificationUnreachable));
    let form = verification_form("tok", "sec");
    assert_eq!(
        form,
        vec![("response".to_string(), "tok".to_string()), ("secret".to_string(), "sec".to_string())]
    );
}

#[test]
fn error_statuses_and_messages() {
    assert_eq!(error_status(LedgerError::InvalidCountry), 422);
    assert_eq!(error_status(LedgerError::OutOfRange), 422);
    assert_eq!(error_status(LedgerError::VerificationRejected), 403);
    assert_eq!(error_status(LedgerError::VerificationUnreachable), 500);
    assert_eq!(error_status(LedgerError::StoreUnavailable), 500);
    assert_eq!(error_message(LedgerError::InvalidCountry), "country is invalid");
    assert_eq!(error_message(LedgerError::OutOfRange), "hours must be >= 0 and <= 10");
    assert_eq!(error_message(LedgerError::VerificationRejected), "captcha failed");
    assert_eq!(error_message(LedgerError::StoreUnavailable), "");
}

#[test]
fn listen_address() {
    let mut c = Config {
        host_name: "127.0.0.1".to_string(),
        redis_host_name: "localhost".to_string(),
        redis_port: 6379,
        redis_db: 0,
        http_port: 8080,
        static_path: "static".to_string(),
        hcaptcha_secret: "SECRET-REDACTED".to_string(),
    };
    assert!(c.is_local());
    assert_eq!(c.listen_ip(), [127, 0, 0, 1]);
    c.host_name = "https://example.org".to_string();
    assert!(!c.is_local());
    assert_eq!(c.listen_ip(), [0, 0, 0, 0]);
}

