use spendlog::calendar::{date_to_days, Date};
use spendlog::errors::WalletError;
use spendlog::text::{parse_amount, parse_cap, scan_money};
use spendlog::period::resolve_calendar_args;
use spendlog::wallet::Wallet;

#[test]
fn amounts_parse_as_cents() {
    assert_eq!(parse_amount("12.34").unwrap(), 1234);
    assert_eq!(parse_amount("100").unwrap(), 10000);
    assert_eq!(parse_amount("0.01").unwrap(), 1);
    assert_eq!(parse_amount("7.5").unwrap(), 750);
    assert_eq!(parse_amount("999999999999999.99").unwrap(), 99_999_999_999_999_999);
}

#[test]
fn non_positive_or_malformed_amounts_are_invalid() {
    for bad in ["0", "0.0", "0.00", "-3", "abc", "1.234", "", ".5", "5.", "1e3",
        "1000000000000000"] {
        match parse_amount(bad) {
            Err(WalletError::InvalidAmount(_)) => {},
            other => panic!("expected InvalidAmount for {:?}, got {:?}", bad, other.is_ok()),
        }
    }
}

#[test]
fn caps_parse_like_amounts_with_their_own_error() {
    assert_eq!(parse_cap("500").unwrap(), 50000);
    assert!(matches!(parse_cap("0"), Err(WalletError::InvalidCap(_))));
    assert!(matches!(parse_cap("x"), Err(WalletError::InvalidCap(_))));
}

#[test]
fn scan_money_recognises_the_grammar() {
    assert_eq!(scan_money("0"), Some(0));
    assert_eq!(scan_money("1.20"), Some(120));
    assert_eq!(scan_money("one"), None);
}

#[test]
fn calendar_args_sort_month_from_cap() {
    match resolve_calendar_args(Some(String::from("april")), None) {
        Ok((Some(m), None)) => assert_eq!(m, "april"),
        _ => panic!("expected a month name"),
    }
    match resolve_calendar_args(Some(String::from("500")), None) {
        Ok((None, Some(c))) => assert_eq!(c, 50000),
        _ => panic!("expected a lone cap"),
    }
    match resolve_calendar_args(Some(String::from("april")), Some(String::from("500"))) {
        Ok((Some(m), Some(c))) => {
            assert_eq!(m, "april");
            assert_eq!(c, 50000);
        },
        _ => panic!("expected both"),
    }
    assert!(matches!(
        resolve_calendar_args(Some(String::from("0")), None),
        Err(WalletError::InvalidCap(_))
    ));
    assert!(matches!(
        resolve_calendar_args(None, Some(String::from("nope"))),
        Err(WalletError::InvalidCap(_))
    ));
    assert!(matches!(resolve_calendar_args(None, None), Ok((None, None))));
}

#[test]
fn created_ledgers_resolve_to_their_id() {
    let mut w = Wallet::new();
    let id = w.add_ledger("CASH", "Cash", "", "A", "ASSET").unwrap();
    assert_eq!(w.retrieve_ledger_id("CASH").unwrap(), id);
    let id2 = w.add_ledger("BANK", "Bank", "", "A", "ASSET").unwrap();
    assert_ne!(id, id2);
    // still resolvable after later activity
    w.proceed_spend("CASH", "BANK", 100, "move", None, 1000).unwrap();
    assert_eq!(w.retrieve_ledger_id("CASH").unwrap(), id);
    assert_eq!(w.retrieve_ledger_id("BANK").unwrap(), id2);
}

#[test]
fn unknown_codes_are_not_found() {
    let w = Wallet::new();
    assert!(matches!(
        w.retrieve_ledger_id("CASH"),
        Err(WalletError::LedgerNotFound(_))
    ));
}

#[test]
fn duplicate_codes_are_a_store_error() {
    let mut w = Wallet::new();
    w.add_ledger("CASH", "Cash", "", "A", "ASSET").unwrap();
    assert!(matches!(
        w.add_ledger("CASH", "Cash again", "", "A", "ASSET"),
        Err(WalletError::Store(_))
    ));
    assert_eq!(w.ledgers.len(), 1);
}

#[test]
fn zero_amount_fails_and_writes_nothing() {
    let mut w = Wallet::new();
    w.add_ledger("A", "A", "", "", "ASSET").unwrap();
    w.add_ledger("B", "B", "", "", "EXPENSE").unwrap();
    match w.proceed_spend("A", "B", 0, "nothing", None, 1000) {
        Err(WalletError::InvalidAmount(_)) => {},
        _ => panic!("expected InvalidAmount"),
    }
    assert_eq!(w.postings.len(), 0);
}

#[test]
fn unknown_ledger_fails_and_writes_nothing() {
    let mut w = Wallet::new();
    w.add_ledger("A", "A", "", "", "ASSET").unwrap();
    match w.proceed_spend("A", "MISSING", 100, "x", None, 1000) {
        Err(WalletError::LedgerNotFound(_)) => {},
        _ => panic!("expected LedgerNotFound"),
    }
    match w.proceed_spend("MISSING", "A", 100, "x", None, 1000) {
        Err(WalletError::LedgerNotFound(_)) => {},
        _ => panic!("expected LedgerNotFound"),
    }
    assert_eq!(w.postings.len(), 0);
}

#[test]
fn a_spend_appends_exactly_one_posting() {
    let mut w = Wallet::new();
    let a = w.add_ledger("A", "A", "", "", "ASSET").unwrap();
    let b = w.add_ledger("B", "B", "", "", "EXPENSE").unwrap();
    w.proceed_spend("A", "B", 1234, "lunch", None, 5000).unwrap();
    assert_eq!(w.postings.len(), 1);
    let p = &w.postings[0];
    assert_eq!(p.cr_from, a);
    assert_eq!(p.db_to, b);
    assert_eq!(p.amount, 1234);
    assert_eq!(p.narration, "lunch");
    assert_eq!(p.created_at, 5000);
}

#[test]
fn a_backdated_spend_uses_the_given_midnight() {
    let mut w = Wallet::new();
    w.add_ledger("A", "A", "", "", "ASSET").unwrap();
    w.add_ledger("B", "B", "", "", "EXPENSE").unwrap();
    w.proceed_spend("A", "B", 100, "old", Some(20058 * 86400), 1_744_806_896).unwrap();
    assert_eq!(w.postings[0].created_at, 20058 * 86400);
}

#[test]
fn clear_tables_empties_both_relations() {
    let mut w = Wallet::new();
    w.add_ledger("A", "A", "", "", "ASSET").unwrap();
    w.add_ledger("B", "B", "", "", "EXPENSE").unwrap();
    w.proceed_spend("A", "B", 100, "x", None, 1000).unwrap();
    w.clear_tables();
    assert_eq!(w.ledgers.len(), 0);
    assert_eq!(w.postings.len(), 0);
}

#[test]
fn the_pinned_clock_reads_a_modern_instant() {
    let t = spendlog::clock::pinned_now().unwrap();
    // after 2020-01-01, and thus well inside the representable range
    assert!(t > date_to_days(Date { year: 2020, month: 1, day: 1 }) * 86400);
    assert!(t < date_to_days(Date { year: 9999, month: 12, day: 31 }) * 86400);
}

#[test]
fn error_descriptions_carry_their_kind() {
    let e = WalletError::InvalidAmount(String::from("Amount must be positive"));
    assert_eq!(e.describe(), "Invalid amount: Amount must be positive");
    let e = WalletError::LedgerNotFound(String::from("CASH"));
    assert_eq!(e.describe(), "Ledger not found: CASH");
    let e = WalletError::Store(String::from("boom"));
    assert_eq!(e.describe(), "Database error: boom");
}
