use spendlog::errors::WalletError;
use spendlog::period::ReportPeriod;
use spendlog::wallet::Wallet;

// 2025-04-16 12:34:56 UTC; 2025-04-16 is day 20194.
const NOW: i64 = 1_744_806_896;

fn ts(day: i64, sec: i64) -> i64 {
    day * 86400 + sec
}

#[test]
fn liability_nets_debits_minus_credits() {
    let mut w = Wallet::new();
    w.add_ledger("LOAN", "Loan", "", "", "LIABILITY").unwrap();
    w.add_ledger("X", "X", "", "", "ASSET").unwrap();
    w.add_ledger("Y", "Y", "", "", "ASSET").unwrap();
    // one posting credits the liability by 30, one debits it by 50
    w.proceed_spend("LOAN", "X", 3000, "credit it", None, NOW).unwrap();
    w.proceed_spend("Y", "LOAN", 5000, "debit it", None, NOW).unwrap();
    let rep = w.generate_spending_report(&ReportPeriod::All, NOW).unwrap();
    let loan = rep.rows.iter().find(|r| r.code == "LOAN").unwrap();
    assert_eq!(loan.net, 2000);
}

#[test]
fn other_kinds_net_debits_alone() {
    let mut w = Wallet::new();
    w.add_ledger("N", "Normal", "", "", "ASSET").unwrap();
    w.add_ledger("Z", "Z", "", "", "ASSET").unwrap();
    w.proceed_spend("Z", "N", 5000, "debit", None, NOW).unwrap();
    w.proceed_spend("N", "Z", 3000, "credit ignored", None, NOW).unwrap();
    let rep = w.generate_spending_report(&ReportPeriod::All, NOW).unwrap();
    let n = rep.rows.iter().find(|r| r.code == "N").unwrap();
    assert_eq!(n.net, 5000);
}

#[test]
fn spending_rows_come_net_descending_with_grand_total() {
    let mut w = Wallet::new();
    w.add_ledger("A", "A", "", "", "ASSET").unwrap();
    w.add_ledger("B", "B", "", "", "EXPENSE").unwrap();
    w.add_ledger("C", "C", "", "", "EXPENSE").unwrap();
    w.proceed_spend("A", "B", 1000, "b", None, NOW).unwrap();
    w.proceed_spend("A", "C", 2500, "c", None, NOW).unwrap();
    let rep = w.generate_spending_report(&ReportPeriod::All, NOW).unwrap();
    assert_eq!(rep.rows.len(), 3);
    assert_eq!(rep.rows[0].code, "C");
    assert_eq!(rep.rows[0].net, 2500);
    assert_eq!(rep.rows[1].code, "B");
    assert_eq!(rep.rows[1].net, 1000);
    assert_eq!(rep.rows[2].code, "A");
    assert_eq!(rep.rows[2].net, 0);
    assert_eq!(rep.grand_total, 3500);
}

#[test]
fn spending_report_propagates_period_errors() {
    let w = Wallet::new();
    let bad = ReportPeriod::FromTo {
        from: String::from("2024-12-31"),
        to: String::from("2024-12-01"),
    };
    assert!(matches!(
        w.generate_spending_report(&bad, NOW),
        Err(WalletError::DateRangeError(_))
    ));
}

#[test]
fn statement_totals_satisfy_net_balance() {
    let mut w = Wallet::new();
    w.add_ledger("CASH", "Cash", "", "", "ASSET").unwrap();
    w.add_ledger("FOOD", "Food", "", "", "EXPENSE").unwrap();
    w.add_ledger("JOB", "Job", "", "", "INCOME").unwrap();
    w.proceed_spend("CASH", "FOOD", 1250, "lunch", Some(ts(20190, 0)), NOW).unwrap();
    w.proceed_spend("JOB", "CASH", 100000, "salary", Some(ts(20191, 0)), NOW).unwrap();
    w.proceed_spend("CASH", "FOOD", 800, "coffee", Some(ts(20192, 0)), NOW).unwrap();
    let rep = w.generate_ledger_report("CASH", &ReportPeriod::All, NOW).unwrap();
    assert_eq!(rep.rows.len(), 3);
    assert_eq!(rep.total_credits, 1250 + 800);
    assert_eq!(rep.total_debits, 100000);
    assert_eq!(rep.net_balance, 100000 - 2050);
    // newest first, with the counterparty on each row
    assert_eq!(rep.rows[0].counterparty, "FOOD");
    assert_eq!(rep.rows[0].credit, 800);
    assert_eq!(rep.rows[0].debit, 0);
    assert_eq!(rep.rows[1].counterparty, "JOB");
    assert_eq!(rep.rows[1].credit, 0);
    assert_eq!(rep.rows[1].debit, 100000);
    assert_eq!(rep.rows[2].counterparty, "FOOD");
    assert!(rep.rows[0].created_at >= rep.rows[1].created_at);
    assert!(rep.rows[1].created_at >= rep.rows[2].created_at);
}

#[test]
fn statement_respects_the_window() {
    let mut w = Wallet::new();
    w.add_ledger("CASH", "Cash", "", "", "ASSET").unwrap();
    w.add_ledger("FOOD", "Food", "", "", "EXPENSE").unwrap();
    w.proceed_spend("CASH", "FOOD", 1000, "in", Some(ts(20058, 0)), NOW).unwrap();
    w.proceed_spend("CASH", "FOOD", 2000, "out", Some(ts(20100, 0)), NOW).unwrap();
    let period = ReportPeriod::Date(String::from("2024-12-01"));
    let rep = w.generate_ledger_report("CASH", &period, NOW).unwrap();
    assert_eq!(rep.rows.len(), 1);
    assert_eq!(rep.total_credits, 1000);
    assert_eq!(rep.net_balance, -1000);
}

#[test]
fn statement_for_unknown_ledger_fails_first() {
    let w = Wallet::new();
    let bad = ReportPeriod::Date(String::from("nope"));
    assert!(matches!(
        w.generate_ledger_report("MISSING", &bad, NOW),
        Err(WalletError::LedgerNotFound(_))
    ));
}

#[test]
fn calendar_excludes_zero_days_and_accumulates_skimp() {
    let mut w = Wallet::new();
    w.add_ledger("CASH", "Cash", "", "", "ASSET").unwrap();
    w.add_ledger("FOOD", "Food", "", "", "EXPENSE").unwrap();
    w.add_ledger("LOAN", "Loan", "", "", "LIABILITY").unwrap();
    // day 20180 (2025-04-02): net 100.00
    w.proceed_spend("CASH", "FOOD", 10000, "groceries", Some(ts(20180, 600)), NOW).unwrap();
    // day 20181: net 600.00
    w.proceed_spend("CASH", "FOOD", 60000, "gear", Some(ts(20181, 600)), NOW).unwrap();
    // day 20182: credited from a liability: nets to zero, excluded
    w.proceed_spend("LOAN", "FOOD", 7000, "financed", Some(ts(20182, 600)), NOW).unwrap();
    let rep = w.generate_calendar_report(None, Some(50000), NOW).unwrap();
    assert_eq!(rep.year, 2025);
    assert_eq!(rep.month, 4);
    assert_eq!(rep.start_day, 20179);
    assert_eq!(rep.end_day, 20194);
    assert_eq!(rep.rows.len(), 2);
    assert_eq!(rep.rows[0].day, 20180);
    assert_eq!(rep.rows[0].net, 10000);
    assert_eq!(rep.rows[1].day, 20181);
    assert_eq!(rep.rows[1].net, 60000);
    assert_eq!(rep.grand_total, 70000);
    // only the under-cap day counts toward skimp: 500.00 - 100.00
    assert_eq!(rep.skimp, 40000);
}

#[test]
fn calendar_without_cap_reports_no_skimp() {
    let mut w = Wallet::new();
    w.add_ledger("CASH", "Cash", "", "", "ASSET").unwrap();
    w.add_ledger("FOOD", "Food", "", "", "EXPENSE").unwrap();
    w.proceed_spend("CASH", "FOOD", 10000, "x", Some(ts(20180, 0)), NOW).unwrap();
    let rep = w.generate_calendar_report(None, None, NOW).unwrap();
    assert_eq!(rep.skimp, 0);
    assert_eq!(rep.grand_total, 10000);
}

#[test]
fn named_month_after_now_falls_back_a_year() {
    let w = Wallet::new();
    let dec = String::from("december");
    let rep = w.generate_calendar_report(Some(&dec), None, NOW).unwrap();
    assert_eq!(rep.year, 2024);
    assert_eq!(rep.month, 12);
    assert_eq!(rep.start_day, 20058);
    assert_eq!(rep.end_day, 20088);
    let mar = String::from("March");
    let rep = w.generate_calendar_report(Some(&mar), None, NOW).unwrap();
    assert_eq!(rep.year, 2025);
    assert_eq!(rep.month, 3);
}

#[test]
fn unknown_month_names_are_invalid() {
    let w = Wallet::new();
    let bad = String::from("brumaire");
    assert!(matches!(
        w.generate_calendar_report(Some(&bad), None, NOW),
        Err(WalletError::InvalidMonth(_))
    ));
}

#[test]
fn recent_report_keeps_the_ten_newest() {
    let mut w = Wallet::new();
    w.add_ledger("A", "A", "", "", "ASSET").unwrap();
    w.add_ledger("B", "B", "", "", "EXPENSE").unwrap();
    for k in 0..12i64 {
        w.proceed_spend("A", "B", 100 + k as u64, "spend", Some(ts(20100 + k, 0)), NOW)
            .unwrap();
    }
    let rows = w.generate_recent_transactions_report();
    assert_eq!(rows.len(), 10);
    assert_eq!(rows[0].created_at, ts(20111, 0));
    assert_eq!(rows[0].amount, 111);
    assert_eq!(rows[9].created_at, ts(20102, 0));
    assert_eq!(rows[0].from_code, "A");
    assert_eq!(rows[0].to_code, "B");
    for k in 0..9 {
        assert!(rows[k].created_at >= rows[k + 1].created_at);
    }
}

#[test]
fn listing_orders_ledgers_by_code() {
    let mut w = Wallet::new();
    w.add_ledger("FOOD", "Food", "", "S2", "EXPENSE").unwrap();
    w.add_ledger("BANK", "Bank", "", "S1", "ASSET").unwrap();
    w.add_ledger("CASH", "Cash", "", "S1", "ASSET").unwrap();
    let rows = w.list_ledgers();
    assert_eq!(rows.len(), 3);
    assert_eq!(rows[0].code, "BANK");
    assert_eq!(rows[1].code, "CASH");
    assert_eq!(rows[2].code, "FOOD");
    assert_eq!(rows[2].kind, "EXPENSE");
}

#[test]
fn the_all_window_floors_at_the_epoch() {
    let mut w = Wallet::new();
    w.add_ledger("CASH", "Cash", "", "", "ASSET").unwrap();
    w.add_ledger("FOOD", "Food", "", "", "EXPENSE").unwrap();
    // backdated to 1969-12-31: before the All window's epoch floor
    w.proceed_spend("CASH", "FOOD", 700, "antique", Some(-86400), NOW).unwrap();
    let all = w.generate_spending_report(&ReportPeriod::All, NOW).unwrap();
    let food = all.rows.iter().find(|r| r.code == "FOOD").unwrap();
    assert_eq!(food.net, 0);
    // an explicit range reaching back does see it
    let period = ReportPeriod::FromTo {
        from: String::from("1969-12-31"),
        to: String::from("1970-01-01"),
    };
    let ranged = w.generate_spending_report(&period, NOW).unwrap();
    let food = ranged.rows.iter().find(|r| r.code == "FOOD").unwrap();
    assert_eq!(food.net, 700);
}

#[test]
fn empty_wallet_reports_cleanly() {
    let w = Wallet::new();
    let rep = w.generate_spending_report(&ReportPeriod::All, NOW).unwrap();
    assert!(rep.rows.is_empty());
    assert_eq!(rep.grand_total, 0);
    let rows = w.generate_recent_transactions_report();
    assert!(rows.is_empty());
    let cal = w.generate_calendar_report(None, None, NOW).unwrap();
    assert!(cal.rows.is_empty());
    assert_eq!(cal.grand_total, 0);
    assert_eq!(cal.skimp, 0);
}

#[test]
fn a_self_transfer_lands_in_both_columns() {
    let mut w = Wallet::new();
    w.add_ledger("CASH", "Cash", "", "", "ASSET").unwrap();
    w.proceed_spend("CASH", "CASH", 500, "loop", Some(ts(20180, 0)), NOW).unwrap();
    let rep = w.generate_ledger_report("CASH", &ReportPeriod::All, NOW).unwrap();
    assert_eq!(rep.rows.len(), 1);
    assert_eq!(rep.rows[0].counterparty, "CASH");
    assert_eq!(rep.rows[0].credit, 500);
    assert_eq!(rep.rows[0].debit, 500);
    assert_eq!(rep.net_balance, 0);
    let cal = w.generate_calendar_report(None, None, NOW).unwrap();
    assert_eq!(cal.rows.len(), 1);
    assert_eq!(cal.rows[0].net, 500);
}

#[test]
fn spend_shows_up_today_but_not_tomorrow() {
    let mut w = Wallet::new();
    w.add_ledger("PATRON", "Patron", "", "", "ASSET").unwrap();
    w.add_ledger("OUTLAY", "Outlay", "", "", "EXPENSE").unwrap();
    w.proceed_spend("PATRON", "OUTLAY", 10000, "lunch", None, NOW).unwrap();
    let all = w.generate_spending_report(&ReportPeriod::All, NOW).unwrap();
    let outlay = all.rows.iter().find(|r| r.code == "OUTLAY").unwrap();
    assert_eq!(outlay.net, 10000);
    let today = w.generate_spending_report(&ReportPeriod::Today, NOW).unwrap();
    let outlay = today.rows.iter().find(|r| r.code == "OUTLAY").unwrap();
    assert_eq!(outlay.net, 10000);
    let tomorrow = w
        .generate_spending_report(&ReportPeriod::Today, NOW + 86400)
        .unwrap();
    let outlay = tomorrow.rows.iter().find(|r| r.code == "OUTLAY").unwrap();
    assert_eq!(outlay.net, 0);
}
