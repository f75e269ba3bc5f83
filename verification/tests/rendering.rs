use spendlog::period::ReportPeriod;
use spendlog::render::{
    render_calendar_report, render_ledger_list, render_ledger_report, render_recent_report,
    render_spending_report,
};
use spendlog::wallet::Wallet;

// 2025-04-16 12:34:56 UTC
const NOW: i64 = 1_744_806_896;

fn day_sec(day: i64, sec: i64) -> i64 {
    day * 86400 + sec
}

#[test]
fn spending_report_renders_fixed_columns() {
    let mut w = Wallet::new();
    w.add_ledger("CASH", "Cash", "", "", "ASSET").unwrap();
    w.add_ledger("FOOD", "Food", "", "", "EXPENSE").unwrap();
    w.proceed_spend("CASH", "FOOD", 1250, "lunch", None, NOW).unwrap();
    let rep = w.generate_spending_report(&ReportPeriod::All, NOW).unwrap();
    let lines = render_spending_report(&rep);
    assert_eq!(lines.len(), 2 + 6);
    assert_eq!(lines[0], "");
    assert_eq!(lines[1], "Spending Report (All Time):");
    assert_eq!(lines[2], format!("{:<10} {:<30} {:<15}", "Code", "Name", "Net Amount"));
    assert_eq!(lines[3], "-".repeat(55));
    assert_eq!(lines[4], format!("{:<10} {:<30} {:<15}", "FOOD", "Food", "12.50"));
    assert_eq!(lines[5], format!("{:<10} {:<30} {:<15}", "CASH", "Cash", "0.00"));
    assert_eq!(lines[6], "-".repeat(55));
    assert_eq!(lines[7], format!("{:<40} {:<15}", "Grand Total", "12.50"));
}

#[test]
fn ledger_report_renders_rows_and_totals() {
    let mut w = Wallet::new();
    w.add_ledger("CASH", "Cash", "", "", "ASSET").unwrap();
    w.add_ledger("FOOD", "Food", "", "", "EXPENSE").unwrap();
    w.proceed_spend("CASH", "FOOD", 1250, "lunch", Some(day_sec(20190, 3600)), NOW).unwrap();
    let rep = w.generate_ledger_report("CASH", &ReportPeriod::All, NOW).unwrap();
    let lines = render_ledger_report(&rep);
    assert_eq!(lines.len(), 1 + 7);
    assert_eq!(lines[1], "Ledger Report for CASH - Cash (All Time):");
    assert_eq!(
        lines[2],
        format!(
            "{:<20} {:<10} {:<30} {:<15} {:<15}",
            "Date", "Counterparty", "Narration", "Credit", "Debit"
        )
    );
    assert_eq!(lines[3], "-".repeat(90));
    assert_eq!(
        lines[4],
        format!(
            "{:<20} {:<10} {:<30} {:<15} {:<15}",
            "2025-04-12 01:00:00", "FOOD", "lunch", "12.50", "0.00"
        )
    );
    assert_eq!(lines[5], "-".repeat(90));
    assert_eq!(lines[6], format!("{:<60} {:<15} {:<15}", "Totals", "12.50", "0.00"));
    assert_eq!(
        lines[7],
        format!("{:<60} {:<15}", "Net Balance (Debits - Credits)", "-12.50")
    );
}

#[test]
fn recent_report_renders_both_codes() {
    let mut w = Wallet::new();
    w.add_ledger("CASH", "Cash", "", "", "ASSET").unwrap();
    w.add_ledger("FOOD", "Food", "", "", "EXPENSE").unwrap();
    w.proceed_spend("CASH", "FOOD", 100, "snack", Some(day_sec(20190, 0)), NOW).unwrap();
    let rows = w.generate_recent_transactions_report();
    let lines = render_recent_report(&rows);
    assert_eq!(lines.len(), 1 + 5);
    assert_eq!(lines[1], "Recent Transactions Report (Last 10):");
    assert_eq!(
        lines[4],
        format!(
            "{:<20} {:<10} {:<10} {:<15} {:<30}",
            "2025-04-12 00:00:00", "CASH", "FOOD", "1.00", "snack"
        )
    );
    assert_eq!(lines[5], "-".repeat(85));
}

#[test]
fn calendar_report_renders_cap_and_skimp() {
    let mut w = Wallet::new();
    w.add_ledger("CASH", "Cash", "", "", "ASSET").unwrap();
    w.add_ledger("FOOD", "Food", "", "", "EXPENSE").unwrap();
    w.proceed_spend("CASH", "FOOD", 10000, "groceries", Some(day_sec(20180, 60)), NOW).unwrap();
    let rep = w.generate_calendar_report(None, Some(50000), NOW).unwrap();
    let lines = render_calendar_report(&rep);
    assert_eq!(lines.len(), 1 + 5);
    assert_eq!(lines[1], "Daily Spending Report for April 2025 (Daily Cap: 500.00):");
    assert_eq!(lines[2], format!("{:<15} {:<15} {:<15}", "Date", "Total Spent", "Skimp"));
    assert_eq!(lines[3], "-".repeat(45));
    assert_eq!(
        lines[4],
        format!("{:<15} {:<15} {:<15}", "2025-04-02", "100.00", "400.00")
    );
    assert_eq!(
        lines[5],
        format!("{:<15} {:<15} {:<15}", "Grand Total", "100.00", "400.00")
    );
}

#[test]
fn calendar_report_without_cap_has_two_columns() {
    let mut w = Wallet::new();
    w.add_ledger("CASH", "Cash", "", "", "ASSET").unwrap();
    w.add_ledger("FOOD", "Food", "", "", "EXPENSE").unwrap();
    w.proceed_spend("CASH", "FOOD", 10000, "groceries", Some(day_sec(20180, 60)), NOW).unwrap();
    let rep = w.generate_calendar_report(None, None, NOW).unwrap();
    let lines = render_calendar_report(&rep);
    assert_eq!(lines[1], "Daily Spending Report for April 2025:");
    assert_eq!(lines[2], format!("{:<15} {:<15}", "Date", "Total Spent"));
    assert_eq!(lines[3], "-".repeat(30));
    assert_eq!(lines[4], format!("{:<15} {:<15}", "2025-04-02", "100.00"));
}

#[test]
fn ledger_list_renders_in_code_order() {
    let mut w = Wallet::new();
    w.add_ledger("FOOD", "Food", "", "S2", "EXPENSE").unwrap();
    w.add_ledger("BANK", "Bank", "", "S1", "ASSET").unwrap();
    let rows = w.list_ledgers();
    let lines = render_ledger_list(&rows);
    assert_eq!(lines.len(), 2 + 4);
    assert_eq!(lines[1], "List of Ledgers:");
    assert_eq!(lines[2], format!("{:<10} {:<30} {:<10} {:<10}", "Code", "Name", "Sort", "Kind"));
    assert_eq!(lines[3], "-".repeat(60));
    assert_eq!(lines[4], format!("{:<10} {:<30} {:<10} {:<10}", "BANK", "Bank", "S1", "ASSET"));
    assert_eq!(lines[5], format!("{:<10} {:<30} {:<10} {:<10}", "FOOD", "Food", "S2", "EXPENSE"));
}
