//! The report formatter: fixed-width columnar text for each report, one
//! string per output line, with two-decimal amounts.

use vstd::prelude::*;

verus! {

use vstd::string::StringExecFns;
use crate::calendar::datetime_text;
use crate::calendar::date_text;
use crate::calendar::day_date;
use crate::calendar::fmt_date;
use crate::calendar::fmt_datetime;
use crate::calendar::max_day;
use crate::calendar::max_ts;
use crate::calendar::min_day;
use crate::calendar::min_ts;
use crate::calendar::month_label;
use crate::calendar::month_label_string;
use crate::reports::CalendarReport;
use crate::reports::LedgerRow;
use crate::reports::LedgerStatement;
use crate::reports::RecentRow;
use crate::reports::SpendingReport;
use crate::text::cents_text;
use crate::text::cents_text_nn;
use crate::text::dashes;
use crate::text::dash_line;
use crate::text::dec_digits;
use crate::text::fmt_cents_i128;
use crate::text::fmt_cents_u128;
use crate::text::fmt_u128;
use crate::text::pad_right;
use crate::text::pad_right_text;

/// Appends one column: the text padded to `w`, and a separating space.
fn push_col(out: &mut String, text: String, w: usize)
    ensures
        final(out)@ == old(out)@ + pad_right_text(text@, w as int) + seq![' '],
{
    let padded = pad_right(text, w);
    out.append(padded.as_str());
    proof { reveal_strlit(" "); }
    assert(" "@ =~= seq![' ']);
    out.append(" ");
}

/// Appends the last column: the text padded to `w`, no trailing space.
fn push_last_col(out: &mut String, text: String, w: usize)
    ensures
        final(out)@ == old(out)@ + pad_right_text(text@, w as int),
{
    let padded = pad_right(text, w);
    out.append(padded.as_str());
}

/// The column headers of the all-ledgers report.
pub open spec fn spending_header() -> Seq<char> {
    pad_right_text("Code"@, 10) + seq![' '] + pad_right_text("Name"@, 30) + seq![' ']
        + pad_right_text("Net Amount"@, 15)
}

/// One row of the all-ledgers report as text.
pub open spec fn spending_row_line(code: Seq<char>, name: Seq<char>, net: int) -> Seq<char> {
    pad_right_text(code, 10) + seq![' '] + pad_right_text(name, 30) + seq![' ']
        + pad_right_text(cents_text(net), 15)
}

/// The grand-total row of the all-ledgers report as text.
pub open spec fn spending_total_line(grand: int) -> Seq<char> {
    pad_right_text("Grand Total"@, 40) + seq![' '] + pad_right_text(cents_text(grand), 15)
}

/// Renders the all-ledgers report: a blank lead line, a title, column
/// headers, a rule, one line per row, a rule, and the grand total.
pub fn render_spending_report(rep: &SpendingReport) -> (lines: Vec<String>)
    ensures
        lines@.len() == rep.rows@.len() + 6,
        lines@[0]@ == Seq::<char>::empty(),
        lines@[1]@ == "Spending Report ("@ + rep.label@ + "):"@,
        lines@[2]@ == spending_header(),
        lines@[3]@ == dashes(55),
        forall|i: int|
            0 <= i < rep.rows@.len()
                ==> (#[trigger] lines@[4 + i])@ == spending_row_line(
                    rep.rows@[i].code@, rep.rows@[i].name@, rep.rows@[i].net as int),
        lines@[4 + rep.rows@.len() as int]@ == dashes(55),
        lines@[5 + rep.rows@.len() as int]@ == spending_total_line(rep.grand_total as int),
{
    let mut lines: Vec<String> = Vec::new();
    lines.push(String::new());
    let mut title = String::from_str("Spending Report (");
    title.append(rep.label.as_str());
    title.append("):");
    lines.push(title);
    let mut header = String::new();
    push_col(&mut header, String::from_str("Code"), 10);
    push_col(&mut header, String::from_str("Name"), 30);
    push_last_col(&mut header, String::from_str("Net Amount"), 15);
    assert(header@ =~= spending_header());
    lines.push(header);
    lines.push(dash_line(55));
    let n = rep.rows.len();
    let mut i: usize = 0;
    while i < n
        invariant
            i <= n,
            n == rep.rows@.len(),
            lines@.len() == 4 + i as int,
            lines@[0]@ == Seq::<char>::empty(),
            lines@[1]@ == "Spending Report ("@ + rep.label@ + "):"@,
            lines@[2]@ == spending_header(),
            lines@[3]@ == dashes(55),
            forall|t: int|
                0 <= t < i as int
                    ==> (#[trigger] lines@[4 + t])@ == spending_row_line(
                        rep.rows@[t].code@, rep.rows@[t].name@, rep.rows@[t].net as int),
        decreases n - i,
    {
        let r = &rep.rows[i];
        let mut line = String::new();
        push_col(&mut line, r.code.clone(), 10);
        push_col(&mut line, r.name.clone(), 30);
        push_last_col(&mut line, fmt_cents_i128(r.net), 15);
        assert(line@ =~= spending_row_line(
            rep.rows@[i as int].code@, rep.rows@[i as int].name@, rep.rows@[i as int].net as int));
        lines.push(line);
        i = i + 1;
    }
    lines.push(dash_line(55));
    let mut total = String::new();
    push_col(&mut total, String::from_str("Grand Total"), 40);
    push_last_col(&mut total, fmt_cents_i128(rep.grand_total), 15);
    assert(total@ =~= spending_total_line(rep.grand_total as int));
    lines.push(total);
    lines
}

/// The column headers of a ledger statement.
pub open spec fn statement_header() -> Seq<char> {
    pad_right_text("Date"@, 20) + seq![' '] + pad_right_text("Counterparty"@, 10) + seq![' ']
        + pad_right_text("Narration"@, 30) + seq![' '] + pad_right_text("Credit"@, 15)
        + seq![' '] + pad_right_text("Debit"@, 15)
}

/// One statement row as text.
pub open spec fn statement_row_line(
    ts: int,
    counterparty: Seq<char>,
    narration: Seq<char>,
    credit: int,
    debit: int,
) -> Seq<char> {
    pad_right_text(datetime_text(ts), 20) + seq![' '] + pad_right_text(counterparty, 10)
        + seq![' '] + pad_right_text(narration, 30) + seq![' ']
        + pad_right_text(cents_text_nn(credit), 15) + seq![' ']
        + pad_right_text(cents_text_nn(debit), 15)
}

/// The totals row of a ledger statement as text.
pub open spec fn statement_totals_line(credits: int, debits: int) -> Seq<char> {
    pad_right_text("Totals"@, 60) + seq![' '] + pad_right_text(cents_text(credits), 15)
        + seq![' '] + pad_right_text(cents_text(debits), 15)
}

/// The net-balance row of a ledger statement as text.
pub open spec fn statement_net_line(net: int) -> Seq<char> {
    pad_right_text("Net Balance (Debits - Credits)"@, 60) + seq![' ']
        + pad_right_text(cents_text(net), 15)
}

/// Renders a ledger statement: title, column headers, a rule, one line per
/// row, a rule, the column totals and the net balance.
pub fn render_ledger_report(rep: &LedgerStatement) -> (lines: Vec<String>)
    requires
        forall|i: int|
            0 <= i < rep.rows@.len()
                ==> min_ts() <= (#[trigger] rep.rows@[i]).created_at <= max_ts(),
    ensures
        lines@.len() == rep.rows@.len() + 7,
        lines@[0]@ == Seq::<char>::empty(),
        lines@[1]@ == "Ledger Report for "@ + rep.code@ + " - "@ + rep.name@ + " ("@
            + rep.label@ + "):"@,
        lines@[2]@ == statement_header(),
        lines@[3]@ == dashes(90),
        forall|i: int|
            0 <= i < rep.rows@.len()
                ==> (#[trigger] lines@[4 + i])@ == statement_row_line(
                    rep.rows@[i].created_at as int,
                    rep.rows@[i].counterparty@,
                    rep.rows@[i].narration@,
                    rep.rows@[i].credit as int,
                    rep.rows@[i].debit as int,
                ),
        lines@[4 + rep.rows@.len() as int]@ == dashes(90),
        lines@[5 + rep.rows@.len() as int]@ == statement_totals_line(
            rep.total_credits as int, rep.total_debits as int),
        lines@[6 + rep.rows@.len() as int]@ == statement_net_line(rep.net_balance as int),
{
    let mut lines: Vec<String> = Vec::new();
    lines.push(String::new());
    let mut title = String::from_str("Ledger Report for ");
    title.append(rep.code.as_str());
    title.append(" - ");
    title.append(rep.name.as_str());
    title.append(" (");
    title.append(rep.label.as_str());
    title.append("):");
    lines.push(title);
    let mut header = String::new();
    push_col(&mut header, String::from_str("Date"), 20);
    push_col(&mut header, String::from_str("Counterparty"), 10);
    push_col(&mut header, String::from_str("Narration"), 30);
    push_col(&mut header, String::from_str("Credit"), 15);
    push_last_col(&mut header, String::from_str("Debit"), 15);
    assert(header@ =~= statement_header());
    lines.push(header);
    lines.push(dash_line(90));
    let n = rep.rows.len();
    let mut i: usize = 0;
    while i < n
        invariant
            i <= n,
            n == rep.rows@.len(),
            forall|t: int|
                0 <= t < rep.rows@.len()
                    ==> min_ts() <= (#[trigger] rep.rows@[t]).created_at <= max_ts(),
            lines@.len() == 4 + i as int,
            lines@[0]@ == Seq::<char>::empty(),
            lines@[1]@ == "Ledger Report for "@ + rep.code@ + " - "@ + rep.name@ + " ("@
                + rep.label@ + "):"@,
            lines@[2]@ == statement_header(),
            lines@[3]@ == dashes(90),
            forall|t: int|
                0 <= t < i as int
                    ==> (#[trigger] lines@[4 + t])@ == statement_row_line(
                        rep.rows@[t].created_at as int,
                        rep.rows@[t].counterparty@,
                        rep.rows@[t].narration@,
                        rep.rows@[t].credit as int,
                        rep.rows@[t].debit as int,
                    ),
        decreases n - i,
    {
        let r = &rep.rows[i];
        let mut line = String::new();
        push_col(&mut line, fmt_datetime(r.created_at), 20);
        push_col(&mut line, r.counterparty.clone(), 10);
        push_col(&mut line, r.narration.clone(), 30);
        push_col(&mut line, fmt_cents_u128(r.credit as u128), 15);
        push_last_col(&mut line, fmt_cents_u128(r.debit as u128), 15);
        assert(line@ =~= statement_row_line(
            rep.rows@[i as int].created_at as int,
            rep.rows@[i as int].counterparty@,
            rep.rows@[i as int].narration@,
            rep.rows@[i as int].credit as int,
            rep.rows@[i as int].debit as int,
        ));
        lines.push(line);
        i = i + 1;
    }
    lines.push(dash_line(90));
    let mut totals = String::new();
    push_col(&mut totals, String::from_str("Totals"), 60);
    push_col(&mut totals, fmt_cents_i128(rep.total_credits), 15);
    push_last_col(&mut totals, fmt_cents_i128(rep.total_debits), 15);
    assert(totals@ =~= statement_totals_line(rep.total_credits as int, rep.total_debits as int));
    lines.push(totals);
    let mut netline = String::new();
    push_col(&mut netline, String::from_str("Net Balance (Debits - Credits)"), 60);
    push_last_col(&mut netline, fmt_cents_i128(rep.net_balance), 15);
    assert(netline@ =~= statement_net_line(rep.net_balance as int));
    lines.push(netline);
    lines
}

/// The column headers of the recent-transactions report.
pub open spec fn recent_header() -> Seq<char> {
    pad_right_text("Date"@, 20) + seq![' '] + pad_right_text("From"@, 10) + seq![' ']
        + pad_right_text("To"@, 10) + seq![' '] + pad_right_text("Amount"@, 15) + seq![' ']
        + pad_right_text("Narration"@, 30)
}

/// One recent-transactions row as text.
pub open spec fn recent_row_line(
    ts: int,
    from_code: Seq<char>,
    to_code: Seq<char>,
    amount: int,
    narration: Seq<char>,
) -> Seq<char> {
    pad_right_text(datetime_text(ts), 20) + seq![' '] + pad_right_text(from_code, 10)
        + seq![' '] + pad_right_text(to_code, 10) + seq![' ']
        + pad_right_text(cents_text_nn(amount), 15) + seq![' '] + pad_right_text(narration, 30)
}

/// Renders the recent-transactions report.
pub fn render_recent_report(rows: &Vec<RecentRow>) -> (lines: Vec<String>)
    requires
        forall|i: int|
            0 <= i < rows@.len() ==> min_ts() <= (#[trigger] rows@[i]).created_at <= max_ts(),
    ensures
        lines@.len() == rows@.len() + 5,
        lines@[0]@ == Seq::<char>::empty(),
        lines@[1]@ == "Recent Transactions Report (Last 10):"@,
        lines@[2]@ == recent_header(),
        lines@[3]@ == dashes(85),
        forall|i: int|
            0 <= i < rows@.len()
                ==> (#[trigger] lines@[4 + i])@ == recent_row_line(
                    rows@[i].created_at as int,
                    rows@[i].from_code@,
                    rows@[i].to_code@,
                    rows@[i].amount as int,
                    rows@[i].narration@,
                ),
        lines@[4 + rows@.len() as int]@ == dashes(85),
{
    let mut lines: Vec<String> = Vec::new();
    lines.push(String::new());
    lines.push(String::from_str("Recent Transactions Report (Last 10):"));
    let mut header = String::new();
    push_col(&mut header, String::from_str("Date"), 20);
    push_col(&mut header, String::from_str("From"), 10);
    push_col(&mut header, String::from_str("To"), 10);
    push_col(&mut header, String::from_str("Amount"), 15);
    push_last_col(&mut header, String::from_str("Narration"), 30);
    assert(header@ =~= recent_header());
    lines.push(header);
    lines.push(dash_line(85));
    let n = rows.len();
    let mut i: usize = 0;
    while i < n
        invariant
            i <= n,
            n == rows@.len(),
            forall|t: int|
                0 <= t < rows@.len()
                    ==> min_ts() <= (#[trigger] rows@[t]).created_at <= max_ts(),
            lines@.len() == 4 + i as int,
            lines@[0]@ == Seq::<char>::empty(),
            lines@[1]@ == "Recent Transactions Report (Last 10):"@,
            lines@[2]@ == recent_header(),
            lines@[3]@ == dashes(85),
            forall|t: int|
                0 <= t < i as int
                    ==> (#[trigger] lines@[4 + t])@ == recent_row_line(
                        rows@[t].created_at as int,
                        rows@[t].from_code@,
                        rows@[t].to_code@,
                        rows@[t].amount as int,
                        rows@[t].narration@,
                    ),
        decreases n - i,
    {
        let r = &rows[i];
        let mut line = String::new();
        push_col(&mut line, fmt_datetime(r.created_at), 20);
        push_col(&mut line, r.from_code.clone(), 10);
        push_col(&mut line, r.to_code.clone(), 10);
        push_col(&mut line, fmt_cents_u128(r.amount as u128), 15);
        push_last_col(&mut line, r.narration.clone(), 30);
        assert(line@ =~= recent_row_line(
            rows@[i as int].created_at as int,
            rows@[i as int].from_code@,
            rows@[i as int].to_code@,
            rows@[i as int].amount as int,
            rows@[i as int].narration@,
        ));
        lines.push(line);
        i = i + 1;
    }
    lines.push(dash_line(85));
    lines
}

/// The title of a calendar report, with the optional cap.
pub open spec fn calendar_title(month: int, year: int, cap: Option<u64>) -> Seq<char> {
    "Daily Spending Report for "@ + month_label(month) + seq![' ']
        + dec_digits(year as nat) + (match cap {
        Some(c) => " (Daily Cap: "@ + cents_text_nn(c as int) + ")"@,
        None => Seq::<char>::empty(),
    }) + ":"@
}

/// One calendar row as text, with the skimp column under a cap.
pub open spec fn calendar_row_line(day: int, net: int, cap: Option<u64>) -> Seq<char> {
    pad_right_text(date_text(day_date(day).0, day_date(day).1, day_date(day).2), 15)
        + seq![' '] + (match cap {
        Some(c) => pad_right_text(cents_text(net), 15) + seq![' ']
            + pad_right_text(cents_text(c - net), 15),
        None => pad_right_text(cents_text(net), 15),
    })
}

/// The grand-total row of a calendar report as text.
pub open spec fn calendar_total_line(grand: int, skimp: int, cap: Option<u64>) -> Seq<char> {
    pad_right_text("Grand Total"@, 15) + seq![' '] + (match cap {
        Some(_) => pad_right_text(cents_text(grand), 15) + seq![' ']
            + pad_right_text(cents_text(skimp), 15),
        None => pad_right_text(cents_text(grand), 15),
    })
}

/// Renders the daily calendar report; under a cap, each day and the footer
/// carry the skimp column.
pub fn render_calendar_report(rep: &CalendarReport) -> (lines: Vec<String>)
    requires
        1 <= rep.month <= 12,
        0 <= rep.year <= 9999,
        forall|i: int|
            0 <= i < rep.rows@.len()
                ==> min_day() <= (#[trigger] rep.rows@[i]).day <= max_day(),
        forall|i: int|
            0 <= i < rep.rows@.len()
                ==> -0x4000_0000_0000_0000_0000_0000_0000_0000
                    <= (#[trigger] rep.rows@[i]).net
                    <= 0x4000_0000_0000_0000_0000_0000_0000_0000,
    ensures
        lines@.len() == rep.rows@.len() + 5,
        lines@[0]@ == Seq::<char>::empty(),
        lines@[1]@ == calendar_title(rep.month as int, rep.year as int, rep.cap),
        lines@[2]@ == (if rep.cap is Some {
            pad_right_text("Date"@, 15) + seq![' '] + pad_right_text("Total Spent"@, 15)
                + seq![' '] + pad_right_text("Skimp"@, 15)
        } else {
            pad_right_text("Date"@, 15) + seq![' '] + pad_right_text("Total Spent"@, 15)
        }),
        lines@[3]@ == dashes(if rep.cap is Some { 45int } else { 30int }),
        forall|i: int|
            0 <= i < rep.rows@.len()
                ==> (#[trigger] lines@[4 + i])@ == calendar_row_line(
                    rep.rows@[i].day as int, rep.rows@[i].net as int, rep.cap),
        lines@[4 + rep.rows@.len() as int]@ == calendar_total_line(
            rep.grand_total as int, rep.skimp as int, rep.cap),
{
    let mut lines: Vec<String> = Vec::new();
    lines.push(String::new());
    let mut title = String::from_str("Daily Spending Report for ");
    let ml = month_label_string(rep.month);
    title.append(ml.as_str());
    proof { reveal_strlit(" "); }
    assert(" "@ =~= seq![' ']);
    title.append(" ");
    let yt = fmt_u128(rep.year as u128);
    title.append(yt.as_str());
    match rep.cap {
        Some(c) => {
            title.append(" (Daily Cap: ");
            let ct = fmt_cents_u128(c as u128);
            title.append(ct.as_str());
            title.append(")");
        },
        None => {},
    }
    title.append(":");
    assert(title@ =~= calendar_title(rep.month as int, rep.year as int, rep.cap));
    lines.push(title);
    let mut header = String::new();
    push_col(&mut header, String::from_str("Date"), 15);
    match rep.cap {
        Some(_) => {
            push_col(&mut header, String::from_str("Total Spent"), 15);
            push_last_col(&mut header, String::from_str("Skimp"), 15);
        },
        None => {
            push_last_col(&mut header, String::from_str("Total Spent"), 15);
        },
    }
    lines.push(header);
    let rule_w: usize = if rep.cap.is_some() { 45 } else { 30 };
    lines.push(dash_line(rule_w));
    let n = rep.rows.len();
    let mut i: usize = 0;
    while i < n
        invariant
            i <= n,
            n == rep.rows@.len(),
            forall|t: int|
                0 <= t < rep.rows@.len()
                    ==> min_day() <= (#[trigger] rep.rows@[t]).day <= max_day(),
            forall|t: int|
                0 <= t < rep.rows@.len()
                    ==> -0x4000_0000_0000_0000_0000_0000_0000_0000
                        <= (#[trigger] rep.rows@[t]).net
                        <= 0x4000_0000_0000_0000_0000_0000_0000_0000,
            lines@.len() == 4 + i as int,
            lines@[0]@ == Seq::<char>::empty(),
            lines@[1]@ == calendar_title(rep.month as int, rep.year as int, rep.cap),
            lines@[2]@ == (if rep.cap is Some {
                pad_right_text("Date"@, 15) + seq![' '] + pad_right_text("Total Spent"@, 15)
                    + seq![' '] + pad_right_text("Skimp"@, 15)
            } else {
                pad_right_text("Date"@, 15) + seq![' '] + pad_right_text("Total Spent"@, 15)
            }),
            lines@[3]@ == dashes(if rep.cap is Some { 45int } else { 30int }),
            forall|t: int|
                0 <= t < i as int
                    ==> (#[trigger] lines@[4 + t])@ == calendar_row_line(
                        rep.rows@[t].day as int, rep.rows@[t].net as int, rep.cap),
        decreases n - i,
    {
        let r = &rep.rows[i];
        let date = crate::calendar::days_to_date(r.day);
        proof {
            crate::calendar::lemma_day_date(r.day as int);
            let t = day_date(r.day as int);
            crate::calendar::lemma_days_of_date_injective(
                date.year as int, date.month as int, date.day as int, t.0, t.1, t.2);
        }
        let mut line = String::new();
        push_col(&mut line, fmt_date(date), 15);
        match rep.cap {
            Some(c) => {
                push_col(&mut line, fmt_cents_i128(r.net), 15);
                let diff = c as i128 - r.net;
                push_last_col(&mut line, fmt_cents_i128(diff), 15);
            },
            None => {
                push_last_col(&mut line, fmt_cents_i128(r.net), 15);
            },
        }
        assert(line@ =~= calendar_row_line(
            rep.rows@[i as int].day as int, rep.rows@[i as int].net as int, rep.cap));
        lines.push(line);
        i = i + 1;
    }
    let mut total = String::new();
    push_col(&mut total, String::from_str("Grand Total"), 15);
    match rep.cap {
        Some(_) => {
            push_col(&mut total, fmt_cents_i128(rep.grand_total), 15);
            push_last_col(&mut total, fmt_cents_i128(rep.skimp), 15);
        },
        None => {
            push_last_col(&mut total, fmt_cents_i128(rep.grand_total), 15);
        },
    }
    assert(total@ =~= calendar_total_line(rep.grand_total as int, rep.skimp as int, rep.cap));
    lines.push(total);
    lines
}

/// The column headers of the ledger listing.
pub open spec fn listing_header() -> Seq<char> {
    pad_right_text("Code"@, 10) + seq![' '] + pad_right_text("Name"@, 30) + seq![' ']
        + pad_right_text("Sort"@, 10) + seq![' '] + pad_right_text("Kind"@, 10)
}

/// One listing row as text.
pub open spec fn listing_row_line(
    code: Seq<char>,
    name: Seq<char>,
    sort: Seq<char>,
    kind: Seq<char>,
) -> Seq<char> {
    pad_right_text(code, 10) + seq![' '] + pad_right_text(name, 30) + seq![' ']
        + pad_right_text(sort, 10) + seq![' '] + pad_right_text(kind, 10)
}

/// Renders the ledger listing.
pub fn render_ledger_list(rows: &Vec<LedgerRow>) -> (lines: Vec<String>)
    ensures
        lines@.len() == rows@.len() + 4,
        lines@[0]@ == Seq::<char>::empty(),
        lines@[1]@ == "List of Ledgers:"@,
        lines@[2]@ == listing_header(),
        lines@[3]@ == dashes(60),
        forall|i: int|
            0 <= i < rows@.len()
                ==> (#[trigger] lines@[4 + i])@ == listing_row_line(
                    rows@[i].code@, rows@[i].name@, rows@[i].sort@, rows@[i].kind@),
{
    let mut lines: Vec<String> = Vec::new();
    lines.push(String::new());
    lines.push(String::from_str("List of Ledgers:"));
    let mut header = String::new();
    push_col(&mut header, String::from_str("Code"), 10);
    push_col(&mut header, String::from_str("Name"), 30);
    push_col(&mut header, String::from_str("Sort"), 10);
    push_last_col(&mut header, String::from_str("Kind"), 10);
    assert(header@ =~= listing_header());
    lines.push(header);
    lines.push(dash_line(60));
    let n = rows.len();
    let mut i: usize = 0;
    while i < n
        invariant
            i <= n,
            n == rows@.len(),
            lines@.len() == 4 + i as int,
            lines@[0]@ == Seq::<char>::empty(),
            lines@[1]@ == "List of Ledgers:"@,
            lines@[2]@ == listing_header(),
            lines@[3]@ == dashes(60),
            forall|t: int|
                0 <= t < i as int
                    ==> (#[trigger] lines@[4 + t])@ == listing_row_line(
                        rows@[t].code@, rows@[t].name@, rows@[t].sort@, rows@[t].kind@),
        decreases n - i,
    {
        let r = &rows[i];
        let mut line = String::new();
        push_col(&mut line, r.code.clone(), 10);
        push_col(&mut line, r.name.clone(), 30);
        push_col(&mut line, r.sort.clone(), 10);
        push_last_col(&mut line, r.kind.clone(), 10);
        assert(line@ =~= listing_row_line(
            rows@[i as int].code@, rows@[i as int].name@, rows@[i as int].sort@,
            rows@[i as int].kind@));
        lines.push(line);
        i = i + 1;
    }
    lines
}

} // verus!
