//! The aggregation engine: net balances per ledger, per-ledger statements,
//! recent transactions and daily totals, all scoped to a resolved window and
//! sharing one kind-aware sign policy.

use vstd::prelude::*;

verus! {

use vstd::seq_lib::group_to_multiset_ensures;
use crate::calendar::max_ts;
use crate::calendar::day_date;
use crate::calendar::day_of_ts;
use crate::calendar::days_of_date;
use crate::errors::WalletError;
use crate::period::period_err_matches;
use crate::period::period_label;
use crate::period::period_ok;
use crate::period::spec_end;
use crate::period::spec_start;
use crate::period::ReportPeriod;
use crate::period::Window;
use crate::period::resolve_period;
use crate::sort::sort_rows;
use crate::sort::SortOrd;
use crate::sums::fn_plus;
use crate::sums::lemma_filter_take_step;
use crate::sums::lemma_map_values_compose;
use crate::sums::lemma_map_values_multiset;
use crate::sums::lemma_seq_sum_abs_bound;
use crate::sums::lemma_seq_sum_filter;
use crate::sums::lemma_seq_sum_parallel;
use crate::sums::lemma_seq_sum_multiset;
use crate::sums::lemma_seq_sum_plus;
use crate::sums::lemma_seq_sum_pointwise;
use crate::sums::lemma_seq_sum_take_all;
use crate::sums::lemma_seq_sum_take_step;
use crate::sums::seq_sum;
use crate::text::str_eq;
use crate::text::MAX_AMOUNT_CENTS;
use crate::wallet::has_ledger_id;
use crate::wallet::lemma_resolve_id_exists;
use crate::wallet::posting_ok;
use crate::wallet::spec_ledger_by_id;
use crate::wallet::spec_resolve;
use crate::wallet::Ledger;
use crate::wallet::Posting;
use crate::wallet::Wallet;

/// The sign policy switch: the one distinguished ledger kind.
pub open spec fn is_liability(kind: Seq<char>) -> bool {
    kind == "LIABILITY"@
}

/// The amount a posting debits to ledger `lid` inside window `w`, else zero.
pub open spec fn debit_amt(p: Posting, lid: int, w: Window) -> int {
    if w.admits(p.created_at as int) && p.db_to == lid {
        p.amount as int
    } else {
        0
    }
}

/// The amount a posting credits from ledger `lid` inside window `w`.
pub open spec fn credit_amt(p: Posting, lid: int, w: Window) -> int {
    if w.admits(p.created_at as int) && p.cr_from == lid {
        p.amount as int
    } else {
        0
    }
}

pub open spec fn debit_fn(lid: int, w: Window) -> spec_fn(Posting) -> int {
    |p: Posting| debit_amt(p, lid, w)
}

pub open spec fn credit_fn(lid: int, w: Window) -> spec_fn(Posting) -> int {
    |p: Posting| credit_amt(p, lid, w)
}

/// The net of one ledger over a window: a liability nets debits minus
/// credits; any other kind counts debits alone.
pub open spec fn net_of_ledger(l: Ledger, ps: Seq<Posting>, w: Window) -> int {
    if is_liability(l.kind@) {
        seq_sum(ps, debit_fn(l.id as int, w)) - seq_sum(ps, credit_fn(l.id as int, w))
    } else {
        seq_sum(ps, debit_fn(l.id as int, w))
    }
}

pub open spec fn net_fn(ps: Seq<Posting>, w: Window) -> spec_fn(Ledger) -> int {
    |l: Ledger| net_of_ledger(l, ps, w)
}

/// One posting's share of one ledger's net.
pub open spec fn per_amt(l: Ledger, p: Posting, w: Window) -> int {
    if is_liability(l.kind@) {
        debit_amt(p, l.id as int, w) - credit_amt(p, l.id as int, w)
    } else {
        debit_amt(p, l.id as int, w)
    }
}

pub open spec fn per_fn(p: Posting, w: Window) -> spec_fn(Ledger) -> int {
    |l: Ledger| per_amt(l, p, w)
}

/// One posting's share of the whole report: its shares over all ledgers.
pub open spec fn contrib_amt(p: Posting, ls: Seq<Ledger>, w: Window) -> int {
    seq_sum(ls, per_fn(p, w))
}

pub open spec fn contrib_fn(ls: Seq<Ledger>, w: Window) -> spec_fn(Posting) -> int {
    |p: Posting| contrib_amt(p, ls, w)
}

pub open spec fn ids_unique(ls: Seq<Ledger>) -> bool {
    forall|i: int, j: int|
        0 <= i < j < ls.len() ==> #[trigger] ls[i].id != #[trigger] ls[j].id
}

pub open spec fn contains_id(ls: Seq<Ledger>, id: int) -> bool {
    exists|i: int| 0 <= i < ls.len() && #[trigger] ls[i].id == id
}

/// Summing nets over ledgers is summing shares over postings.
proof fn lemma_net_sum_exchange(ls: Seq<Ledger>, ps: Seq<Posting>, w: Window)
    ensures
        seq_sum(ls, net_fn(ps, w)) == seq_sum(ps, contrib_fn(ls, w)),
    decreases ls.len(),
{
    if ls.len() == 0 {
        assert(forall|i: int|
            0 <= i < ps.len() ==> contrib_fn(ls, w)(#[trigger] ps[i]) == 0);
        lemma_seq_sum_abs_bound(ps, contrib_fn(ls, w), 0);
    } else {
        let dl = ls.drop_last();
        let last = ls.last();
        lemma_net_sum_exchange(dl, ps, w);
        // the last ledger's net is the sum of its per-posting shares
        assert(net_of_ledger(last, ps, w) == seq_sum(ps, per_last_fn(last, w))) by {
            lemma_net_is_share_sum(last, ps, w);
        }
        // each posting's share over `ls` peels the last ledger
        assert(forall|i: int| 0 <= i < ps.len()
            ==> contrib_fn(ls, w)(#[trigger] ps[i])
                == fn_plus(contrib_fn(dl, w), per_last_fn(last, w))(ps[i]));
        lemma_seq_sum_pointwise(
            ps, contrib_fn(ls, w), fn_plus(contrib_fn(dl, w), per_last_fn(last, w)));
        lemma_seq_sum_plus(ps, contrib_fn(dl, w), per_last_fn(last, w));
    }
}

/// A ledger's shares, as a function of the posting.
pub open spec fn per_last_fn(l: Ledger, w: Window) -> spec_fn(Posting) -> int {
    |p: Posting| per_amt(l, p, w)
}

proof fn lemma_net_is_share_sum(l: Ledger, ps: Seq<Posting>, w: Window)
    ensures
        net_of_ledger(l, ps, w) == seq_sum(ps, per_last_fn(l, w)),
    decreases ps.len(),
{
    if ps.len() > 0 {
        lemma_net_is_share_sum(l, ps.drop_last(), w);
    }
}

/// With unique ledger ids, one posting's share lies within its amount.
proof fn lemma_contrib_bound(ls: Seq<Ledger>, p: Posting, w: Window)
    requires
        ids_unique(ls),
    ensures
        contrib_amt(p, ls, w)
            <= (if contains_id(ls, p.db_to as int) { p.amount as int } else { 0 }),
        contrib_amt(p, ls, w)
            >= -(if contains_id(ls, p.cr_from as int) { p.amount as int } else { 0 }),
    decreases ls.len(),
{
    if ls.len() == 0 {
        assert(!contains_id(ls, p.db_to as int));
        assert(!contains_id(ls, p.cr_from as int));
    } else {
        let dl = ls.drop_last();
        let last = ls.last();
        assert(ids_unique(dl)) by {
            assert(forall|i: int| 0 <= i < dl.len() ==> dl[i] == ls[i]);
        }
        assert(forall|i: int| 0 <= i < dl.len() ==> #[trigger] dl[i].id != last.id) by {
            assert(forall|i: int| 0 <= i < dl.len() ==> dl[i] == ls[i]);
            assert(ls.last() == ls[ls.len() - 1]);
        }
        lemma_contrib_bound(dl, p, w);
        assert(contrib_amt(p, ls, w) == contrib_amt(p, dl, w) + per_amt(last, p, w));
        // relate membership over `ls` to membership over its prefix
        assert(contains_id(dl, p.db_to as int) ==> contains_id(ls, p.db_to as int)) by {
            if contains_id(dl, p.db_to as int) {
                let i = choose|i: int| 0 <= i < dl.len() && #[trigger] dl[i].id == p.db_to as int;
                assert(ls[i].id == p.db_to as int);
            }
        }
        assert(contains_id(dl, p.cr_from as int) ==> contains_id(ls, p.cr_from as int)) by {
            if contains_id(dl, p.cr_from as int) {
                let i = choose|i: int|
                    0 <= i < dl.len() && #[trigger] dl[i].id == p.cr_from as int;
                assert(ls[i].id == p.cr_from as int);
            }
        }
        if last.id == p.db_to {
            assert(contains_id(ls, p.db_to as int)) by {
                assert(ls[ls.len() - 1].id == p.db_to as int);
            }
            assert(!contains_id(dl, p.db_to as int));
        } else {
            assert(contains_id(ls, p.db_to as int) ==> contains_id(dl, p.db_to as int)) by {
                if contains_id(ls, p.db_to as int) {
                    let i = choose|i: int|
                        0 <= i < ls.len() && #[trigger] ls[i].id == p.db_to as int;
                    assert(i < dl.len() && dl[i].id == p.db_to as int);
                }
            }
        }
        if last.id == p.cr_from {
            assert(contains_id(ls, p.cr_from as int)) by {
                assert(ls[ls.len() - 1].id == p.cr_from as int);
            }
            assert(!contains_id(dl, p.cr_from as int));
        } else {
            assert(contains_id(ls, p.cr_from as int) ==> contains_id(dl, p.cr_from as int)) by {
                if contains_id(ls, p.cr_from as int) {
                    let i = choose|i: int|
                        0 <= i < ls.len() && #[trigger] ls[i].id == p.cr_from as int;
                    assert(i < dl.len() && dl[i].id == p.cr_from as int);
                }
            }
        }
    }
}

/// A bound on the running total of nets over a prefix of the directory.
proof fn lemma_net_prefix_bound(ls: Seq<Ledger>, ps: Seq<Posting>, w: Window, b: int)
    requires
        ids_unique(ls),
        b >= 0,
        forall|i: int| 0 <= i < ps.len() ==> (#[trigger] ps[i].amount as int) <= b,
    ensures
        -(ps.len() * b) <= seq_sum(ls, net_fn(ps, w)) <= ps.len() * b,
{
    lemma_net_sum_exchange(ls, ps, w);
    assert(forall|i: int| 0 <= i < ps.len()
        ==> -b <= contrib_fn(ls, w)(#[trigger] ps[i]) <= b) by {
        assert forall|i: int| 0 <= i < ps.len()
            implies -b <= contrib_fn(ls, w)(#[trigger] ps[i]) <= b by {
            lemma_contrib_bound(ls, ps[i], w);
        }
    }
    lemma_seq_sum_abs_bound(ps, contrib_fn(ls, w), b);
}

/// One row of the all-ledgers net report.
pub struct SpendingRow {
    pub code: String,
    pub name: String,
    pub net: i128,
}

impl SortOrd for SpendingRow {
    open spec fn before_spec(&self, other: &Self) -> bool {
        self.net >= other.net
    }

    proof fn lemma_total(a: &Self, b: &Self, c: &Self) {
    }

    fn before(&self, other: &Self) -> (r: bool) {
        self.net >= other.net
    }
}

/// The observable content of a spending row.
pub open spec fn srow_view(r: SpendingRow) -> (Seq<char>, Seq<char>, int) {
    (r.code@, r.name@, r.net as int)
}

pub open spec fn srow_view_fn() -> spec_fn(SpendingRow) -> (Seq<char>, Seq<char>, int) {
    |r: SpendingRow| srow_view(r)
}

/// The row a ledger ought to produce.
pub open spec fn spending_row_fn(ps: Seq<Posting>, w: Window)
    -> spec_fn(Ledger) -> (Seq<char>, Seq<char>, int) {
    |l: Ledger| (l.code@, l.name@, net_of_ledger(l, ps, w))
}

/// The all-ledgers net report over a window.
pub struct SpendingReport {
    pub label: String,
    pub window: Window,
    pub rows: Vec<SpendingRow>,
    pub grand_total: i128,
}

pub open spec fn srow_net_fn() -> spec_fn(SpendingRow) -> int {
    |r: SpendingRow| r.net as int
}

impl Wallet {
    /// The net of one ledger over a window, by the kind sign policy.
    fn net_for_ledger(&self, l: &Ledger, w: Window) -> (r: i128)
        requires
            self.wf(),
        ensures
            r == net_of_ledger(*l, self.postings@, w),
    {
        let ps = &self.postings;
        let n = ps.len();
        let lid = l.id;
        let mut deb: i128 = 0;
        let mut cred: i128 = 0;
        let mut j: usize = 0;
        proof {
            assert(self.postings@.take(0) =~= Seq::<Posting>::empty());
        }
        while j < n
            invariant
                j <= n,
                n == self.postings@.len(),
                self.wf(),
                lid == l.id,
                deb == seq_sum(self.postings@.take(j as int), debit_fn(lid as int, w)),
                cred == seq_sum(self.postings@.take(j as int), credit_fn(lid as int, w)),
                -(j as int) * (MAX_AMOUNT_CENTS as int) <= deb <= (j as int) * (MAX_AMOUNT_CENTS as int),
                -(j as int) * (MAX_AMOUNT_CENTS as int) <= cred <= (j as int) * (MAX_AMOUNT_CENTS as int),
            decreases n - j,
        {
            let p = &self.postings[j];
            let inside = w.start_ts <= p.created_at && match w.end_ts {
                Some(e) => p.created_at <= e,
                None => true,
            };
            proof {
                lemma_seq_sum_take_step(self.postings@, debit_fn(lid as int, w), j as int);
                lemma_seq_sum_take_step(self.postings@, credit_fn(lid as int, w), j as int);
                assert(posting_ok(self.postings@[j as int], self.ledgers@));
                assert((j as int + 1) * (MAX_AMOUNT_CENTS as int)
                    == (j as int) * (MAX_AMOUNT_CENTS as int) + MAX_AMOUNT_CENTS as int)
                    by (nonlinear_arith);
            }
            if inside && p.db_to == lid {
                deb = deb + p.amount as i128;
            }
            if inside && p.cr_from == lid {
                cred = cred + p.amount as i128;
            }
            j = j + 1;
        }
        proof {
            lemma_seq_sum_take_all(self.postings@, debit_fn(lid as int, w));
            lemma_seq_sum_take_all(self.postings@, credit_fn(lid as int, w));
        }
        if str_eq(l.kind.as_str(), "LIABILITY") {
            deb - cred
        } else {
            deb
        }
    }

    /// The all-ledgers net report: one row per ledger with its windowed net,
    /// ordered by net descending, with the grand total of all nets.
    pub fn generate_spending_report(&self, period: &ReportPeriod, now: i64)
        -> (r: Result<SpendingReport, WalletError>)
        requires
            self.wf(),
            0 <= now <= max_ts(),
        ensures
            r is Ok <==> period_ok(period),
            r matches Err(e) ==> period_err_matches(period, e),
            r matches Ok(rep) ==> {
                &&& rep.window.start_ts == spec_start(period, now as int)
                &&& match spec_end(period) {
                    Some(e) => rep.window.end_ts matches Some(et) && et == e,
                    None => rep.window.end_ts is None,
                }
                &&& rep.label@ == period_label(period)
                &&& rep.rows@.len() == self.ledgers@.len()
                &&& rep.rows@.map_values(srow_view_fn()).to_multiset()
                    == self.ledgers@.map_values(spending_row_fn(self.postings@, rep.window))
                        .to_multiset()
                &&& forall|i: int, j: int|
                    0 <= i < j < rep.rows@.len()
                        ==> #[trigger] rep.rows@[i].net >= #[trigger] rep.rows@[j].net
                &&& rep.grand_total
                    == seq_sum(self.ledgers@, net_fn(self.postings@, rep.window))
                &&& rep.grand_total == seq_sum(rep.rows@, srow_net_fn())
            },
    {
        let (w, label) = match resolve_period(period, now) {
            Ok(ws) => ws,
            Err(e) => {
                return Err(e);
            },
        };
        let nl = self.ledgers.len();
        let mut rows: Vec<SpendingRow> = Vec::new();
        let mut grand: i128 = 0;
        let mut i: usize = 0;
        proof {
            assert(self.ledgers@.take(0) =~= Seq::<Ledger>::empty());
            assert(rows@.map_values(srow_view_fn())
                =~= self.ledgers@.take(0).map_values(spending_row_fn(self.postings@, w)));
        }
        while i < nl
            invariant
                i <= nl,
                nl == self.ledgers@.len(),
                self.wf(),
                rows@.len() == i as int,
                rows@.map_values(srow_view_fn())
                    == self.ledgers@.take(i as int)
                        .map_values(spending_row_fn(self.postings@, w)),
                forall|t: int| 0 <= t < rows@.len()
                    ==> (#[trigger] rows@[t].net as int)
                        == net_of_ledger(self.ledgers@[t], self.postings@, w),
                grand == seq_sum(self.ledgers@.take(i as int), net_fn(self.postings@, w)),
            decreases nl - i,
        {
            let l = &self.ledgers[i];
            let net = self.net_for_ledger(l, w);
            let np = self.postings.len();
            proof {
                assert(np <= usize::MAX);
                lemma_seq_sum_take_step(self.ledgers@, net_fn(self.postings@, w), i as int);
                // the running grand total stays in range
                assert(ids_unique(self.ledgers@.take(i as int + 1))) by {
                    assert(forall|a: int, b: int|
                        0 <= a < b < i as int + 1
                            ==> #[trigger] self.ledgers@.take(i as int + 1)[a].id
                                != #[trigger] self.ledgers@.take(i as int + 1)[b].id);
                }
                assert(forall|t: int| 0 <= t < self.postings@.len()
                    ==> (#[trigger] self.postings@[t].amount as int)
                        <= MAX_AMOUNT_CENTS as int) by {
                    assert(forall|t: int| 0 <= t < self.postings@.len()
                        ==> posting_ok(#[trigger] self.postings@[t], self.ledgers@));
                }
                lemma_net_prefix_bound(
                    self.ledgers@.take(i as int + 1), self.postings@, w,
                    MAX_AMOUNT_CENTS as int);
                lemma_net_prefix_bound(
                    self.ledgers@.take(i as int), self.postings@, w, MAX_AMOUNT_CENTS as int);
                assert(self.postings@.len() * (MAX_AMOUNT_CENTS as int)
                    < 0x4000_0000_0000_0000_0000_0000_0000_0000) by (nonlinear_arith)
                    requires
                        self.postings@.len() <= 0xffff_ffff_ffff_ffff,
                ;
            }
            let ghost prev: Seq<SpendingRow> = rows@;
            let code = l.code.clone();
            let name = l.name.clone();
            rows.push(SpendingRow { code, name, net });
            grand = grand + net;
            proof {
                let f = srow_view_fn();
                let g = spending_row_fn(self.postings@, w);
                assert forall|t: int| 0 <= t < i as int + 1
                    implies rows@.map_values(f)[t]
                        == self.ledgers@.take(i as int + 1).map_values(g)[t] by {
                    assert(self.ledgers@.take(i as int + 1)[t] == self.ledgers@[t]);
                    if t < i as int {
                        assert(rows@[t] == prev[t]);
                        assert(prev.map_values(f)[t]
                            == self.ledgers@.take(i as int).map_values(g)[t]);
                        assert(self.ledgers@.take(i as int)[t] == self.ledgers@[t]);
                    } else {
                        assert(rows@[t].net == net);
                    }
                }
                assert(rows@.map_values(f)
                    =~= self.ledgers@.take(i as int + 1).map_values(g));
            }
            i = i + 1;
        }
        proof {
            assert(self.ledgers@.take(nl as int) =~= self.ledgers@);
        }
        let ghost unsorted: Seq<SpendingRow> = rows@;
        let rows = sort_rows(rows);
        proof {
            lemma_map_values_multiset(rows@, unsorted, srow_view_fn());
            // the sum of displayed nets is the grand total
            lemma_seq_sum_multiset(rows@, unsorted, srow_net_fn());
            lemma_seq_sum_parallel(
                unsorted, self.ledgers@, srow_net_fn(), net_fn(self.postings@, w));
            // sortedness, read off the sorting relation
            assert forall|i: int, j: int| 0 <= i < j < rows@.len()
                implies (#[trigger] rows@[i].net) >= (#[trigger] rows@[j].net) by {
                assert(crate::sort::before_rel::<SpendingRow>()(rows@[i], rows@[j]));
            }
        }
        Ok(SpendingReport { label, window: w, rows, grand_total: grand })
    }
}

/// An instant paired with a posting's index, for ordering by time.
impl SortOrd for (i64, usize) {
    open spec fn before_spec(&self, other: &Self) -> bool {
        self.0 >= other.0
    }

    proof fn lemma_total(a: &Self, b: &Self, c: &Self) {
    }

    fn before(&self, other: &Self) -> (r: bool) {
        self.0 >= other.0
    }
}

/// One row of a single ledger's statement.
pub struct StatementRow {
    pub created_at: i64,
    pub counterparty: String,
    pub narration: String,
    pub credit: u64,
    pub debit: u64,
}

/// The observable content of a statement row.
pub open spec fn trow_view(r: StatementRow) -> (int, Seq<char>, Seq<char>, int, int) {
    (r.created_at as int, r.counterparty@, r.narration@, r.credit as int, r.debit as int)
}

pub open spec fn trow_view_fn() -> spec_fn(StatementRow) -> (int, Seq<char>, Seq<char>, int, int) {
    |r: StatementRow| trow_view(r)
}

pub open spec fn trow_credit_fn() -> spec_fn(StatementRow) -> int {
    |r: StatementRow| r.credit as int
}

pub open spec fn trow_debit_fn() -> spec_fn(StatementRow) -> int {
    |r: StatementRow| r.debit as int
}

/// The code of the ledger with a given id.
pub open spec fn code_of(ls: Seq<Ledger>, id: int) -> Seq<char> {
    spec_ledger_by_id(ls, id).unwrap().code@
}

/// The statement row a posting ought to produce for ledger `lid`: the
/// counterparty is whichever end is not `lid`; the amount lands in the credit
/// column when `lid` is the source, in the debit column when it is the
/// destination.
pub open spec fn stmt_row_of(p: Posting, lid: int, ls: Seq<Ledger>)
    -> (int, Seq<char>, Seq<char>, int, int) {
    (
        p.created_at as int,
        if p.cr_from == lid {
            code_of(ls, p.db_to as int)
        } else {
            code_of(ls, p.cr_from as int)
        },
        p.narration@,
        if p.cr_from == lid { p.amount as int } else { 0 },
        if p.db_to == lid { p.amount as int } else { 0 },
    )
}

pub open spec fn stmt_row_fn(lid: int, ls: Seq<Ledger>)
    -> spec_fn(Posting) -> (int, Seq<char>, Seq<char>, int, int) {
    |p: Posting| stmt_row_of(p, lid, ls)
}

/// A posting belongs to the statement when it touches the ledger and falls
/// inside the window.
pub open spec fn stmt_pred(lid: int, w: Window) -> spec_fn(Posting) -> bool {
    |p: Posting| (p.cr_from == lid || p.db_to == lid) && w.admits(p.created_at as int)
}

pub open spec fn pair_posting_fn(ps: Seq<Posting>) -> spec_fn((i64, usize)) -> Posting {
    |pr: (i64, usize)| ps[pr.1 as int]
}

pub open spec fn pair_stmt_row_fn(ps: Seq<Posting>, lid: int, ls: Seq<Ledger>)
    -> spec_fn((i64, usize)) -> (int, Seq<char>, Seq<char>, int, int) {
    |pr: (i64, usize)| stmt_row_of(ps[pr.1 as int], lid, ls)
}

/// A time-index pair drawn from the postings, with its key correct.
pub open spec fn pair_ok(pr: (i64, usize), ps: Seq<Posting>) -> bool {
    0 <= pr.1 < ps.len() && pr.0 == ps[pr.1 as int].created_at
}

/// A single ledger's statement over a window.
pub struct LedgerStatement {
    pub label: String,
    pub window: Window,
    pub code: String,
    pub name: String,
    pub rows: Vec<StatementRow>,
    pub total_credits: i128,
    pub total_debits: i128,
    pub net_balance: i128,
}

impl Wallet {
    /// The statement of one ledger: every posting touching it inside the
    /// window, newest first, with column totals and the net balance
    /// `total_debits - total_credits` over the displayed rows.
    pub fn generate_ledger_report(&self, ledger_code: &str, period: &ReportPeriod, now: i64)
        -> (r: Result<LedgerStatement, WalletError>)
        requires
            self.wf(),
            0 <= now <= max_ts(),
        ensures
            r is Ok <==> spec_resolve(self.ledgers@, ledger_code@) is Some && period_ok(period),
            r matches Err(e) ==> if spec_resolve(self.ledgers@, ledger_code@) is None {
                e is LedgerNotFound
            } else {
                period_err_matches(period, e)
            },
            r matches Ok(rep) ==> {
                let lid = spec_resolve(self.ledgers@, ledger_code@).unwrap() as int;
                let flt = self.postings@.filter(stmt_pred(lid, rep.window));
                &&& rep.window.start_ts == spec_start(period, now as int)
                &&& match spec_end(period) {
                    Some(e) => rep.window.end_ts matches Some(et) && et == e,
                    None => rep.window.end_ts is None,
                }
                &&& rep.label@ == period_label(period)
                &&& rep.code@ == ledger_code@
                &&& rep.name@ == spec_ledger_by_id(self.ledgers@, lid).unwrap().name@
                &&& rep.rows@.len() == flt.len()
                &&& rep.rows@.map_values(trow_view_fn()).to_multiset()
                    == flt.map_values(stmt_row_fn(lid, self.ledgers@)).to_multiset()
                &&& forall|i: int, j: int|
                    0 <= i < j < rep.rows@.len()
                        ==> #[trigger] rep.rows@[i].created_at
                            >= #[trigger] rep.rows@[j].created_at
                &&& rep.total_credits == seq_sum(self.postings@, credit_fn(lid, rep.window))
                &&& rep.total_debits == seq_sum(self.postings@, debit_fn(lid, rep.window))
                &&& rep.total_credits == seq_sum(rep.rows@, trow_credit_fn())
                &&& rep.total_debits == seq_sum(rep.rows@, trow_debit_fn())
                &&& rep.net_balance == rep.total_debits - rep.total_credits
                &&& forall|i: int|
                    0 <= i < rep.rows@.len()
                        ==> crate::calendar::min_ts()
                            <= (#[trigger] rep.rows@[i]).created_at <= max_ts()
            },
    {
        let lid = match self.retrieve_ledger_id(ledger_code) {
            Ok(id) => id,
            Err(e) => {
                return Err(e);
            },
        };
        proof {
            lemma_resolve_id_exists(self.ledgers@, ledger_code@);
        }
        let name = self.ledger_at_id(lid).name.clone();
        let (w, label) = match resolve_period(period, now) {
            Ok(ws) => ws,
            Err(e) => {
                return Err(e);
            },
        };
        let ghost ps: Seq<Posting> = self.postings@;
        let ghost ls: Seq<Ledger> = self.ledgers@;
        let np = self.postings.len();
        let mut pairs: Vec<(i64, usize)> = Vec::new();
        let mut tc: i128 = 0;
        let mut td: i128 = 0;
        let mut j: usize = 0;
        proof {
            assert(ps.take(0) =~= Seq::<Posting>::empty());
            assert(pairs@.map_values(pair_posting_fn(ps))
                =~= ps.take(0).filter(stmt_pred(lid as int, w)));
        }
        while j < np
            invariant
                j <= np,
                np == ps.len(),
                ps == self.postings@,
                ls == self.ledgers@,
                self.wf(),
                pairs@.map_values(pair_posting_fn(ps))
                    == ps.take(j as int).filter(stmt_pred(lid as int, w)),
                forall|t: int| 0 <= t < pairs@.len() ==> pair_ok(#[trigger] pairs@[t], ps),
                tc == seq_sum(ps.take(j as int), credit_fn(lid as int, w)),
                td == seq_sum(ps.take(j as int), debit_fn(lid as int, w)),
                -(j as int) * (MAX_AMOUNT_CENTS as int) <= tc
                    <= (j as int) * (MAX_AMOUNT_CENTS as int),
                -(j as int) * (MAX_AMOUNT_CENTS as int) <= td
                    <= (j as int) * (MAX_AMOUNT_CENTS as int),
            decreases np - j,
        {
            let p = &self.postings[j];
            let inside = w.start_ts <= p.created_at && match w.end_ts {
                Some(e) => p.created_at <= e,
                None => true,
            };
            let involved = p.cr_from == lid || p.db_to == lid;
            let ghost prev: Seq<(i64, usize)> = pairs@;
            proof {
                lemma_filter_take_step(ps, stmt_pred(lid as int, w), j as int);
                lemma_seq_sum_take_step(ps, credit_fn(lid as int, w), j as int);
                lemma_seq_sum_take_step(ps, debit_fn(lid as int, w), j as int);
                assert(posting_ok(ps[j as int], ls));
                assert((j as int + 1) * (MAX_AMOUNT_CENTS as int)
                    == (j as int) * (MAX_AMOUNT_CENTS as int) + MAX_AMOUNT_CENTS as int)
                    by (nonlinear_arith);
            }
            if inside && involved {
                pairs.push((p.created_at, j));
                proof {
                    assert(pairs@.map_values(pair_posting_fn(ps))
                        =~= prev.map_values(pair_posting_fn(ps)).push(ps[j as int]));
                }
            }
            if inside && p.cr_from == lid {
                tc = tc + p.amount as i128;
            }
            if inside && p.db_to == lid {
                td = td + p.amount as i128;
            }
            j = j + 1;
        }
        proof {
            assert(ps.take(np as int) =~= ps);
        }
        let ghost pairs0: Seq<(i64, usize)> = pairs@;
        let sorted = sort_rows(pairs);
        proof {
            broadcast use group_to_multiset_ensures;

            assert forall|t: int| 0 <= t < sorted@.len()
                implies pair_ok(#[trigger] sorted@[t], ps)
                    && stmt_pred(lid as int, w)(ps[sorted@[t].1 as int]) by {
                assert(sorted@.contains(sorted@[t]));
                assert(sorted@.to_multiset().count(sorted@[t]) > 0);
                assert(pairs0.contains(sorted@[t]));
                let u = choose|u: int| 0 <= u < pairs0.len() && pairs0[u] == sorted@[t];
                assert(pair_ok(pairs0[u], ps));
                assert(pairs0.map_values(pair_posting_fn(ps))[u]
                    == ps.filter(stmt_pred(lid as int, w))[u]);
                assert(ps.filter(stmt_pred(lid as int, w))[u] == ps[pairs0[u].1 as int]);
                ps.lemma_filter_pred(stmt_pred(lid as int, w), u);
            }
        }
        let ns = sorted.len();
        let mut rows: Vec<StatementRow> = Vec::new();
        let mut k: usize = 0;
        proof {
            assert(rows@.map_values(trow_view_fn())
                =~= sorted@.take(0).map_values(pair_stmt_row_fn(ps, lid as int, ls)));
        }
        while k < ns
            invariant
                k <= ns,
                ns == sorted@.len(),
                ps == self.postings@,
                ls == self.ledgers@,
                self.wf(),
                forall|t: int| 0 <= t < sorted@.len() ==> pair_ok(#[trigger] sorted@[t], ps),
                rows@.len() == k as int,
                rows@.map_values(trow_view_fn())
                    == sorted@.take(k as int).map_values(pair_stmt_row_fn(ps, lid as int, ls)),
                forall|t: int| 0 <= t < rows@.len()
                    ==> #[trigger] rows@[t].created_at == sorted@[t].0,
            decreases ns - k,
        {
            let pr = sorted[k];
            proof {
                assert(pair_ok(sorted@[k as int], ps));
            }
            let p = &self.postings[pr.1];
            proof {
                assert(posting_ok(ps[pr.1 as int], ls));
            }
            let other_id = if p.cr_from == lid { p.db_to } else { p.cr_from };
            let cp = self.ledger_at_id(other_id).code.clone();
            let ghost prev: Seq<StatementRow> = rows@;
            rows.push(StatementRow {
                created_at: p.created_at,
                counterparty: cp,
                narration: p.narration.clone(),
                credit: if p.cr_from == lid { p.amount } else { 0 },
                debit: if p.db_to == lid { p.amount } else { 0 },
            });
            proof {
                assert(rows@.map_values(trow_view_fn())
                    =~= sorted@.take(k as int + 1).map_values(
                        pair_stmt_row_fn(ps, lid as int, ls))) by {
                    assert(rows@.map_values(trow_view_fn())
                        =~= prev.map_values(trow_view_fn()).push(trow_view(rows@[k as int])));
                    assert(sorted@.take(k as int + 1).drop_last() =~= sorted@.take(k as int));
                    assert(sorted@.take(k as int + 1)[k as int] == sorted@[k as int]);
                }
            }
            k = k + 1;
        }
        let net = td - tc;
        proof {
            let flt = ps.filter(stmt_pred(lid as int, w));
            assert(sorted@.take(ns as int) =~= sorted@);
            // the displayed rows carry exactly the filtered postings' rows
            lemma_map_values_multiset(sorted@, pairs0, pair_stmt_row_fn(ps, lid as int, ls));
            lemma_map_values_compose(
                pairs0,
                pair_posting_fn(ps),
                stmt_row_fn(lid as int, ls),
                pair_stmt_row_fn(ps, lid as int, ls),
            );
            // the column totals match the displayed rows
            assert forall|t: int| 0 <= t < rows@.len()
                implies trow_credit_fn()(#[trigger] rows@[t])
                    == credit_amt(ps[(#[trigger] sorted@[t]).1 as int], lid as int, w)
                    && trow_debit_fn()(rows@[t])
                        == debit_amt(ps[sorted@[t].1 as int], lid as int, w) by {
                assert(rows@.map_values(trow_view_fn())[t]
                    == sorted@.map_values(pair_stmt_row_fn(ps, lid as int, ls))[t]);
                assert(trow_view(rows@[t]) == stmt_row_of(ps[sorted@[t].1 as int], lid as int, ls));
                assert(stmt_pred(lid as int, w)(ps[sorted@[t].1 as int]));
            }
            lemma_seq_sum_parallel(
                rows@, sorted@,
                trow_credit_fn(),
                |pr: (i64, usize)| credit_amt(ps[pr.1 as int], lid as int, w));
            lemma_seq_sum_parallel(
                rows@, sorted@,
                trow_debit_fn(),
                |pr: (i64, usize)| debit_amt(ps[pr.1 as int], lid as int, w));
            lemma_seq_sum_multiset(
                sorted@, pairs0, |pr: (i64, usize)| credit_amt(ps[pr.1 as int], lid as int, w));
            lemma_seq_sum_multiset(
                sorted@, pairs0, |pr: (i64, usize)| debit_amt(ps[pr.1 as int], lid as int, w));
            lemma_seq_sum_parallel(
                pairs0, flt,
                |pr: (i64, usize)| credit_amt(ps[pr.1 as int], lid as int, w),
                credit_fn(lid as int, w));
            lemma_seq_sum_parallel(
                pairs0, flt,
                |pr: (i64, usize)| debit_amt(ps[pr.1 as int], lid as int, w),
                debit_fn(lid as int, w));
            lemma_seq_sum_filter(
                ps, stmt_pred(lid as int, w), credit_fn(lid as int, w),
                credit_fn(lid as int, w));
            lemma_seq_sum_filter(
                ps, stmt_pred(lid as int, w), debit_fn(lid as int, w), debit_fn(lid as int, w));
            // sortedness of the displayed rows
            assert forall|i: int, t: int| 0 <= i < t < rows@.len()
                implies (#[trigger] rows@[i].created_at) >= (#[trigger] rows@[t].created_at) by {
                assert(crate::sort::before_rel::<(i64, usize)>()(sorted@[i], sorted@[t]));
            }
        }
        Ok(LedgerStatement {
            label,
            window: w,
            code: String::from_str(ledger_code),
            name,
            rows,
            total_credits: tc,
            total_debits: td,
            net_balance: net,
        })
    }
}

/// One row of the recent-transactions report.
pub struct RecentRow {
    pub created_at: i64,
    pub from_code: String,
    pub to_code: String,
    pub amount: u64,
    pub narration: String,
}

/// The observable content of a recent-transactions row.
pub open spec fn rrow_view(r: RecentRow) -> (int, Seq<char>, Seq<char>, int, Seq<char>) {
    (r.created_at as int, r.from_code@, r.to_code@, r.amount as int, r.narration@)
}

pub open spec fn rrow_view_fn() -> spec_fn(RecentRow) -> (int, Seq<char>, Seq<char>, int, Seq<char>) {
    |r: RecentRow| rrow_view(r)
}

/// The row a posting ought to produce: both ledger codes, amount, narration.
pub open spec fn recent_row_of(p: Posting, ls: Seq<Ledger>)
    -> (int, Seq<char>, Seq<char>, int, Seq<char>) {
    (
        p.created_at as int,
        code_of(ls, p.cr_from as int),
        code_of(ls, p.db_to as int),
        p.amount as int,
        p.narration@,
    )
}

pub open spec fn recent_row_fn(ls: Seq<Ledger>)
    -> spec_fn(Posting) -> (int, Seq<char>, Seq<char>, int, Seq<char>) {
    |p: Posting| recent_row_of(p, ls)
}

pub open spec fn pair_recent_row_fn(ps: Seq<Posting>, ls: Seq<Ledger>)
    -> spec_fn((i64, usize)) -> (int, Seq<char>, Seq<char>, int, Seq<char>) {
    |pr: (i64, usize)| recent_row_of(ps[pr.1 as int], ls)
}

impl Wallet {
    /// The ten most recent postings system-wide, newest first, with no window
    /// filter: the result is a prefix of the postings sorted by time.
    pub fn generate_recent_transactions_report(&self) -> (rows: Vec<RecentRow>)
        requires
            self.wf(),
        ensures
            rows@.len() == if self.postings@.len() >= 10 { 10int } else {
                self.postings@.len() as int
            },
            forall|i: int, j: int|
                0 <= i < j < rows@.len()
                    ==> #[trigger] rows@[i].created_at >= #[trigger] rows@[j].created_at,
            forall|i: int|
                0 <= i < rows@.len()
                    ==> crate::calendar::min_ts()
                        <= (#[trigger] rows@[i]).created_at <= crate::calendar::max_ts(),
            exists|perm: Seq<Posting>|
                {
                    &&& #[trigger] perm.to_multiset() == self.postings@.to_multiset()
                    &&& forall|i: int, j: int|
                        0 <= i < j < perm.len()
                            ==> #[trigger] perm[i].created_at >= #[trigger] perm[j].created_at
                    &&& rows@.map_values(rrow_view_fn())
                        == perm.take(rows@.len() as int).map_values(recent_row_fn(self.ledgers@))
                },
    {
        let ghost ps: Seq<Posting> = self.postings@;
        let ghost ls: Seq<Ledger> = self.ledgers@;
        let np = self.postings.len();
        let mut pairs: Vec<(i64, usize)> = Vec::new();
        let mut j: usize = 0;
        while j < np
            invariant
                j <= np,
                np == ps.len(),
                ps == self.postings@,
                pairs@.len() == j as int,
                forall|t: int| 0 <= t < j as int
                    ==> #[trigger] pairs@[t] == (ps[t].created_at, t as usize),
            decreases np - j,
        {
            let p = &self.postings[j];
            pairs.push((p.created_at, j));
            j = j + 1;
        }
        let ghost pairs0: Seq<(i64, usize)> = pairs@;
        let sorted = sort_rows(pairs);
        proof {
            broadcast use group_to_multiset_ensures;

            assert forall|t: int| 0 <= t < sorted@.len()
                implies pair_ok(#[trigger] sorted@[t], ps) by {
                assert(sorted@.contains(sorted@[t]));
                assert(sorted@.to_multiset().count(sorted@[t]) > 0);
                assert(pairs0.contains(sorted@[t]));
                let u = choose|u: int| 0 <= u < pairs0.len() && pairs0[u] == sorted@[t];
                assert(pairs0[u] == (ps[u].created_at, u as usize));
            }
        }
        let ns = sorted.len();
        let limit = if ns >= 10 { 10 } else { ns };
        let mut rows: Vec<RecentRow> = Vec::new();
        let mut k: usize = 0;
        proof {
            assert(rows@.map_values(rrow_view_fn())
                =~= sorted@.take(0).map_values(pair_recent_row_fn(ps, ls)));
        }
        while k < limit
            invariant
                k <= limit,
                limit <= ns,
                ns == sorted@.len(),
                ps == self.postings@,
                ls == self.ledgers@,
                self.wf(),
                forall|t: int| 0 <= t < sorted@.len() ==> pair_ok(#[trigger] sorted@[t], ps),
                rows@.len() == k as int,
                rows@.map_values(rrow_view_fn())
                    == sorted@.take(k as int).map_values(pair_recent_row_fn(ps, ls)),
                forall|t: int| 0 <= t < rows@.len()
                    ==> #[trigger] rows@[t].created_at == sorted@[t].0,
            decreases limit - k,
        {
            let pr = sorted[k];
            proof {
                assert(pair_ok(sorted@[k as int], ps));
            }
            let p = &self.postings[pr.1];
            proof {
                assert(posting_ok(ps[pr.1 as int], ls));
            }
            let from_code = self.ledger_at_id(p.cr_from).code.clone();
            let to_code = self.ledger_at_id(p.db_to).code.clone();
            let ghost prev: Seq<RecentRow> = rows@;
            rows.push(RecentRow {
                created_at: p.created_at,
                from_code,
                to_code,
                amount: p.amount,
                narration: p.narration.clone(),
            });
            proof {
                assert(rows@.map_values(rrow_view_fn())
                    =~= sorted@.take(k as int + 1).map_values(pair_recent_row_fn(ps, ls))) by {
                    assert(rows@.map_values(rrow_view_fn())
                        =~= prev.map_values(rrow_view_fn()).push(rrow_view(rows@[k as int])));
                    assert(sorted@.take(k as int + 1).drop_last() =~= sorted@.take(k as int));
                    assert(sorted@.take(k as int + 1)[k as int] == sorted@[k as int]);
                }
            }
            k = k + 1;
        }
        proof {
            let perm = sorted@.map_values(pair_posting_fn(ps));
            lemma_map_values_multiset(sorted@, pairs0, pair_posting_fn(ps));
            assert(pairs0.map_values(pair_posting_fn(ps)) =~= ps);
            assert(perm.to_multiset() == ps.to_multiset());
            assert forall|i: int, t: int| 0 <= i < t < perm.len()
                implies (#[trigger] perm[i].created_at) >= (#[trigger] perm[t].created_at) by {
                assert(crate::sort::before_rel::<(i64, usize)>()(sorted@[i], sorted@[t]));
                assert(pair_ok(sorted@[i], ps));
                assert(pair_ok(sorted@[t], ps));
                assert(perm[i] == ps[sorted@[i].1 as int]);
                assert(perm[t] == ps[sorted@[t].1 as int]);
            }
            assert(rows@.map_values(rrow_view_fn())
                =~= perm.take(rows@.len() as int).map_values(recent_row_fn(ls))) by {
                assert(rows@.map_values(rrow_view_fn())
                    == sorted@.take(limit as int).map_values(pair_recent_row_fn(ps, ls)));
                assert forall|t: int| 0 <= t < rows@.len()
                    implies perm.take(rows@.len() as int).map_values(recent_row_fn(ls))[t]
                        == sorted@.take(limit as int).map_values(pair_recent_row_fn(ps, ls))[t]
                    by {
                    assert(pair_ok(sorted@[t], ps));
                    assert(perm[t] == ps[sorted@[t].1 as int]);
                }
            }
            assert forall|i: int, t: int| 0 <= i < t < rows@.len()
                implies (#[trigger] rows@[i].created_at) >= (#[trigger] rows@[t].created_at) by {
                assert(crate::sort::before_rel::<(i64, usize)>()(sorted@[i], sorted@[t]));
            }
        }
        rows
    }
}

/// The kind of the ledger with a given id.
pub open spec fn kind_of(ls: Seq<Ledger>, id: int) -> Seq<char> {
    spec_ledger_by_id(ls, id).unwrap().kind@
}

/// One posting's daily net: the debited side counts the amount, a credited
/// liability counts it back, and a posting whose two ends are one ledger
/// counts once by that ledger's kind.
pub open spec fn posting_net(p: Posting, ls: Seq<Ledger>) -> int {
    if p.cr_from == p.db_to {
        if is_liability(kind_of(ls, p.db_to as int)) {
            0
        } else {
            p.amount as int
        }
    } else {
        if is_liability(kind_of(ls, p.cr_from as int)) {
            0
        } else {
            p.amount as int
        }
    }
}

/// One posting's share of one day's total; zero outside the day.
pub open spec fn day_net_amt(p: Posting, ls: Seq<Ledger>, day: int) -> int {
    if day * 86400 <= p.created_at < (day + 1) * 86400 {
        posting_net(p, ls)
    } else {
        0
    }
}

pub open spec fn day_net_fn(ls: Seq<Ledger>, day: int) -> spec_fn(Posting) -> int {
    |p: Posting| day_net_amt(p, ls, day)
}

/// The net of all postings on one day.
pub open spec fn day_total(ps: Seq<Posting>, ls: Seq<Ledger>, day: int) -> int {
    seq_sum(ps, day_net_fn(ls, day))
}

/// The calendar rows over the inclusive day range `[lo, hi]`, ascending,
/// keeping only days whose net is not zero.
pub open spec fn calendar_rows(ps: Seq<Posting>, ls: Seq<Ledger>, lo: int, hi: int)
    -> Seq<(int, int)>
    decreases hi + 1 - lo,
{
    if lo > hi {
        Seq::empty()
    } else {
        let rest = calendar_rows(ps, ls, lo, hi - 1);
        if day_total(ps, ls, hi) == 0 {
            rest
        } else {
            rest.push((hi, day_total(ps, ls, hi)))
        }
    }
}

pub open spec fn crow_net_fn() -> spec_fn((int, int)) -> int {
    |t: (int, int)| t.1
}

/// The under-cap remainder of one displayed day; zero when over the cap.
pub open spec fn skimp_fn(cap: int) -> spec_fn((int, int)) -> int {
    |t: (int, int)| if cap - t.1 > 0 { cap - t.1 } else { 0 }
}

/// Length and sum bounds for a range of calendar rows.
proof fn lemma_calendar_rows_bound(
    ps: Seq<Posting>,
    ls: Seq<Ledger>,
    lo: int,
    hi: int,
    b: int,
    c: int,
)
    requires
        b >= 0,
        c >= 0,
        forall|d: int| lo <= d <= hi ==> -b <= #[trigger] day_total(ps, ls, d) <= b,
    ensures
        calendar_rows(ps, ls, lo, hi).len() <= (if hi >= lo { hi + 1 - lo } else { 0 }),
        -((if hi >= lo { hi + 1 - lo } else { 0 }) * b)
            <= seq_sum(calendar_rows(ps, ls, lo, hi), crow_net_fn())
            <= (if hi >= lo { hi + 1 - lo } else { 0 }) * b,
        0 <= seq_sum(calendar_rows(ps, ls, lo, hi), skimp_fn(c))
            <= (if hi >= lo { hi + 1 - lo } else { 0 }) * (c + b),
    decreases hi + 1 - lo,
{
    if lo > hi {
    } else {
        lemma_calendar_rows_bound(ps, ls, lo, hi - 1, b, c);
        assert((hi - lo) * b + b == (hi + 1 - lo) * b) by (nonlinear_arith);
        assert((hi - lo) * (c + b) + (c + b) == (hi + 1 - lo) * (c + b)) by (nonlinear_arith);
        assert((hi - lo) * b >= 0 && (hi - lo) * (c + b) >= 0) by (nonlinear_arith)
            requires
                hi >= lo,
                b >= 0,
                c >= 0,
        ;
        let rest = calendar_rows(ps, ls, lo, hi - 1);
        let t = day_total(ps, ls, hi);
        assert(-b <= t <= b);
        if t != 0 {
            let cur = rest.push((hi, t));
            assert(cur.drop_last() =~= rest);
            assert(cur.last() == (hi, t));
            assert(seq_sum(cur, crow_net_fn()) == seq_sum(rest, crow_net_fn()) + t);
            assert(seq_sum(cur, skimp_fn(c))
                == seq_sum(rest, skimp_fn(c)) + (if c - t > 0 { c - t } else { 0 }));
            assert(0 <= (if c - t > 0 { c - t } else { 0 }) <= c + b);
        }
    }
}

/// One row of the daily calendar report.
pub struct CalendarRow {
    pub day: i64,
    pub net: i128,
}

pub open spec fn crow_view(r: CalendarRow) -> (int, int) {
    (r.day as int, r.net as int)
}

pub open spec fn crow_view_fn() -> spec_fn(CalendarRow) -> (int, int) {
    |r: CalendarRow| crow_view(r)
}

/// The daily calendar report for one month: its target month and year, the
/// day range covered, the displayed days, and the cap bookkeeping.
pub struct CalendarReport {
    pub year: u32,
    pub month: u32,
    pub cap: Option<u64>,
    pub start_day: i64,
    pub end_day: i64,
    pub rows: Vec<CalendarRow>,
    pub grand_total: i128,
    pub skimp: i128,
}

impl Wallet {
    /// The net of all postings on one day.
    fn net_for_day(&self, day: i64) -> (r: i128)
        requires
            self.wf(),
            crate::calendar::min_day() <= day <= crate::calendar::max_day(),
        ensures
            r == day_total(self.postings@, self.ledgers@, day as int),
    {
        let ghost ps: Seq<Posting> = self.postings@;
        let ghost ls: Seq<Ledger> = self.ledgers@;
        proof {
            crate::calendar::lemma_days_before_year_bounds(0);
            crate::calendar::lemma_days_before_year_bounds(10000);
            assert(ps.take(0) =~= Seq::<Posting>::empty());
        }
        let lo_ts: i64 = day * 86400;
        let hi_ts: i64 = lo_ts + 86400;
        let np = self.postings.len();
        let mut acc: i128 = 0;
        let mut u: usize = 0;
        while u < np
            invariant
                u <= np,
                np == ps.len(),
                ps == self.postings@,
                ls == self.ledgers@,
                self.wf(),
                lo_ts == day as int * 86400,
                hi_ts == (day as int + 1) * 86400,
                acc == seq_sum(ps.take(u as int), day_net_fn(ls, day as int)),
                -(u as int) * (MAX_AMOUNT_CENTS as int) <= acc
                    <= (u as int) * (MAX_AMOUNT_CENTS as int),
            decreases np - u,
        {
            let p = &self.postings[u];
            proof {
                lemma_seq_sum_take_step(ps, day_net_fn(ls, day as int), u as int);
                assert(posting_ok(ps[u as int], ls));
                assert((u as int + 1) * (MAX_AMOUNT_CENTS as int)
                    == (u as int) * (MAX_AMOUNT_CENTS as int) + MAX_AMOUNT_CENTS as int)
                    by (nonlinear_arith);
            }
            if lo_ts <= p.created_at && p.created_at < hi_ts {
                let key_end = if p.cr_from == p.db_to { p.db_to } else { p.cr_from };
                let liab = str_eq(self.ledger_at_id(key_end).kind.as_str(), "LIABILITY");
                if !liab {
                    acc = acc + p.amount as i128;
                }
            }
            u = u + 1;
        }
        proof {
            assert(ps.take(np as int) =~= ps);
        }
        acc
    }

    /// The daily calendar report: per-day nets over the target month,
    /// omitting days that net to zero, with the grand total of the displayed
    /// days and, under a cap, the accumulated positive headroom.
    pub fn generate_calendar_report(&self, month_arg: Option<&String>, cap: Option<u64>, now: i64)
        -> (r: Result<CalendarReport, WalletError>)
        requires
            self.wf(),
            0 <= now <= max_ts(),
        ensures
            r is Ok <==> (match month_arg {
                Some(s) => crate::calendar::month_number_of_name(s@) is Some,
                None => true,
            }),
            r matches Err(e) ==> e is InvalidMonth,
            r matches Ok(rep) ==> {
                let cy = day_date(day_of_ts(now as int)).0;
                let cm = day_date(day_of_ts(now as int)).1;
                let spec_rows = calendar_rows(
                    self.postings@, self.ledgers@, rep.start_day as int, rep.end_day as int);
                &&& rep.cap == cap
                &&& match month_arg {
                    Some(s) => crate::calendar::month_number_of_name(s@)
                        == Some(rep.month as int)
                        && rep.year as int == (if rep.month as int > cm { cy - 1 } else { cy }),
                    None => rep.month as int == cm && rep.year as int == cy,
                }
                &&& crate::calendar::date_valid(rep.year as int, rep.month as int, 1)
                &&& rep.start_day == days_of_date(rep.year as int, rep.month as int, 1)
                &&& rep.end_day as int == (if rep.month as int == cm && rep.year as int == cy {
                    day_of_ts(now as int)
                } else {
                    days_of_date(
                        rep.year as int,
                        rep.month as int,
                        crate::calendar::days_in_month(rep.year as int, rep.month as int),
                    )
                })
                &&& rep.rows@.map_values(crow_view_fn()) == spec_rows
                &&& forall|i: int|
                    0 <= i < rep.rows@.len()
                        ==> (#[trigger] rep.rows@[i]).net != 0
                            && rep.start_day <= rep.rows@[i].day <= rep.end_day
                &&& forall|i: int, j: int|
                    0 <= i < j < rep.rows@.len()
                        ==> #[trigger] rep.rows@[i].day < #[trigger] rep.rows@[j].day
                &&& rep.grand_total == seq_sum(spec_rows, crow_net_fn())
                &&& match cap {
                    Some(c) => rep.skimp == seq_sum(spec_rows, skimp_fn(c as int)),
                    None => rep.skimp == 0,
                }
            },
    {
        let ghost ps: Seq<Posting> = self.postings@;
        let ghost ls: Seq<Ledger> = self.ledgers@;
        proof {
            crate::calendar::lemma_days_before_year_bounds(0);
            crate::calendar::lemma_days_before_year_bounds(10000);
            crate::calendar::lemma_days_before_year_mono(0, 1970);
        }
        let (nowday, _nowsec) = crate::calendar::split_ts(now);
        let nd = crate::calendar::days_to_date(nowday);
        proof {
            crate::calendar::lemma_day_date(nowday as int);
            let t = day_date(nowday as int);
            crate::calendar::lemma_days_of_date_injective(
                nd.year as int, nd.month as int, nd.day as int, t.0, t.1, t.2);
            // "now" lies at or after the epoch, so its year does too
            crate::calendar::lemma_date_in_year(nd.year as int, nd.month as int, nd.day as int);
            if nd.year < 1970 {
                if nd.year as int + 1 < 1970 {
                    crate::calendar::lemma_days_before_year_mono(nd.year as int + 1, 1970);
                }
                assert(false);
            }
        }
        let (ty, tm): (u32, u32) = match month_arg {
            None => (nd.year, nd.month),
            Some(s) => {
                match crate::calendar::month_from_name(s.as_str()) {
                    None => {
                        let mut msg = String::from_str("");
                        msg.append(s.as_str());
                        msg.append(". Use a full month name");
                        return Err(WalletError::InvalidMonth(msg));
                    },
                    Some(m) => {
                        let y = if m > nd.month {
                            nd.year - 1
                        } else {
                            nd.year
                        };
                        (y, m)
                    },
                }
            },
        };
        let start_day = crate::calendar::date_to_days(crate::calendar::Date {
            year: ty,
            month: tm,
            day: 1,
        });
        let end_day = if tm == nd.month && ty == nd.year {
            nowday
        } else {
            let last = crate::calendar::month_length(ty, tm);
            crate::calendar::date_to_days(crate::calendar::Date { year: ty, month: tm, day: last })
        };
        proof {
            crate::calendar::lemma_valid_date_day_range(ty as int, tm as int, 1);
            crate::calendar::lemma_valid_date_day_range(
                ty as int, tm as int, crate::calendar::days_in_month(ty as int, tm as int));
            assert(start_day <= end_day);
            assert(end_day - start_day <= 30);
            // every day's total is bounded by the posting amounts
            assert forall|d: int| start_day as int <= d <= end_day as int
                implies -((ps.len() * MAX_AMOUNT_CENTS) as int)
                    <= #[trigger] day_total(ps, ls, d)
                    <= (ps.len() * MAX_AMOUNT_CENTS) as int by {
                assert(forall|i: int| 0 <= i < ps.len()
                    ==> -(MAX_AMOUNT_CENTS as int) <= day_net_fn(ls, d)(#[trigger] ps[i])
                        <= MAX_AMOUNT_CENTS as int) by {
                    assert(forall|i: int| 0 <= i < ps.len()
                        ==> posting_ok(#[trigger] ps[i], ls));
                }
                lemma_seq_sum_abs_bound(ps, day_net_fn(ls, d), MAX_AMOUNT_CENTS as int);
            }
        }
        let mut rows: Vec<CalendarRow> = Vec::new();
        let mut grand: i128 = 0;
        let mut skimp: i128 = 0;
        let mut day = start_day;
        proof {
            assert(rows@.map_values(crow_view_fn())
                =~= calendar_rows(ps, ls, start_day as int, day as int - 1));
        }
        while day <= end_day
            invariant
                self.wf(),
                ps == self.postings@,
                ls == self.ledgers@,
                start_day <= day <= end_day + 1,
                end_day - start_day <= 30,
                crate::calendar::min_day() <= start_day,
                end_day <= crate::calendar::max_day(),
                end_day <= 2940000,
                forall|d: int| start_day as int <= d <= end_day as int
                    ==> -((ps.len() * MAX_AMOUNT_CENTS) as int)
                        <= #[trigger] day_total(ps, ls, d)
                        <= (ps.len() * MAX_AMOUNT_CENTS) as int,
                rows@.map_values(crow_view_fn())
                    == calendar_rows(ps, ls, start_day as int, day as int - 1),
                grand == seq_sum(
                    calendar_rows(ps, ls, start_day as int, day as int - 1), crow_net_fn()),
                match cap {
                    Some(c) => skimp == seq_sum(
                        calendar_rows(ps, ls, start_day as int, day as int - 1),
                        skimp_fn(c as int)),
                    None => skimp == 0,
                },
                forall|t: int| 0 <= t < rows@.len()
                    ==> (#[trigger] rows@[t]).net != 0
                        && start_day <= rows@[t].day < day,
                forall|i: int, j: int| 0 <= i < j < rows@.len()
                    ==> #[trigger] rows@[i].day < #[trigger] rows@[j].day,
            decreases end_day + 1 - day,
        {
            let net = self.net_for_day(day);
            let np = self.postings.len();
            let ghost prev_rows: Seq<CalendarRow> = rows@;
            let ghost bound: int = (ps.len() * MAX_AMOUNT_CENTS) as int;
            let ghost capv: int = match cap { Some(c) => c as int, None => 0 };
            let ghost rest = calendar_rows(ps, ls, start_day as int, day as int - 1);
            let ghost cur = calendar_rows(ps, ls, start_day as int, day as int);
            proof {
                assert(np <= usize::MAX);
                lemma_calendar_rows_bound(ps, ls, start_day as int, day as int, bound, capv);
                lemma_calendar_rows_bound(ps, ls, start_day as int, day as int - 1, bound, capv);
                assert(31 * (bound + 0xffff_ffff_ffff_ffff)
                    < 0x4000_0000_0000_0000_0000_0000_0000_0000) by (nonlinear_arith)
                    requires
                        bound == (ps.len() * MAX_AMOUNT_CENTS) as int,
                        ps.len() <= 0xffff_ffff_ffff_ffff,
                ;
                assert((day as int + 1 - start_day as int) * (bound + capv)
                    <= 31 * (bound + 0xffff_ffff_ffff_ffff)) by (nonlinear_arith)
                    requires
                        0 <= day as int + 1 - start_day as int <= 31,
                        0 <= capv <= 0xffff_ffff_ffff_ffff,
                        bound >= 0,
                ;
                assert((day as int + 1 - start_day as int) * bound
                    <= (day as int + 1 - start_day as int) * (bound + capv)) by (nonlinear_arith)
                    requires
                        0 <= day as int + 1 - start_day as int,
                        capv >= 0,
                        bound >= 0,
                ;
                assert(cur == (if day_total(ps, ls, day as int) == 0 {
                    rest
                } else {
                    rest.push((day as int, day_total(ps, ls, day as int)))
                }));
                if net != 0 {
                    assert(rest.push((day as int, net as int)).drop_last() =~= rest);
                    assert(seq_sum(cur, crow_net_fn()) == seq_sum(rest, crow_net_fn()) + net);
                    assert(seq_sum(cur, skimp_fn(capv))
                        == seq_sum(rest, skimp_fn(capv))
                            + (if capv - net > 0 { capv - net } else { 0 }));
                }
            }
            if net != 0 {
                rows.push(CalendarRow { day, net });
                grand = grand + net;
                match cap {
                    Some(c) => {
                        let diff = c as i128 - net;
                        if diff > 0 {
                            skimp = skimp + diff;
                        }
                    },
                    None => {},
                }
                proof {
                    assert(rows@.map_values(crow_view_fn())
                        =~= prev_rows.map_values(crow_view_fn())
                            .push(crow_view(rows@[rows@.len() - 1])));
                }
            }
            day = day + 1;
        }
        proof {
            assert(day == end_day + 1);
        }
        Ok(CalendarReport {
            year: ty,
            month: tm,
            cap,
            start_day,
            end_day,
            rows,
            grand_total: grand,
            skimp,
        })
    }
}

/// One row of the ledger listing.
pub struct LedgerRow {
    pub code: String,
    pub name: String,
    pub sort: String,
    pub kind: String,
}

impl SortOrd for LedgerRow {
    open spec fn before_spec(&self, other: &Self) -> bool {
        crate::text::lex_le(self.code@, other.code@)
    }

    proof fn lemma_total(a: &Self, b: &Self, c: &Self) {
        crate::text::lemma_lex_total(a.code@, b.code@);
        if crate::text::lex_le(a.code@, b.code@) && crate::text::lex_le(b.code@, c.code@) {
            crate::text::lemma_lex_trans(a.code@, b.code@, c.code@);
        }
    }

    fn before(&self, other: &Self) -> (r: bool) {
        crate::text::str_le(self.code.as_str(), other.code.as_str())
    }
}

/// The observable content of a listing row.
pub open spec fn lrow_view(r: LedgerRow) -> (Seq<char>, Seq<char>, Seq<char>, Seq<char>) {
    (r.code@, r.name@, r.sort@, r.kind@)
}

pub open spec fn lrow_view_fn() -> spec_fn(LedgerRow) -> (Seq<char>, Seq<char>, Seq<char>, Seq<char>) {
    |r: LedgerRow| lrow_view(r)
}

/// The listing row a ledger ought to produce.
pub open spec fn ledger_lrow_fn() -> spec_fn(Ledger) -> (Seq<char>, Seq<char>, Seq<char>, Seq<char>) {
    |l: Ledger| (l.code@, l.name@, l.sort@, l.kind@)
}

impl Wallet {
    /// All ledgers, ordered by code.
    pub fn list_ledgers(&self) -> (rows: Vec<LedgerRow>)
        ensures
            rows@.len() == self.ledgers@.len(),
            rows@.map_values(lrow_view_fn()).to_multiset()
                == self.ledgers@.map_values(ledger_lrow_fn()).to_multiset(),
            forall|i: int, j: int|
                0 <= i < j < rows@.len()
                    ==> crate::text::lex_le(#[trigger] rows@[i].code@, #[trigger] rows@[j].code@),
    {
        let nl = self.ledgers.len();
        let mut rows: Vec<LedgerRow> = Vec::new();
        let mut i: usize = 0;
        proof {
            assert(rows@.map_values(lrow_view_fn())
                =~= self.ledgers@.take(0).map_values(ledger_lrow_fn()));
        }
        while i < nl
            invariant
                i <= nl,
                nl == self.ledgers@.len(),
                rows@.len() == i as int,
                rows@.map_values(lrow_view_fn())
                    == self.ledgers@.take(i as int).map_values(ledger_lrow_fn()),
            decreases nl - i,
        {
            let l = &self.ledgers[i];
            let ghost prev: Seq<LedgerRow> = rows@;
            rows.push(LedgerRow {
                code: l.code.clone(),
                name: l.name.clone(),
                sort: l.sort.clone(),
                kind: l.kind.clone(),
            });
            proof {
                assert(rows@.map_values(lrow_view_fn())
                    =~= self.ledgers@.take(i as int + 1).map_values(ledger_lrow_fn())) by {
                    assert(rows@.map_values(lrow_view_fn())
                        =~= prev.map_values(lrow_view_fn()).push(lrow_view(rows@[i as int])));
                    assert(self.ledgers@.take(i as int + 1).drop_last()
                        =~= self.ledgers@.take(i as int));
                    assert(self.ledgers@.take(i as int + 1)[i as int] == self.ledgers@[i as int]);
                }
            }
            i = i + 1;
        }
        proof {
            assert(self.ledgers@.take(nl as int) =~= self.ledgers@);
        }
        let ghost unsorted: Seq<LedgerRow> = rows@;
        let rows = sort_rows(rows);
        proof {
            lemma_map_values_multiset(rows@, unsorted, lrow_view_fn());
            assert forall|i: int, j: int| 0 <= i < j < rows@.len()
                implies crate::text::lex_le(
                    #[trigger] rows@[i].code@, #[trigger] rows@[j].code@) by {
                assert(crate::sort::before_rel::<LedgerRow>()(rows@[i], rows@[j]));
            }
        }
        rows
    }
}

} // verus!
