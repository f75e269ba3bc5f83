//! The ledger directory and posting engine: named ledgers, append-only
//! double-entry postings, and the well-formedness the reports rely on.

use vstd::prelude::*;

verus! {

use vstd::string::StringExecFns;
use crate::calendar::max_ts;
use crate::calendar::min_ts;
use crate::errors::WalletError;
use crate::text::str_eq;
use crate::text::MAX_AMOUNT_CENTS;

/// A named account. `kind` is free text; the value `LIABILITY` switches the
/// sign convention in aggregation, anything else counts as asset-like.
pub struct Ledger {
    pub id: u64,
    pub code: String,
    pub name: String,
    pub description: String,
    pub sort: String,
    pub kind: String,
}

/// One double-entry record: value moves from the credited ledger `cr_from`
/// to the debited ledger `db_to`. Amounts are cents, always positive.
pub struct Posting {
    pub id: u64,
    pub cr_from: u64,
    pub db_to: u64,
    pub amount: u64,
    pub narration: String,
    pub created_at: i64,
}

/// The engine's state: the ledger directory and the posting log, with the
/// next identifiers to assign. Ledgers are immutable once created and
/// postings are append-only; identifiers are never reused.
pub struct Wallet {
    pub ledgers: Vec<Ledger>,
    pub postings: Vec<Posting>,
    pub next_ledger_id: u64,
    pub next_posting_id: u64,
}

/// The id of the first ledger whose code is `code`, if any.
pub open spec fn spec_resolve(ls: Seq<Ledger>, code: Seq<char>) -> Option<u64>
    decreases ls.len(),
{
    if ls.len() == 0 {
        None
    } else if ls[0].code@ == code {
        Some(ls[0].id)
    } else {
        spec_resolve(ls.drop_first(), code)
    }
}

/// The first ledger with id `id`, if any.
pub open spec fn spec_ledger_by_id(ls: Seq<Ledger>, id: int) -> Option<Ledger>
    decreases ls.len(),
{
    if ls.len() == 0 {
        None
    } else if ls[0].id == id {
        Some(ls[0])
    } else {
        spec_ledger_by_id(ls.drop_first(), id)
    }
}

pub open spec fn has_ledger_id(ls: Seq<Ledger>, id: int) -> bool {
    spec_ledger_by_id(ls, id) is Some
}

/// What well-formedness asks of each posting.
pub open spec fn posting_ok(p: Posting, ls: Seq<Ledger>) -> bool {
    &&& has_ledger_id(ls, p.cr_from as int)
    &&& has_ledger_id(ls, p.db_to as int)
    &&& 1 <= p.amount <= MAX_AMOUNT_CENTS
    &&& min_ts() <= p.created_at <= max_ts()
}

impl Wallet {
    /// The engine's invariant: unique ledger ids and codes, bounded fresh
    /// ids, and every posting well formed against the directory.
    pub open spec fn wf(&self) -> bool {
        &&& forall|i: int, j: int|
            0 <= i < j < self.ledgers@.len()
                ==> #[trigger] self.ledgers@[i].id != #[trigger] self.ledgers@[j].id
        &&& forall|i: int, j: int|
            0 <= i < j < self.ledgers@.len()
                ==> #[trigger] self.ledgers@[i].code@ != #[trigger] self.ledgers@[j].code@
        &&& forall|i: int|
            0 <= i < self.ledgers@.len()
                ==> (#[trigger] self.ledgers@[i].id) < self.next_ledger_id
        &&& forall|i: int|
            0 <= i < self.postings@.len()
                ==> (#[trigger] self.postings@[i].id) < self.next_posting_id
        &&& forall|i: int|
            0 <= i < self.postings@.len()
                ==> posting_ok(#[trigger] self.postings@[i], self.ledgers@)
    }

    /// An empty wallet.
    pub fn new() -> (r: Wallet)
        ensures
            r.wf(),
            r.ledgers@.len() == 0,
            r.postings@.len() == 0,
            r.next_ledger_id == 1,
            r.next_posting_id == 1,
    {
        Wallet {
            ledgers: Vec::new(),
            postings: Vec::new(),
            next_ledger_id: 1,
            next_posting_id: 1,
        }
    }

    /// Exact-match lookup of a ledger code.
    pub fn retrieve_ledger_id(&self, code: &str) -> (r: Result<u64, WalletError>)
        ensures
            r is Ok <==> spec_resolve(self.ledgers@, code@) is Some,
            r matches Ok(id) ==> spec_resolve(self.ledgers@, code@) == Some(id),
            r matches Err(e) ==> e is LedgerNotFound,
    {
        let n = self.ledgers.len();
        let mut i: usize = 0;
        proof {
            assert(self.ledgers@.skip(0) =~= self.ledgers@);
        }
        while i < n
            invariant
                i <= n,
                n == self.ledgers@.len(),
                spec_resolve(self.ledgers@, code@)
                    == spec_resolve(self.ledgers@.skip(i as int), code@),
            decreases n - i,
        {
            proof {
                assert(self.ledgers@.skip(i as int)[0] == self.ledgers@[i as int]);
                assert(self.ledgers@.skip(i as int).drop_first()
                    =~= self.ledgers@.skip(i as int + 1));
            }
            if str_eq(self.ledgers[i].code.as_str(), code) {
                return Ok(self.ledgers[i].id);
            }
            i = i + 1;
        }
        proof {
            assert(self.ledgers@.skip(n as int).len() == 0);
        }
        Err(WalletError::LedgerNotFound(String::from_str(code)))
    }

    /// The ledger with a known id.
    pub fn ledger_at_id(&self, id: u64) -> (r: &Ledger)
        requires
            has_ledger_id(self.ledgers@, id as int),
        ensures
            *r == spec_ledger_by_id(self.ledgers@, id as int).unwrap(),
    {
        let n = self.ledgers.len();
        let mut i: usize = 0;
        proof {
            assert(self.ledgers@.skip(0) =~= self.ledgers@);
        }
        while i < n
            invariant
                i <= n,
                n == self.ledgers@.len(),
                spec_ledger_by_id(self.ledgers@, id as int)
                    == spec_ledger_by_id(self.ledgers@.skip(i as int), id as int),
                spec_ledger_by_id(self.ledgers@, id as int) is Some,
            decreases n - i,
        {
            proof {
                assert(self.ledgers@.skip(i as int)[0] == self.ledgers@[i as int]);
                assert(self.ledgers@.skip(i as int).drop_first()
                    =~= self.ledgers@.skip(i as int + 1));
            }
            if self.ledgers[i].id == id {
                return &self.ledgers[i];
            }
            i = i + 1;
        }
        proof {
            assert(self.ledgers@.skip(n as int).len() == 0);
            assert(false);
        }
        &self.ledgers[0]
    }

    /// Creates a ledger. The directory enforces unique codes, standing in
    /// for the store's uniqueness constraint: a duplicate is a store error.
    pub fn add_ledger(
        &mut self,
        code: &str,
        name: &str,
        description: &str,
        sort: &str,
        kind: &str,
    ) -> (r: Result<u64, WalletError>)
        requires
            old(self).wf(),
        ensures
            final(self).wf(),
            r is Ok <==> spec_resolve(old(self).ledgers@, code@) is None
                && old(self).next_ledger_id < u64::MAX,
            r matches Ok(id) ==> {
                &&& id == old(self).next_ledger_id
                &&& final(self).ledgers@.len() == old(self).ledgers@.len() + 1
                &&& final(self).ledgers@.drop_last() == old(self).ledgers@
                &&& final(self).ledgers@.last().id == id
                &&& final(self).ledgers@.last().code@ == code@
                &&& final(self).ledgers@.last().name@ == name@
                &&& final(self).ledgers@.last().description@ == description@
                &&& final(self).ledgers@.last().sort@ == sort@
                &&& final(self).ledgers@.last().kind@ == kind@
                &&& final(self).postings@ == old(self).postings@
                &&& final(self).next_ledger_id == old(self).next_ledger_id + 1
                &&& final(self).next_posting_id == old(self).next_posting_id
                &&& spec_resolve(final(self).ledgers@, code@) == Some(id)
            },
            r is Err ==> final(self).ledgers@ == old(self).ledgers@
                && final(self).postings@ == old(self).postings@
                && final(self).next_ledger_id == old(self).next_ledger_id
                && final(self).next_posting_id == old(self).next_posting_id,
            r matches Err(e) ==> e is Store,
    {
        match self.retrieve_ledger_id(code) {
            Ok(_) => {
                return Err(WalletError::Store(String::from_str(
                    "duplicate key value violates unique constraint on ledger code",
                )));
            },
            Err(_) => {},
        }
        if self.next_ledger_id == u64::MAX {
            return Err(WalletError::Store(String::from_str(
                "ledger identifier space exhausted",
            )));
        }
        let id = self.next_ledger_id;
        let ghost old_ledgers: Seq<Ledger> = self.ledgers@;
        let entry = Ledger {
            id,
            code: String::from_str(code),
            name: String::from_str(name),
            description: String::from_str(description),
            sort: String::from_str(sort),
            kind: String::from_str(kind),
        };
        self.ledgers.push(entry);
        self.next_ledger_id = id + 1;
        proof {
            assert(final(self).ledgers@.drop_last() =~= old_ledgers);
            lemma_resolve_push(old_ledgers, final(self).ledgers@.last());
            lemma_ledger_by_id_push(old_ledgers, final(self).ledgers@.last());
            assert forall|i: int| 0 <= i < final(self).postings@.len()
                implies posting_ok(#[trigger] final(self).postings@[i], final(self).ledgers@) by {
                assert(posting_ok(final(self).postings@[i], old_ledgers));
            }
            assert forall|i: int, j: int| 0 <= i < j < final(self).ledgers@.len()
                implies (#[trigger] final(self).ledgers@[i].code@)
                    != (#[trigger] final(self).ledgers@[j].code@)
                by {
                if j == final(self).ledgers@.len() - 1 {
                    if final(self).ledgers@[i].code@ == code@ {
                        lemma_resolve_finds(old_ledgers, code@, i);
                    }
                }
            }
            assert forall|i: int, j: int| 0 <= i < j < final(self).ledgers@.len()
                implies (#[trigger] final(self).ledgers@[i].id)
                    != (#[trigger] final(self).ledgers@[j].id) by {}
        }
        Ok(id)
    }

    /// Records one spend: validates the amount, resolves both codes, and
    /// appends exactly one posting — or changes nothing at all.
    pub fn proceed_spend(
        &mut self,
        patron: &str,
        outlay: &str,
        amount: u64,
        narration: &str,
        created_at: Option<i64>,
        now: i64,
    ) -> (r: Result<(), WalletError>)
        requires
            old(self).wf(),
            min_ts() <= now <= max_ts(),
            created_at matches Some(t) ==> min_ts() <= t <= max_ts(),
        ensures
            final(self).wf(),
            final(self).ledgers@ == old(self).ledgers@,
            final(self).next_ledger_id == old(self).next_ledger_id,
            r is Ok <==> 1 <= amount <= MAX_AMOUNT_CENTS
                && spec_resolve(old(self).ledgers@, patron@) is Some
                && spec_resolve(old(self).ledgers@, outlay@) is Some
                && old(self).next_posting_id < u64::MAX,
            r is Err ==> final(self).postings@ == old(self).postings@
                && final(self).next_posting_id == old(self).next_posting_id,
            r is Ok ==> {
                &&& final(self).postings@.len() == old(self).postings@.len() + 1
                &&& final(self).postings@.drop_last() == old(self).postings@
                &&& final(self).postings@.last().id == old(self).next_posting_id
                &&& final(self).postings@.last().cr_from
                    == spec_resolve(old(self).ledgers@, patron@).unwrap()
                &&& final(self).postings@.last().db_to
                    == spec_resolve(old(self).ledgers@, outlay@).unwrap()
                &&& final(self).postings@.last().amount == amount
                &&& final(self).postings@.last().narration@ == narration@
                &&& final(self).postings@.last().created_at == (match created_at {
                    Some(t) => t,
                    None => now,
                })
                &&& final(self).next_posting_id == old(self).next_posting_id + 1
            },
            r matches Err(e) ==> {
                if amount == 0 || amount > MAX_AMOUNT_CENTS {
                    e is InvalidAmount
                } else if spec_resolve(old(self).ledgers@, patron@) is None {
                    e is LedgerNotFound
                } else if spec_resolve(old(self).ledgers@, outlay@) is None {
                    e is LedgerNotFound
                } else {
                    e is Store
                }
            },
    {
        if amount == 0 || amount > MAX_AMOUNT_CENTS {
            return Err(WalletError::InvalidAmount(String::from_str(
                "Amount must be positive",
            )));
        }
        let patron_id = match self.retrieve_ledger_id(patron) {
            Ok(id) => id,
            Err(e) => {
                return Err(e);
            },
        };
        let outlay_id = match self.retrieve_ledger_id(outlay) {
            Ok(id) => id,
            Err(e) => {
                return Err(e);
            },
        };
        if self.next_posting_id == u64::MAX {
            return Err(WalletError::Store(String::from_str(
                "posting identifier space exhausted",
            )));
        }
        let id = self.next_posting_id;
        let ts = match created_at {
            Some(t) => t,
            None => now,
        };
        let ghost old_postings: Seq<Posting> = self.postings@;
        let entry = Posting {
            id,
            cr_from: patron_id,
            db_to: outlay_id,
            amount,
            narration: String::from_str(narration),
            created_at: ts,
        };
        proof {
            lemma_resolve_id_exists(self.ledgers@, patron@);
            lemma_resolve_id_exists(self.ledgers@, outlay@);
        }
        self.postings.push(entry);
        self.next_posting_id = id + 1;
        proof {
            assert(final(self).postings@.drop_last() =~= old_postings);
            assert forall|i: int| 0 <= i < final(self).postings@.len()
                implies posting_ok(#[trigger] final(self).postings@[i], final(self).ledgers@) by {
                if i < final(self).postings@.len() - 1 {
                    assert(posting_ok(old_postings[i], old(self).ledgers@));
                }
            }
        }
        Ok(())
    }

    /// Removes every posting and every ledger; identifiers are not reused.
    pub fn clear_tables(&mut self)
        requires
            old(self).wf(),
        ensures
            final(self).wf(),
            final(self).ledgers@.len() == 0,
            final(self).postings@.len() == 0,
            final(self).next_ledger_id == old(self).next_ledger_id,
            final(self).next_posting_id == old(self).next_posting_id,
    {
        self.postings.clear();
        self.ledgers.clear();
    }
}

/// Resolution of a fresh code finds a pushed ledger; other codes still
/// resolve as before.
pub proof fn lemma_resolve_push(ls: Seq<Ledger>, l: Ledger)
    ensures
        spec_resolve(ls, l.code@) is None
            ==> spec_resolve(ls.push(l), l.code@) == Some(l.id),
        forall|c: Seq<char>|
            c != l.code@ ==> #[trigger] spec_resolve(ls.push(l), c) == spec_resolve(ls, c),
    decreases ls.len(),
{
    if ls.len() == 0 {
        assert(ls.push(l)[0] == l);
        assert(ls.push(l).drop_first() =~= Seq::<Ledger>::empty());
        assert forall|c: Seq<char>| c != l.code@
            implies #[trigger] spec_resolve(ls.push(l), c) == spec_resolve(ls, c) by {
            assert(spec_resolve(ls.push(l), c) == spec_resolve(ls.push(l).drop_first(), c));
        }
    } else {
        lemma_resolve_push(ls.drop_first(), l);
        assert(ls.push(l)[0] == ls[0]);
        assert(ls.push(l).drop_first() =~= ls.drop_first().push(l));
        if spec_resolve(ls, l.code@) is None {
            assert(ls[0].code@ != l.code@);
            assert(spec_resolve(ls.drop_first(), l.code@) is None);
            assert(spec_resolve(ls.push(l), l.code@)
                == spec_resolve(ls.drop_first().push(l), l.code@));
        }
        assert forall|c: Seq<char>| c != l.code@
            implies #[trigger] spec_resolve(ls.push(l), c) == spec_resolve(ls, c) by {
            if ls[0].code@ != c {
                assert(spec_resolve(ls.push(l), c) == spec_resolve(ls.drop_first().push(l), c));
                assert(spec_resolve(ls.drop_first().push(l), c)
                    == spec_resolve(ls.drop_first(), c));
            }
        }
    }
}

/// Lookup by id after a push, likewise.
pub proof fn lemma_ledger_by_id_push(ls: Seq<Ledger>, l: Ledger)
    ensures
        spec_ledger_by_id(ls.push(l), l.id as int) is Some,
        forall|id: int|
            id != l.id as int
                ==> #[trigger] spec_ledger_by_id(ls.push(l), id) == spec_ledger_by_id(ls, id),
        forall|id: int|
            spec_ledger_by_id(ls, id) is Some
                ==> #[trigger] spec_ledger_by_id(ls.push(l), id) is Some,
    decreases ls.len(),
{
    if ls.len() == 0 {
        assert(ls.push(l)[0] == l);
        assert(ls.push(l).drop_first() =~= Seq::<Ledger>::empty());
        assert forall|id: int| id != l.id as int
            implies #[trigger] spec_ledger_by_id(ls.push(l), id) == spec_ledger_by_id(ls, id) by {
            assert(spec_ledger_by_id(ls.push(l), id)
                == spec_ledger_by_id(ls.push(l).drop_first(), id));
        }
    } else {
        lemma_ledger_by_id_push(ls.drop_first(), l);
        assert(ls.push(l)[0] == ls[0]);
        assert(ls.push(l).drop_first() =~= ls.drop_first().push(l));
        if ls[0].id != l.id {
            assert(spec_ledger_by_id(ls.push(l), l.id as int)
                == spec_ledger_by_id(ls.drop_first().push(l), l.id as int));
        }
        assert forall|id: int| id != l.id as int
            implies #[trigger] spec_ledger_by_id(ls.push(l), id) == spec_ledger_by_id(ls, id) by {
            if ls[0].id != id {
                assert(spec_ledger_by_id(ls.push(l), id)
                    == spec_ledger_by_id(ls.drop_first().push(l), id));
                assert(spec_ledger_by_id(ls.drop_first().push(l), id)
                    == spec_ledger_by_id(ls.drop_first(), id));
            }
        }
        assert forall|id: int| spec_ledger_by_id(ls, id) is Some
            implies #[trigger] spec_ledger_by_id(ls.push(l), id) is Some by {
            if ls[0].id != id {
                assert(spec_ledger_by_id(ls.push(l), id)
                    == spec_ledger_by_id(ls.drop_first().push(l), id));
                assert(spec_ledger_by_id(ls.drop_first(), id) is Some);
            }
        }
    }
}

/// A resolvable code names a ledger that is present, so its id is present.
pub proof fn lemma_resolve_id_exists(ls: Seq<Ledger>, code: Seq<char>)
    ensures
        spec_resolve(ls, code) matches Some(id) ==> has_ledger_id(ls, id as int),
    decreases ls.len(),
{
    if ls.len() > 0 {
        lemma_resolve_id_exists(ls.drop_first(), code);
    }
}

/// If some ledger at index `i` bears `code`, resolution finds a ledger.
pub proof fn lemma_resolve_finds(ls: Seq<Ledger>, code: Seq<char>, i: int)
    requires
        0 <= i < ls.len(),
        ls[i].code@ == code,
    ensures
        spec_resolve(ls, code) is Some,
    decreases ls.len(),
{
    if i > 0 {
        lemma_resolve_finds(ls.drop_first(), code, i - 1);
    }
}

} // verus!
