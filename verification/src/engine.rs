use vstd::prelude::*;
use vstd::string::StringExecFns;
use crate::balances::currencies_unique;
use crate::balances::duplicate_balances;
use crate::balances::entries_non_negative;
use crate::balances::entries_total;
use crate::balances::lemma_entries_total_non_negative;
use crate::balances::lookup_amount;
use crate::balances::set_balance;
use crate::errors::LedgerError;
use crate::ids::mint_id;
use crate::money::currency_is_valid;
use crate::money::currency_ok;
use crate::money::Money;
use crate::time::now_timestamp;
use crate::time::Timestamp;

verus! {

/// An account: an opaque unique id, its creation time, and one balance per
/// currency.  A currency absent from `balances` reads as zero.  Accounts
/// are created once and never removed.
#[derive(Clone, Debug, PartialEq, Eq)]
pub struct Account {
    pub id: String,
    pub created_at: Timestamp,
    pub balances: Vec<Money>,
}

/// A committed transfer.  Immutable once created; `sequence` is assigned
/// exactly once, at commit time, and gives the log its total order.
#[derive(Clone, Debug, PartialEq, Eq)]
pub struct Transaction {
    pub id: String,
    pub created_at: Timestamp,
    pub from_account_id: String,
    pub to_account_id: String,
    pub currency: String,
    pub amount: i64,
    pub idempotency_key: Option<String>,
    pub sequence: u64,
}

/// One binding of the idempotency index: a key and the transaction its
/// first successful use committed.
struct IdemEntry {
    key: String,
    tx: Transaction,
}

/// The ledger engine: accounts, the append-only transaction log, the
/// idempotency index, and the monotonic sequence counter.  All four change
/// together or not at all; the contracts of the mutating operations state
/// exactly which states are reachable.
pub struct Ledger {
    accounts: Vec<Account>,
    transactions: Vec<Transaction>,
    idempotency: Vec<IdemEntry>,
    sequence: u64,
}

/// No two accounts share an id.
pub open spec fn ids_unique(s: Seq<Account>) -> bool {
    forall|i: int, j: int| 0 <= i < j < s.len() ==> s[i].id@ != s[j].id@
}

/// Some account in `s` has id `id`.
pub open spec fn seq_has_account(s: Seq<Account>, id: Seq<char>) -> bool {
    exists|i: int| 0 <= i < s.len() && s[i].id@ == id
}

/// The index of the account with id `id`, when one exists.
pub open spec fn account_index(s: Seq<Account>, id: Seq<char>) -> int {
    choose|i: int| 0 <= i < s.len() && s[i].id@ == id
}

/// The balance account `id` holds in currency `c`; zero when the account
/// is absent or holds no entry for `c`.
pub open spec fn seq_balance(s: Seq<Account>, id: Seq<char>, c: Seq<char>) -> int {
    if seq_has_account(s, id) {
        entries_total(s[account_index(s, id)].balances@, c)
    } else {
        0
    }
}

/// The sum of the balances every account holds in currency `c`.
pub open spec fn accounts_total(s: Seq<Account>, c: Seq<char>) -> int
    decreases s.len(),
{
    if s.len() <= 0 {
        0
    } else {
        accounts_total(s.drop_last(), c) + entries_total(s.last().balances@, c)
    }
}

/// The page size `list_transactions` actually uses: a requested limit of
/// zero, or one above 1000, is silently replaced by the default of 100.
pub open spec fn clamp_limit(limit: usize) -> int {
    if limit == 0 || limit > 1000 {
        100
    } else {
        limit as int
    }
}

/// An account's own invariant: one entry per currency, none negative.
pub open spec fn account_wf(a: Account) -> bool {
    currencies_unique(a.balances@) && entries_non_negative(a.balances@)
}

/// No two bindings of the idempotency index share a key.
spec fn keys_unique(s: Seq<IdemEntry>) -> bool {
    forall|i: int, j: int| 0 <= i < j < s.len() ==> s[i].key@ != s[j].key@
}

/// Some binding in `s` has key `k`.
spec fn seq_has_key(s: Seq<IdemEntry>, k: Seq<char>) -> bool {
    exists|i: int| 0 <= i < s.len() && s[i].key@ == k
}

/// The index of the binding with key `k`, when one exists.
spec fn key_index(s: Seq<IdemEntry>, k: Seq<char>) -> int {
    choose|i: int| 0 <= i < s.len() && s[i].key@ == k
}

/// Whether a stored optional key and a caller-supplied one are the same.
pub open spec fn key_matches(stored: Option<String>, given: Option<&str>) -> bool {
    match (stored, given) {
        (Option::None, Option::None) => true,
        (Option::Some(s), Option::Some(g)) => s@ == g@,
        _ => false,
    }
}

proof fn lemma_key_index(s: Seq<IdemEntry>, i: int)
    requires
        keys_unique(s),
        0 <= i < s.len(),
    ensures
        seq_has_key(s, s[i].key@),
        key_index(s, s[i].key@) == i,
{
    let k = s[i].key@;
    assert(seq_has_key(s, k));
    let j = key_index(s, k);
    assert(0 <= j < s.len() && s[j].key@ == k);
    if j != i {
        if j < i {
            assert(s[j].key@ != s[i].key@);
        } else {
            assert(s[i].key@ != s[j].key@);
        }
        assert(false);
    }
}

proof fn lemma_idem_push(s: Seq<IdemEntry>, e: IdemEntry, k: Seq<char>)
    requires
        keys_unique(s),
        !seq_has_key(s, e.key@),
    ensures
        keys_unique(s.push(e)),
        seq_has_key(s.push(e), k) == (seq_has_key(s, k) || k == e.key@),
        k == e.key@ ==> s.push(e)[key_index(s.push(e), k)] == e,
        k != e.key@ && seq_has_key(s, k) ==> s.push(e)[key_index(s.push(e), k)]
            == s[key_index(s, k)],
{
    let t = s.push(e);
    assert(forall|m: int| 0 <= m < s.len() ==> #[trigger] t[m] == s[m]);
    assert(t[s.len() as int] == e);
    assert forall|i: int, j: int| 0 <= i < j < t.len() implies t[i].key@ != t[j].key@ by {
        if j < s.len() {
            assert(s[i].key@ != s[j].key@);
        } else {
            assert(s[i].key@ != e.key@);
        }
    }
    if k == e.key@ {
        assert(seq_has_key(t, k));
        let j2 = key_index(t, k);
        assert(0 <= j2 < t.len() && t[j2].key@ == k);
        if j2 < s.len() {
            assert(s[j2].key@ == k);
            assert(seq_has_key(s, e.key@));
            assert(false);
        }
    } else {
        if seq_has_key(s, k) {
            let j = key_index(s, k);
            assert(0 <= j < s.len() && s[j].key@ == k);
            assert(t[j].key@ == k);
            assert(seq_has_key(t, k));
            let j2 = key_index(t, k);
            assert(0 <= j2 < t.len() && t[j2].key@ == k);
            if j2 == s.len() {
                assert(false);
            }
            assert(s[j2].key@ == k);
            if j2 != j {
                if j < j2 {
                    assert(s[j].key@ != s[j2].key@);
                } else {
                    assert(s[j2].key@ != s[j].key@);
                }
                assert(false);
            }
        } else {
            assert forall|m: int| 0 <= m < t.len() implies #[trigger] t[m].key@ != k by {
                if m < s.len() {
                    assert(s[m].key@ != k);
                }
            }
            assert(!seq_has_key(t, k));
        }
    }
}

pub proof fn lemma_account_index(s: Seq<Account>, i: int)
    requires
        ids_unique(s),
        0 <= i < s.len(),
    ensures
        seq_has_account(s, s[i].id@),
        account_index(s, s[i].id@) == i,
{
    let id = s[i].id@;
    assert(seq_has_account(s, id));
    let j = account_index(s, id);
    assert(0 <= j < s.len() && s[j].id@ == id);
    if j != i {
        if j < i {
            assert(s[j].id@ != s[i].id@);
        } else {
            assert(s[i].id@ != s[j].id@);
        }
        assert(false);
    }
}

pub proof fn lemma_accounts_total_update(s: Seq<Account>, i: int, a2: Account, c: Seq<char>)
    requires
        0 <= i < s.len(),
    ensures
        accounts_total(s.update(i, a2), c) == accounts_total(s, c)
            - entries_total(s[i].balances@, c) + entries_total(a2.balances@, c),
    decreases s.len(),
{
    let t = s.update(i, a2);
    if i == s.len() - 1 {
        assert(t.drop_last() =~= s.drop_last());
        assert(t.last() == a2);
    } else {
        assert(t.drop_last() =~= s.drop_last().update(i, a2));
        lemma_accounts_total_update(s.drop_last(), i, a2, c);
        assert(t.last() == s.last());
    }
}

pub proof fn lemma_accounts_total_push(s: Seq<Account>, a: Account, c: Seq<char>)
    ensures
        accounts_total(s.push(a), c) == accounts_total(s, c) + entries_total(a.balances@, c),
{
    assert(s.push(a).drop_last() =~= s);
    assert(s.push(a).last() == a);
}

/// Every balance a well-formed account list holds is non-negative.
pub proof fn lemma_seq_balance_non_negative(s: Seq<Account>, id: Seq<char>, c: Seq<char>)
    requires
        forall|i: int| 0 <= i < s.len() ==> account_wf(#[trigger] s[i]),
    ensures
        seq_balance(s, id, c) >= 0,
{
    if seq_has_account(s, id) {
        let i = account_index(s, id);
        assert(0 <= i < s.len() && s[i].id@ == id);
        lemma_entries_total_non_negative(s[i].balances@, c);
    }
}

/// Replacing the account at `i` by one with the same id moves only that
/// account's balances.
pub proof fn lemma_seq_balance_update(s: Seq<Account>, i: int, a2: Account, id: Seq<char>, c: Seq<char>)
    requires
        ids_unique(s),
        0 <= i < s.len(),
        a2.id@ == s[i].id@,
    ensures
        ids_unique(s.update(i, a2)),
        seq_has_account(s.update(i, a2), id) == seq_has_account(s, id),
        seq_balance(s.update(i, a2), id, c) == if id == s[i].id@ {
            entries_total(a2.balances@, c)
        } else {
            seq_balance(s, id, c)
        },
{
    let t = s.update(i, a2);
    assert(forall|k: int| 0 <= k < t.len() ==> #[trigger] t[k].id@ == s[k].id@);
    assert(ids_unique(t));
    if seq_has_account(s, id) {
        let j = account_index(s, id);
        assert(0 <= j < s.len() && s[j].id@ == id);
        assert(t[j].id@ == id);
        assert(seq_has_account(t, id));
        let j2 = account_index(t, id);
        assert(0 <= j2 < t.len() && t[j2].id@ == id);
        assert(s[j2].id@ == id);
        if j2 != j {
            if j < j2 {
                assert(s[j].id@ != s[j2].id@);
            } else {
                assert(s[j2].id@ != s[j].id@);
            }
            assert(false);
        }
        if id == s[i].id@ {
            if j != i {
                if j < i {
                    assert(s[j].id@ != s[i].id@);
                } else {
                    assert(s[i].id@ != s[j].id@);
                }
                assert(false);
            }
            assert(t[j] == a2);
        } else {
            assert(j != i);
            assert(t[j] == s[j]);
        }
    } else {
        assert forall|k: int| 0 <= k < t.len() implies #[trigger] t[k].id@ != id by {
            assert(s[k].id@ != id);
        }
        assert(!seq_has_account(t, id));
    }
}

/// Appending an account with a fresh id leaves every other account's
/// balances as they were.
pub proof fn lemma_seq_balance_push(s: Seq<Account>, a: Account, id: Seq<char>, c: Seq<char>)
    requires
        ids_unique(s),
        !seq_has_account(s, a.id@),
    ensures
        ids_unique(s.push(a)),
        seq_has_account(s.push(a), id) == (seq_has_account(s, id) || id == a.id@),
        seq_balance(s.push(a), id, c) == if id == a.id@ {
            entries_total(a.balances@, c)
        } else {
            seq_balance(s, id, c)
        },
{
    let t = s.push(a);
    assert(forall|k: int| 0 <= k < s.len() ==> #[trigger] t[k] == s[k]);
    assert(t[s.len() as int] == a);
    assert forall|i: int, j: int| 0 <= i < j < t.len() implies t[i].id@ != t[j].id@ by {
        if j < s.len() {
            assert(s[i].id@ != s[j].id@);
        } else {
            assert(s[i].id@ != a.id@);
        }
    }
    if id == a.id@ {
        assert(seq_has_account(t, id));
        let j2 = account_index(t, id);
        assert(0 <= j2 < t.len() && t[j2].id@ == id);
        if j2 < s.len() {
            assert(s[j2].id@ == id);
            assert(seq_has_account(s, a.id@));
            assert(false);
        }
        assert(t[j2] == a);
    } else {
        if seq_has_account(s, id) {
            let j = account_index(s, id);
            assert(0 <= j < s.len() && s[j].id@ == id);
            assert(t[j].id@ == id);
            assert(seq_has_account(t, id));
            let j2 = account_index(t, id);
            assert(0 <= j2 < t.len() && t[j2].id@ == id);
            if j2 == s.len() {
                assert(false);
            }
            assert(s[j2].id@ == id);
            if j2 != j {
                if j < j2 {
                    assert(s[j].id@ != s[j2].id@);
                } else {
                    assert(s[j2].id@ != s[j].id@);
                }
                assert(false);
            }
            assert(t[j] == s[j]);
        } else {
            assert forall|k: int| 0 <= k < t.len() implies #[trigger] t[k].id@ != id by {
                if k < s.len() {
                    assert(s[k].id@ != id);
                }
            }
            assert(!seq_has_account(t, id));
        }
    }
}

impl Account {
    /// An equal copy, so that callers never alias engine state.
    pub(crate) fn duplicate(&self) -> (r: Account)
        ensures
            r.id@ == self.id@,
            r.created_at == self.created_at,
            r.balances@ == self.balances@,
    {
        Account {
            id: self.id.clone(),
            created_at: self.created_at,
            balances: duplicate_balances(&self.balances),
        }
    }
}

impl Transaction {
    /// An equal copy, so that callers never alias engine state.
    pub(crate) fn duplicate(&self) -> (r: Transaction)
        ensures
            r == *self,
    {
        let key: Option<String> = match &self.idempotency_key {
            Some(k) => Some(k.clone()),
            None => None,
        };
        Transaction {
            id: self.id.clone(),
            created_at: self.created_at,
            from_account_id: self.from_account_id.clone(),
            to_account_id: self.to_account_id.clone(),
            currency: self.currency.clone(),
            amount: self.amount,
            idempotency_key: key,
            sequence: self.sequence,
        }
    }
}

impl Ledger {
    /// The accounts, in creation order.
    pub closed spec fn accounts_seq(&self) -> Seq<Account> {
        self.accounts@
    }

    /// The committed transactions, in ascending sequence order.
    pub closed spec fn log(&self) -> Seq<Transaction> {
        self.transactions@
    }

    /// The value of the monotonic sequence counter.
    pub closed spec fn seq_no(&self) -> u64 {
        self.sequence
    }

    /// Whether an account with id `id` exists.
    pub closed spec fn has_account(&self, id: Seq<char>) -> bool {
        seq_has_account(self.accounts@, id)
    }

    /// The account with id `id`, when one exists.
    pub closed spec fn account_at(&self, id: Seq<char>) -> Account {
        self.accounts@[account_index(self.accounts@, id)]
    }

    /// The balance account `id` holds in currency `c`; zero when either
    /// the account or the currency entry is absent.
    pub closed spec fn balance_of(&self, id: Seq<char>, c: Seq<char>) -> int {
        seq_balance(self.accounts@, id, c)
    }

    /// The sum over all accounts of the balance held in currency `c`.
    pub closed spec fn total_of(&self, c: Seq<char>) -> int {
        accounts_total(self.accounts@, c)
    }

    /// Whether idempotency key `k` has already committed a transfer.
    pub closed spec fn has_idem(&self, k: Seq<char>) -> bool {
        seq_has_key(self.idempotency@, k)
    }

    /// The transaction the first successful use of key `k` committed.
    pub closed spec fn idem_tx(&self, k: Seq<char>) -> Transaction {
        self.idempotency@[key_index(self.idempotency@, k)].tx
    }

    /// Whether this call would replay an already-committed transfer: a key
    /// was supplied and is already present in the idempotency index.
    pub open spec fn transfer_replay(&self, key: Option<&str>) -> bool {
        match key {
            Option::Some(k) => self.has_idem(k@),
            Option::None => false,
        }
    }

    /// The engine's invariant, established by `new` and preserved by every
    /// operation:
    /// - account ids are unique, and each account is well-formed
    ///   (one entry per currency, every balance non-negative);
    /// - the log is sorted by construction: the transaction at position
    ///   `i` carries sequence `i + 1`, so sequences are unique and
    ///   strictly increasing, and the counter equals the log's length;
    /// - idempotency keys are unique, and each one maps to the committed
    ///   transaction that first used it, found in the log at its sequence.
    pub closed spec fn wf(&self) -> bool {
        &&& ids_unique(self.accounts@)
        &&& forall|i: int|
            0 <= i < self.accounts@.len() ==> account_wf(#[trigger] self.accounts@[i])
        &&& forall|i: int|
            0 <= i < self.transactions@.len() ==> (#[trigger] self.transactions@[i]).sequence == i + 1
        &&& self.sequence == self.transactions@.len()
        &&& keys_unique(self.idempotency@)
        &&& forall|i: int|
            0 <= i < self.idempotency@.len() ==> {
                let t = (#[trigger] self.idempotency@[i]).tx;
                &&& 1 <= t.sequence <= self.transactions@.len()
                &&& self.transactions@[t.sequence - 1] == t
                &&& match t.idempotency_key {
                    Some(k) => k@ == self.idempotency@[i].key@,
                    None => false,
                }
            }
    }

    /// A fresh, empty ledger.
    pub fn new() -> (l: Ledger)
        ensures
            l.wf(),
            l.accounts_seq().len() == 0,
            l.log().len() == 0,
            l.seq_no() == 0,
            forall|k: Seq<char>| !l.has_idem(k),
    {
        Ledger {
            accounts: Vec::new(),
            transactions: Vec::new(),
            idempotency: Vec::new(),
            sequence: 0,
        }
    }

    /// Whether no account has been created yet.
    pub fn is_empty(&self) -> (r: bool)
        ensures
            r == (self.accounts_seq().len() == 0),
    {
        self.accounts.len() == 0
    }

    /// How many accounts the ledger holds.
    pub fn account_count(&self) -> (n: usize)
        ensures
            n == self.accounts_seq().len(),
    {
        self.accounts.len()
    }

    /// The index of the account with the given id, when one exists.
    fn find_account(&self, id: &String) -> (r: Option<usize>)
        ensures
            match r {
                Some(i) => i < self.accounts_seq().len()
                    && self.accounts_seq()[i as int].id@ == id@,
                None => !self.has_account(id@),
            },
    {
        let n = self.accounts.len();
        let mut i: usize = 0;
        while i < n
            invariant
                n == self.accounts@.len(),
                i <= n,
                forall|j: int| 0 <= j < i ==> self.accounts@[j].id@ != id@,
            decreases n - i,
        {
            if self.accounts[i].id == *id {
                return Some(i);
            }
            i = i + 1;
        }
        proof {
            if seq_has_account(self.accounts@, id@) {
                let j = account_index(self.accounts@, id@);
                assert(0 <= j < self.accounts@.len() && self.accounts@[j].id@ == id@);
                assert(false);
            }
        }
        None
    }

    /// Creates an account.  A valid (not whitespace-only) currency and a
    /// non-negative initial amount are required; a strictly positive
    /// initial amount mints that value under the given currency, while a
    /// zero one leaves the account with no balance entries.  No log entry
    /// is written, no sequence number is consumed, and the idempotency
    /// index is untouched: account creation is not transfer traffic.
    ///
    /// The freshly minted id is stated to be fresh only under the
    /// hypothesis `!old(self).has_account(a.id@)`: id generation is
    /// probabilistic (see `mint_id`), so the contract says what holds
    /// either way rather than assume uniqueness of the generator.
    pub fn create_account(&mut self, initial: Money) -> (r: Result<Account, LedgerError>)
        requires
            old(self).wf(),
        ensures
            final(self).wf(),
            final(self).log() == old(self).log(),
            final(self).seq_no() == old(self).seq_no(),
            forall|k: Seq<char>| final(self).has_idem(k) == old(self).has_idem(k),
            forall|k: Seq<char>|
                old(self).has_idem(k) ==> final(self).idem_tx(k) == old(self).idem_tx(k),
            r is Err ==> *final(self) == *old(self),
            (r == Err::<Account, LedgerError>(LedgerError::InvalidCurrency))
                <==> !currency_ok(initial.currency@),
            (r == Err::<Account, LedgerError>(LedgerError::InvalidAmount))
                <==> (currency_ok(initial.currency@) && initial.amount < 0),
            r is Ok <==> (currency_ok(initial.currency@) && initial.amount >= 0),
            r matches Ok(a) ==> {
                &&& a.id@.len() == 26
                &&& final(self).has_account(a.id@)
                &&& a.balances@.len() == (if initial.amount > 0 { 1int } else { 0int })
                &&& (initial.amount > 0 ==> a.balances@[0].currency@ == initial.currency@
                    && a.balances@[0].amount == initial.amount)
                &&& forall|c: Seq<char>|
                    final(self).balance_of(a.id@, c) == (if c == initial.currency@ {
                        initial.amount as int
                    } else {
                        0
                    })
                &&& forall|id: Seq<char>, c: Seq<char>|
                    id != a.id@ ==> final(self).balance_of(id, c) == old(self).balance_of(id, c)
                &&& forall|id: Seq<char>|
                    id != a.id@ ==> final(self).has_account(id) == old(self).has_account(id)
                &&& !old(self).has_account(a.id@) ==> {
                    &&& final(self).accounts_seq().len() == old(self).accounts_seq().len() + 1
                    &&& forall|c: Seq<char>|
                        final(self).total_of(c) == old(self).total_of(c)
                            + (if c == initial.currency@ { initial.amount as int } else { 0 })
                }
            },
    {
        if !currency_is_valid(initial.currency.as_str()) {
            return Err(LedgerError::InvalidCurrency);
        }
        if initial.amount < 0 {
            return Err(LedgerError::InvalidAmount);
        }

        let id = mint_id();
        let now = now_timestamp();

        let mut balances: Vec<Money> = Vec::new();
        if initial.amount > 0 {
            balances.push(Money { currency: initial.currency, amount: initial.amount });
        }
        let record = Account { id, created_at: now, balances };
        let ghost rec = record;
        let snapshot = record.duplicate();

        proof {
            assert(account_wf(rec));
            assert forall|c: Seq<char>|
                entries_total(rec.balances@, c) == (if c == initial.currency@ {
                    initial.amount as int
                } else {
                    0
                }) by {
                if rec.balances@.len() == 0 {
                } else {
                    assert(rec.balances@.drop_last() =~= Seq::<Money>::empty());
                    assert(entries_total(rec.balances@.drop_last(), c) == 0);
                }
            }
        }

        let ghost accts0 = self.accounts@;
        match self.find_account(&record.id) {
            Some(i) => {
                proof {
                    lemma_account_index(accts0, i as int);
                }
                self.accounts[i] = record;
                proof {
                    assert(self.accounts@ =~= accts0.update(i as int, rec));
                    assert forall|id: Seq<char>, c: Seq<char>|
                        seq_balance(self.accounts@, id, c) == (if id == rec.id@ {
                            entries_total(rec.balances@, c)
                        } else {
                            seq_balance(accts0, id, c)
                        }) by {
                        lemma_seq_balance_update(accts0, i as int, rec, id, c);
                    }
                    assert forall|id: Seq<char>|
                        seq_has_account(self.accounts@, id) == seq_has_account(accts0, id) by {
                        lemma_seq_balance_update(accts0, i as int, rec, id, Seq::<char>::empty());
                    }
                    assert(ids_unique(self.accounts@)) by {
                        lemma_seq_balance_update(accts0, i as int, rec, rec.id@, Seq::<char>::empty());
                    }
                    assert(seq_has_account(self.accounts@, rec.id@));
                    assert forall|j: int|
                        0 <= j < self.accounts@.len() implies account_wf(
                        #[trigger] self.accounts@[j]) by {
                        if j != i {
                            assert(self.accounts@[j] == accts0[j]);
                        }
                    }
                }
                Ok(snapshot)
            }
            None => {
                self.accounts.push(record);
                proof {
                    assert forall|id: Seq<char>, c: Seq<char>|
                        seq_balance(self.accounts@, id, c) == (if id == rec.id@ {
                            entries_total(rec.balances@, c)
                        } else {
                            seq_balance(accts0, id, c)
                        }) by {
                        lemma_seq_balance_push(accts0, rec, id, c);
                    }
                    assert forall|id: Seq<char>|
                        seq_has_account(self.accounts@, id)
                            == (seq_has_account(accts0, id) || id == rec.id@) by {
                        lemma_seq_balance_push(accts0, rec, id, Seq::<char>::empty());
                    }
                    assert(ids_unique(self.accounts@)) by {
                        lemma_seq_balance_push(accts0, rec, rec.id@, Seq::<char>::empty());
                    }
                    assert(seq_has_account(self.accounts@, rec.id@));
                    assert forall|j: int|
                        0 <= j < self.accounts@.len() implies account_wf(
                        #[trigger] self.accounts@[j]) by {
                        if j < accts0.len() {
                            assert(self.accounts@[j] == accts0[j]);
                        } else {
                            assert(self.accounts@[j] == rec);
                        }
                    }
                    assert forall|c: Seq<char>|
                        accounts_total(self.accounts@, c) == accounts_total(accts0, c)
                            + (if c == initial.currency@ { initial.amount as int } else { 0 }) by {
                        lemma_accounts_total_push(accts0, rec, c);
                    }
                }
                Ok(snapshot)
            }
        }
    }

    /// The index of the idempotency binding with the given key, when one
    /// exists.
    fn find_idem(&self, key: &String) -> (r: Option<usize>)
        ensures
            match r {
                Some(i) => i < self.idempotency@.len()
                    && self.idempotency@[i as int].key@ == key@,
                None => !self.has_idem(key@),
            },
    {
        let n = self.idempotency.len();
        let mut i: usize = 0;
        while i < n
            invariant
                n == self.idempotency@.len(),
                i <= n,
                forall|j: int| 0 <= j < i ==> self.idempotency@[j].key@ != key@,
            decreases n - i,
        {
            if self.idempotency[i].key == *key {
                return Some(i);
            }
            i = i + 1;
        }
        proof {
            if seq_has_key(self.idempotency@, key@) {
                let j = key_index(self.idempotency@, key@);
                assert(0 <= j < self.idempotency@.len() && self.idempotency@[j].key@ == key@);
                assert(false);
            }
        }
        None
    }

    /// Moves `amount` from one account to the other, atomically: either a
    /// transaction commits — the source is debited, the destination is
    /// credited, the next sequence number is assigned and the log grows by
    /// that one entry — or the ledger is left exactly as it was.
    ///
    /// When a key is supplied that already committed a transfer, that
    /// transaction is returned unchanged and nothing else happens,
    /// whatever the rest of the arguments say: the first use wins.
    ///
    /// A self-transfer is defined behavior: it nets to the same balances
    /// but still consumes a sequence number and writes a log entry.
    ///
    /// Two machine limits are rejected as `InvalidAmount` before any
    /// mutation: a credit that would push the destination balance past the
    /// 64-bit range, and a sequence counter that has reached its maximum.
    pub fn transfer(
        &mut self,
        from_id: &str,
        to_id: &str,
        amount: Money,
        idempotency_key: Option<&str>,
    ) -> (r: Result<Transaction, LedgerError>)
        requires
            old(self).wf(),
        ensures
            final(self).wf(),
            // conservation: a transfer never mints nor destroys value
            forall|c: Seq<char>| final(self).total_of(c) == old(self).total_of(c),
            // a transfer never creates nor removes accounts
            forall|id: Seq<char>| final(self).has_account(id) == old(self).has_account(id),
            // atomic rejection: a failure leaves the ledger untouched
            r is Err ==> *final(self) == *old(self),
            (r == Err::<Transaction, LedgerError>(LedgerError::InvalidCurrency))
                <==> !currency_ok(amount.currency@),
            (r == Err::<Transaction, LedgerError>(LedgerError::NotFound))
                <==> (currency_ok(amount.currency@) && amount.amount > 0
                    && !old(self).transfer_replay(idempotency_key)
                    && !(old(self).has_account(from_id@) && old(self).has_account(to_id@))),
            (r == Err::<Transaction, LedgerError>(LedgerError::InsufficientFunds))
                <==> (currency_ok(amount.currency@) && amount.amount > 0
                    && !old(self).transfer_replay(idempotency_key)
                    && old(self).has_account(from_id@) && old(self).has_account(to_id@)
                    && old(self).balance_of(from_id@, amount.currency@) < amount.amount),
            (r == Err::<Transaction, LedgerError>(LedgerError::InvalidAmount))
                <==> (currency_ok(amount.currency@) && (amount.amount <= 0
                    || (!old(self).transfer_replay(idempotency_key)
                        && amount.amount > 0
                        && old(self).has_account(from_id@) && old(self).has_account(to_id@)
                        && old(self).balance_of(from_id@, amount.currency@) >= amount.amount
                        && (old(self).seq_no() == u64::MAX
                            || (from_id@ != to_id@
                                && old(self).balance_of(to_id@, amount.currency@)
                                    + amount.amount > i64::MAX))))),
            // idempotent replay: the stored transaction comes back
            // unchanged and no state moves
            (currency_ok(amount.currency@) && amount.amount > 0
                && old(self).transfer_replay(idempotency_key)) ==> {
                &&& *final(self) == *old(self)
                &&& match idempotency_key {
                    Option::Some(k) => r == Ok::<Transaction, LedgerError>(old(self).idem_tx(k@)),
                    Option::None => false,
                }
            },
            // commit
            (currency_ok(amount.currency@) && amount.amount > 0
                && !old(self).transfer_replay(idempotency_key)
                && old(self).has_account(from_id@) && old(self).has_account(to_id@)
                && old(self).balance_of(from_id@, amount.currency@) >= amount.amount
                && old(self).seq_no() < u64::MAX
                && (from_id@ == to_id@
                    || old(self).balance_of(to_id@, amount.currency@) + amount.amount
                        <= i64::MAX)) ==> (r matches Ok(tx) && {
                &&& tx.sequence == old(self).seq_no() + 1
                &&& final(self).seq_no() == old(self).seq_no() + 1
                &&& tx.from_account_id@ == from_id@
                &&& tx.to_account_id@ == to_id@
                &&& tx.currency@ == amount.currency@
                &&& tx.amount == amount.amount
                &&& tx.id@.len() == 26
                &&& key_matches(tx.idempotency_key, idempotency_key)
                &&& final(self).log() == old(self).log().push(tx)
                &&& (if from_id@ == to_id@ {
                    forall|id: Seq<char>, c: Seq<char>|
                        final(self).balance_of(id, c) == old(self).balance_of(id, c)
                } else {
                    &&& final(self).balance_of(from_id@, amount.currency@)
                        == old(self).balance_of(from_id@, amount.currency@) - amount.amount
                    &&& final(self).balance_of(to_id@, amount.currency@)
                        == old(self).balance_of(to_id@, amount.currency@) + amount.amount
                    &&& forall|id: Seq<char>, c: Seq<char>|
                        !(id == from_id@ && c == amount.currency@)
                            && !(id == to_id@ && c == amount.currency@)
                            ==> final(self).balance_of(id, c) == old(self).balance_of(id, c)
                })
                &&& forall|k2: Seq<char>|
                    old(self).has_idem(k2) ==> final(self).has_idem(k2)
                        && final(self).idem_tx(k2) == old(self).idem_tx(k2)
                &&& match idempotency_key {
                    Option::Some(k) => final(self).has_idem(k@) && final(self).idem_tx(k@) == tx
                        && forall|k2: Seq<char>|
                            k2 != k@ ==> final(self).has_idem(k2) == old(self).has_idem(k2),
                    Option::None => forall|k2: Seq<char>|
                        final(self).has_idem(k2) == old(self).has_idem(k2),
                }
            }),
    {
        if !currency_is_valid(amount.currency.as_str()) {
            return Err(LedgerError::InvalidCurrency);
        }
        if amount.amount <= 0 {
            return Err(LedgerError::InvalidAmount);
        }

        if let Some(key) = idempotency_key {
            let key_owned = String::from_str(key);
            if let Some(i) = self.find_idem(&key_owned) {
                proof {
                    lemma_key_index(self.idempotency@, i as int);
                }
                return Ok(self.idempotency[i].tx.duplicate());
            }
        }

        let from_owned = String::from_str(from_id);
        let to_owned = String::from_str(to_id);
        let from_idx = match self.find_account(&from_owned) {
            Some(i) => i,
            None => {
                return Err(LedgerError::NotFound);
            }
        };
        let to_idx = match self.find_account(&to_owned) {
            Some(i) => i,
            None => {
                return Err(LedgerError::NotFound);
            }
        };
        let ghost accts0 = self.accounts@;
        proof {
            lemma_account_index(accts0, from_idx as int);
            lemma_account_index(accts0, to_idx as int);
        }

        let from_bal = lookup_amount(&self.accounts[from_idx].balances, &amount.currency);
        if from_bal < amount.amount {
            return Err(LedgerError::InsufficientFunds);
        }
        if self.sequence == u64::MAX {
            return Err(LedgerError::InvalidAmount);
        }

        let same = from_idx == to_idx;
        proof {
            if from_idx != to_idx {
                assert(accts0[from_idx as int].id@ != accts0[to_idx as int].id@) by {
                    if from_idx < to_idx {
                        assert(accts0[from_idx as int].id@ != accts0[to_idx as int].id@);
                    } else {
                        assert(accts0[to_idx as int].id@ != accts0[from_idx as int].id@);
                    }
                }
            }
            assert(same == (from_id@ == to_id@));
        }

        let ghost cur = amount.currency@;
        if !same {
            let to_bal = lookup_amount(&self.accounts[to_idx].balances, &amount.currency);
            proof {
                lemma_entries_total_non_negative(accts0[to_idx as int].balances@, cur);
            }
            if to_bal > i64::MAX - amount.amount {
                return Err(LedgerError::InvalidAmount);
            }

            set_balance(
                &mut self.accounts[from_idx].balances,
                &amount.currency,
                from_bal - amount.amount,
            );
            let ghost accts1 = self.accounts@;
            proof {
                let a1 = accts1[from_idx as int];
                assert(accts1 =~= accts0.update(from_idx as int, a1));
                assert(a1.id@ == accts0[from_idx as int].id@);
                assert forall|id: Seq<char>, c: Seq<char>|
                    seq_balance(accts1, id, c) == (if id == from_id@ {
                        entries_total(a1.balances@, c)
                    } else {
                        seq_balance(accts0, id, c)
                    }) by {
                    lemma_seq_balance_update(accts0, from_idx as int, a1, id, c);
                }
                assert forall|id: Seq<char>|
                    seq_has_account(accts1, id) == seq_has_account(accts0, id) by {
                    lemma_seq_balance_update(accts0, from_idx as int, a1, id, Seq::<char>::empty());
                }
                assert(ids_unique(accts1)) by {
                    lemma_seq_balance_update(accts0, from_idx as int, a1, from_id@, cur);
                }
                assert forall|c: Seq<char>|
                    accounts_total(accts1, c) == accounts_total(accts0, c)
                        - (if c == cur { amount.amount as int } else { 0 }) by {
                    lemma_accounts_total_update(accts0, from_idx as int, a1, c);
                }
                lemma_account_index(accts1, to_idx as int);
            }

            set_balance(
                &mut self.accounts[to_idx].balances,
                &amount.currency,
                to_bal + amount.amount,
            );
            proof {
                let accts2 = self.accounts@;
                let a1 = accts1[from_idx as int];
                let a2 = accts2[to_idx as int];
                assert(accts2 =~= accts1.update(to_idx as int, a2));
                assert(a2.id@ == accts1[to_idx as int].id@);
                assert forall|id: Seq<char>, c: Seq<char>|
                    seq_balance(accts2, id, c) == (if id == to_id@ {
                        entries_total(a2.balances@, c)
                    } else {
                        seq_balance(accts1, id, c)
                    }) by {
                    lemma_seq_balance_update(accts1, to_idx as int, a2, id, c);
                }
                assert forall|id: Seq<char>|
                    seq_has_account(accts2, id) == seq_has_account(accts1, id) by {
                    lemma_seq_balance_update(accts1, to_idx as int, a2, id, Seq::<char>::empty());
                }
                assert(ids_unique(accts2)) by {
                    lemma_seq_balance_update(accts1, to_idx as int, a2, to_id@, cur);
                }
                assert forall|c: Seq<char>|
                    accounts_total(accts2, c) == accounts_total(accts1, c)
                        + (if c == cur { amount.amount as int } else { 0 }) by {
                    lemma_accounts_total_update(accts1, to_idx as int, a2, c);
                    if c != cur {
                        assert(entries_total(a2.balances@, c)
                            == entries_total(accts1[to_idx as int].balances@, c));
                    }
                }
                assert forall|j: int|
                    0 <= j < accts2.len() implies account_wf(#[trigger] accts2[j]) by {
                    if j != from_idx as int && j != to_idx as int {
                        assert(accts2[j] == accts0[j]);
                    }
                }
            }
        }

        let new_seq = self.sequence + 1;
        let tx = Transaction {
            id: mint_id(),
            created_at: now_timestamp(),
            from_account_id: from_owned,
            to_account_id: to_owned,
            currency: amount.currency,
            amount: amount.amount,
            idempotency_key: match idempotency_key {
                Some(k) => Some(String::from_str(k)),
                None => None,
            },
            sequence: new_seq,
        };
        let result = tx.duplicate();

        let ghost idem0 = self.idempotency@;
        if let Some(k) = idempotency_key {
            let entry = IdemEntry { key: String::from_str(k), tx: tx.duplicate() };
            let ghost e = entry;
            self.idempotency.push(entry);
            proof {
                assert forall|k2: Seq<char>|
                    seq_has_key(self.idempotency@, k2)
                        == (seq_has_key(idem0, k2) || k2 == e.key@) by {
                    lemma_idem_push(idem0, e, k2);
                }
                assert forall|k2: Seq<char>|
                    seq_has_key(idem0, k2) implies self.idempotency@[key_index(
                    self.idempotency@, k2)].tx == idem0[key_index(idem0, k2)].tx by {
                    lemma_idem_push(idem0, e, k2);
                }
                assert(keys_unique(self.idempotency@)) by {
                    lemma_idem_push(idem0, e, e.key@);
                }
                assert(self.idempotency@[key_index(self.idempotency@, e.key@)] == e) by {
                    lemma_idem_push(idem0, e, e.key@);
                }
            }
        }

        let ghost log0 = self.transactions@;
        self.transactions.push(tx);
        self.sequence = new_seq;

        proof {
            assert(self.transactions@ == log0.push(result));
            assert forall|i: int|
                0 <= i < self.transactions@.len() implies (#[trigger] self.transactions@[i])
                .sequence == i + 1 by {
                if i < log0.len() {
                    assert(self.transactions@[i] == log0[i]);
                }
            }
            assert forall|i: int|
                0 <= i < self.idempotency@.len() implies {
                    let t = (#[trigger] self.idempotency@[i]).tx;
                    &&& 1 <= t.sequence <= self.transactions@.len()
                    &&& self.transactions@[t.sequence - 1] == t
                    &&& match t.idempotency_key {
                        Some(k) => k@ == self.idempotency@[i].key@,
                        None => false,
                    }
                } by {
                if i < idem0.len() {
                    assert(self.idempotency@[i] == idem0[i]);
                    let t = idem0[i].tx;
                    assert(self.transactions@[t.sequence - 1] == log0[t.sequence - 1]);
                }
            }
        }
        Ok(result)
    }

    /// A snapshot of the account with the given id, or `NotFound` when no
    /// account has that id.
    pub fn get_account(&self, id: &str) -> (r: Result<Account, LedgerError>)
        requires
            self.wf(),
        ensures
            match r {
                Ok(a) => self.has_account(id@) && a.id@ == id@
                    && a.created_at == self.account_at(id@).created_at
                    && a.balances@ == self.account_at(id@).balances@,
                Err(e) => !self.has_account(id@) && e == LedgerError::NotFound,
            },
    {
        let key = String::from_str(id);
        match self.find_account(&key) {
            Some(i) => {
                proof {
                    lemma_account_index(self.accounts@, i as int);
                }
                Ok(self.accounts[i].duplicate())
            }
            None => Err(LedgerError::NotFound),
        }
    }

    /// The balance the account holds in `currency`, as a `Money` snapshot.
    /// An account that exists but has no entry for `currency` reads zero;
    /// only a missing account is an error.
    pub fn get_balance(&self, id: &str, currency: &str) -> (r: Result<Money, LedgerError>)
        requires
            self.wf(),
        ensures
            match r {
                Ok(m) => self.has_account(id@) && m.currency@ == currency@
                    && m.amount as int == self.balance_of(id@, currency@)
                    && m.amount >= 0,
                Err(e) => !self.has_account(id@) && e == LedgerError::NotFound,
            },
    {
        let key = String::from_str(id);
        match self.find_account(&key) {
            Some(i) => {
                proof {
                    lemma_account_index(self.accounts@, i as int);
                }
                let cur = String::from_str(currency);
                let amount = lookup_amount(&self.accounts[i].balances, &cur);
                proof {
                    lemma_entries_total_non_negative(self.accounts@[i as int].balances@, cur@);
                }
                Ok(Money { currency: cur, amount })
            }
            None => Err(LedgerError::NotFound),
        }
    }
    /// The page of committed transactions that follows the cursor: in
    /// ascending sequence order, the first `clamp_limit(limit)` entries
    /// whose sequence is strictly greater than `after_sequence`, together
    /// with the last returned sequence as the next cursor (absent exactly
    /// when the page is empty).  This operation never fails.
    pub fn list_transactions(&self, limit: usize, after_sequence: u64) -> (r: Result<
        (Vec<Transaction>, Option<u64>),
        LedgerError,
    >)
        requires
            self.wf(),
        ensures
            r is Ok,
            r matches Ok(pn) ==> {
                let start = if after_sequence as int <= self.log().len() {
                    after_sequence as int
                } else {
                    self.log().len() as int
                };
                let cnt = if clamp_limit(limit) <= self.log().len() - start {
                    clamp_limit(limit)
                } else {
                    self.log().len() - start
                };
                &&& pn.0@.len() == cnt
                &&& forall|k: int| 0 <= k < cnt ==> pn.0@[k] == self.log()[start + k]
                &&& forall|k: int|
                    0 <= k < cnt ==> (#[trigger] pn.0@[k]).sequence > after_sequence
                &&& forall|k1: int, k2: int|
                    0 <= k1 < k2 < cnt ==> pn.0@[k1].sequence < pn.0@[k2].sequence
                &&& pn.1 == (if cnt == 0 {
                    Option::<u64>::None
                } else {
                    Option::Some(self.log()[start + cnt - 1].sequence)
                })
            },
    {
        let lim: usize = if limit == 0 || limit > 1000 {
            100
        } else {
            limit
        };
        let n = self.transactions.len();
        let start: usize = if after_sequence >= n as u64 {
            n
        } else {
            after_sequence as usize
        };
        let remaining = n - start;
        let cnt = if lim < remaining {
            lim
        } else {
            remaining
        };
        let mut page: Vec<Transaction> = Vec::new();
        let mut k: usize = 0;
        while k < cnt
            invariant
                n == self.transactions@.len(),
                start + cnt <= n,
                k <= cnt,
                page@.len() == k,
                forall|j: int| 0 <= j < k ==> page@[j] == self.transactions@[start + j],
            decreases cnt - k,
        {
            page.push(self.transactions[start + k].duplicate());
            k = k + 1;
        }
        let next: Option<u64> = if cnt == 0 {
            None
        } else {
            Some(page[cnt - 1].sequence)
        };
        Ok((page, next))
    }
}

/// The log is sorted: the transaction at position `i` carries sequence
/// `i + 1`, so sequences are unique and equal to their position order.
pub proof fn lemma_log_position(l: &Ledger, i: int)
    requires
        l.wf(),
        0 <= i < l.log().len(),
    ensures
        l.log()[i].sequence == i + 1,
{
}

/// Sequence monotonicity: of two transfers committed in program order,
/// the earlier one carries the strictly smaller sequence number.
pub proof fn lemma_sequence_monotonic(l: &Ledger, i: int, j: int)
    requires
        l.wf(),
        0 <= i < j < l.log().len(),
    ensures
        l.log()[i].sequence < l.log()[j].sequence,
{
}

/// Every balance a well-formed ledger holds is non-negative, whatever the
/// account and the currency.
pub proof fn lemma_balance_non_negative(l: &Ledger, id: Seq<char>, c: Seq<char>)
    requires
        l.wf(),
    ensures
        l.balance_of(id, c) >= 0,
{
    lemma_seq_balance_non_negative(l.accounts_seq(), id, c);
}

} // verus!
