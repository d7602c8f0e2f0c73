//! The native-currency ledger backing deposits and withdrawals.
//!
//! The settlement module owns one distinguished account here, the pool
//! escrow; participants deposit collateral into it and withdraw from it.
//! An account with no row holds a zero balance.

use vstd::prelude::*;
use crate::errors::Error;

verus! {

/// One native-currency balance row.
#[derive(Clone, Copy, Debug, PartialEq, Eq, Structural)]
pub struct TokenAccount {
    /// Account identity.
    pub id: u64,
    /// Balance held.
    pub amount: u128,
}

/// All rows carry distinct account ids.
pub open spec fn tok_ids_unique(s: Seq<TokenAccount>) -> bool {
    forall|i: int, j: int| 0 <= i < j < s.len() ==> s[i].id != s[j].id
}

/// Index of the first row for `id`, or -1 when the account has no row.
pub open spec fn tok_find_idx(s: Seq<TokenAccount>, id: u64) -> int
    decreases s.len(),
{
    if s.len() == 0 {
        -1
    } else if s[0].id == id {
        0
    } else {
        let r = tok_find_idx(s.drop_first(), id);
        if r < 0 {
            -1
        } else {
            r + 1
        }
    }
}

/// Balance of `id`; zero when the account has no row.
pub open spec fn balance_at(s: Seq<TokenAccount>, id: u64) -> int {
    let i = tok_find_idx(s, id);
    if i < 0 {
        0
    } else {
        s[i].amount as int
    }
}

/// `tok_find_idx` lands in range, on a row with the right id, and only after
/// rows with other ids.
pub proof fn lemma_tok_find_idx(s: Seq<TokenAccount>, id: u64)
    ensures
        -1 <= tok_find_idx(s, id) < s.len(),
        tok_find_idx(s, id) == -1 ==> (forall|j: int| 0 <= j < s.len() ==> s[j].id != id),
        tok_find_idx(s, id) >= 0 ==> s[tok_find_idx(s, id)].id == id,
        tok_find_idx(s, id) >= 0 ==> (forall|j: int|
            0 <= j < tok_find_idx(s, id) ==> s[j].id != id),
    decreases s.len(),
{
    if s.len() == 0 {
    } else if s[0].id == id {
    } else {
        let d = s.drop_first();
        lemma_tok_find_idx(d, id);
        if tok_find_idx(d, id) < 0 {
            assert forall|j: int| 0 <= j < s.len() implies s[j].id != id by {
                if j > 0 {
                    assert(d[j - 1] == s[j]);
                }
            }
        } else {
            assert forall|j: int| 0 <= j < tok_find_idx(s, id) implies s[j].id != id by {
                if j > 0 {
                    assert(d[j - 1] == s[j]);
                }
            }
            assert(d[tok_find_idx(d, id)] == s[tok_find_idx(s, id)]);
        }
    }
}

/// The first row whose id is `id` is exactly where `tok_find_idx` points.
pub proof fn lemma_tok_find_idx_at(s: Seq<TokenAccount>, id: u64, i: int)
    requires
        0 <= i < s.len(),
        s[i].id == id,
        forall|j: int| 0 <= j < i ==> s[j].id != id,
    ensures
        tok_find_idx(s, id) == i,
    decreases s.len(),
{
    if i == 0 {
    } else {
        let d = s.drop_first();
        assert(forall|j: int| 0 <= j < d.len() ==> d[j] == s[j + 1]);
        lemma_tok_find_idx_at(d, id, i - 1);
    }
}

/// An id found on no row at all is not found by `tok_find_idx`.
pub proof fn lemma_tok_find_idx_absent(s: Seq<TokenAccount>, id: u64)
    requires
        forall|j: int| 0 <= j < s.len() ==> s[j].id != id,
    ensures
        tok_find_idx(s, id) == -1,
    decreases s.len(),
{
    if s.len() > 0 {
        let d = s.drop_first();
        assert(forall|j: int| 0 <= j < d.len() ==> d[j] == s[j + 1]);
        lemma_tok_find_idx_absent(d, id);
    }
}

/// Two ledgers whose rows carry the same ids position every id identically.
pub proof fn lemma_tok_find_idx_same_ids(s: Seq<TokenAccount>, t: Seq<TokenAccount>, id: u64)
    requires
        s.len() == t.len(),
        forall|j: int| 0 <= j < s.len() ==> s[j].id == t[j].id,
    ensures
        tok_find_idx(s, id) == tok_find_idx(t, id),
    decreases s.len(),
{
    if s.len() > 0 {
        assert(forall|j: int| 0 <= j < s.drop_first().len() ==> s.drop_first()[j] == s[j + 1]);
        assert(forall|j: int| 0 <= j < t.drop_first().len() ==> t.drop_first()[j] == t[j + 1]);
        lemma_tok_find_idx_same_ids(s.drop_first(), t.drop_first(), id);
    }
}

/// Overwriting the row at `i` without changing its id rewrites that id's
/// balance and reads of every other id are unchanged.
pub proof fn lemma_balance_update(s: Seq<TokenAccount>, i: int, a: TokenAccount)
    requires
        0 <= i < s.len(),
        a.id == s[i].id,
        tok_ids_unique(s),
    ensures
        tok_ids_unique(s.update(i, a)),
        balance_at(s.update(i, a), a.id) == a.amount,
        forall|x: u64| x != a.id ==> #[trigger] balance_at(s.update(i, a), x) == balance_at(s, x),
{
    let t = s.update(i, a);
    assert forall|x: u64| true implies #[trigger] tok_find_idx(t, x) == tok_find_idx(s, x) by {
        lemma_tok_find_idx_same_ids(s, t, x);
    }
    lemma_tok_find_idx_at(s, a.id, i);
    assert forall|x: u64| x != a.id implies #[trigger] balance_at(t, x) == balance_at(s, x) by {
        lemma_tok_find_idx(s, x);
        let r = tok_find_idx(s, x);
        if r >= 0 {
            assert(t[r] == s[r]);
        }
    }
}

/// Appending a row for an id with no row yet gives that id the appended
/// balance and leaves every other id unchanged.
pub proof fn lemma_balance_push(s: Seq<TokenAccount>, a: TokenAccount)
    requires
        tok_ids_unique(s),
        tok_find_idx(s, a.id) == -1,
    ensures
        tok_ids_unique(s.push(a)),
        balance_at(s.push(a), a.id) == a.amount,
        forall|x: u64| x != a.id ==> #[trigger] balance_at(s.push(a), x) == balance_at(s, x),
{
    let t = s.push(a);
    lemma_tok_find_idx(s, a.id);
    assert(forall|j: int| 0 <= j < s.len() ==> t[j] == s[j]);
    lemma_tok_find_idx_at(t, a.id, s.len() as int);
    assert forall|x: u64| x != a.id implies #[trigger] balance_at(t, x) == balance_at(s, x) by {
        lemma_tok_find_idx(s, x);
        let r = tok_find_idx(s, x);
        if r >= 0 {
            lemma_tok_find_idx_at(t, x, r);
        } else {
            lemma_tok_find_idx_absent(t, x);
        }
    }
}

/// Looks up the row index of `who`, with the result tied to `tok_find_idx`.
fn find_token_index(v: &Vec<TokenAccount>, who: u64) -> (r: Option<usize>)
    ensures
        match r {
            Some(i) => i < v@.len() && tok_find_idx(v@, who) == i as int,
            None => tok_find_idx(v@, who) == -1,
        },
{
    let n = v.len();
    let mut i: usize = 0;
    while i < n
        invariant
            i <= n,
            n == v@.len(),
            forall|j: int| 0 <= j < i ==> v@[j].id != who,
        decreases n - i,
    {
        if v[i].id == who {
            proof {
                lemma_tok_find_idx_at(v@, who, i as int);
            }
            return Some(i);
        }
        i = i + 1;
    }
    proof {
        lemma_tok_find_idx_absent(v@, who);
    }
    None
}

/// The native-currency ledger shared by participants and the pool escrow.
pub struct TokenLedger {
    /// Balance rows with pairwise-distinct ids.
    pub accounts: Vec<TokenAccount>,
}

impl TokenLedger {
    /// Row ids are pairwise distinct.
    pub open spec fn wf(self) -> bool {
        tok_ids_unique(self.accounts@)
    }

    /// Balance of `id`, zero when absent.
    pub open spec fn balance_of(self, id: u64) -> int {
        balance_at(self.accounts@, id)
    }

    /// Whether a movement of `amount` from `from` to `to` succeeds, and the
    /// error it fails with otherwise.
    pub open spec fn transfer_result(self, from: u64, to: u64, amount: u128) -> Result<(), Error> {
        if self.balance_of(from) < amount {
            Err(Error::InsufficientBalance)
        } else if from != to && self.balance_of(to) + amount > u128::MAX {
            Err(Error::Overflow)
        } else {
            Ok(())
        }
    }

    /// An empty ledger.
    pub fn new() -> (r: TokenLedger)
        ensures
            r.wf(),
            forall|x: u64| #[trigger] r.balance_of(x) == 0,
            r.accounts@.len() == 0,
    {
        let r = TokenLedger { accounts: Vec::new() };
        proof {
            assert forall|x: u64| #[trigger] r.balance_of(x) == 0 by {
                lemma_tok_find_idx(r.accounts@, x);
            }
        }
        r
    }

    /// Reads the balance of `who`.
    pub fn balance(&self, who: u64) -> (r: u128)
        ensures
            r == self.balance_of(who),
    {
        match find_token_index(&self.accounts, who) {
            Some(i) => self.accounts[i].amount,
            None => 0,
        }
    }

    /// Credits `who` with `amount`, creating the row if needed; used only to
    /// endow accounts when a ledger is first built.
    pub fn endow(&mut self, who: u64, amount: u128) -> (r: Result<(), Error>)
        requires
            old(self).wf(),
        ensures
            final(self).wf(),
            r is Ok <==> old(self).balance_of(who) + amount <= u128::MAX,
            r is Err ==> r == Err::<(), Error>(Error::Overflow) && final(self).accounts@ == old(self).accounts@,
            r is Ok ==> final(self).balance_of(who) == old(self).balance_of(who) + amount
                && (forall|x: u64|
                x != who ==> #[trigger] final(self).balance_of(x) == old(self).balance_of(x)),
    {
        match find_token_index(&self.accounts, who) {
            Some(i) => {
                let row = self.accounts[i];
                match row.amount.checked_add(amount) {
                    Some(nb) => {
                        self.accounts.set(i, TokenAccount { id: who, amount: nb });
                        proof {
                            lemma_tok_find_idx(old(self).accounts@, who);
                            lemma_balance_update(
                                old(self).accounts@,
                                i as int,
                                TokenAccount { id: who, amount: nb },
                            );
                        }
                        Ok(())
                    },
                    None => Err(Error::Overflow),
                }
            },
            None => {
                let row = TokenAccount { id: who, amount };
                self.accounts.push(row);
                proof {
                    lemma_balance_push(old(self).accounts@, row);
                }
                Ok(())
            },
        }
    }

    /// Moves `amount` from `from` to `to`: rejected with
    /// `InsufficientBalance` when `from` holds less than `amount`, with
    /// `Overflow` when `to` cannot absorb it; otherwise both balances move
    /// and no other account changes. A rejected call changes nothing.
    pub fn transfer(&mut self, from: u64, to: u64, amount: u128) -> (r: Result<(), Error>)
        requires
            old(self).wf(),
        ensures
            final(self).wf(),
            r == old(self).transfer_result(from, to, amount),
            r is Err ==> final(self).accounts@ == old(self).accounts@,
            r is Ok && from != to ==> final(self).balance_of(from) == old(self).balance_of(from)
                - amount && final(self).balance_of(to) == old(self).balance_of(to) + amount && (
            forall|x: u64|
                x != from && x != to ==> #[trigger] final(self).balance_of(x) == old(
                    self,
                ).balance_of(x)),
            r is Ok && from == to ==> (forall|x: u64|
                #[trigger] final(self).balance_of(x) == old(self).balance_of(x)),
    {
        let fi = match find_token_index(&self.accounts, from) {
            Some(i) => i,
            None => {
                proof {
                    lemma_tok_find_idx(self.accounts@, from);
                }
                if amount == 0 {
                    return Ok(());
                }
                return Err(Error::InsufficientBalance);
            },
        };
        proof {
            lemma_tok_find_idx(self.accounts@, from);
        }
        let fb = self.accounts[fi].amount;
        if fb < amount {
            return Err(Error::InsufficientBalance);
        }
        if from == to {
            return Ok(());
        }
        match find_token_index(&self.accounts, to) {
            Some(ti) => {
                proof {
                    lemma_tok_find_idx(self.accounts@, to);
                }
                let tb = self.accounts[ti].amount;
                match tb.checked_add(amount) {
                    Some(nb) => {
                        let debited = TokenAccount { id: from, amount: fb - amount };
                        self.accounts.set(fi, debited);
                        proof {
                            lemma_balance_update(old(self).accounts@, fi as int, debited);
                            assert(self.accounts@[ti as int].id == to);
                        }
                        let credited = TokenAccount { id: to, amount: nb };
                        let mid = Ghost(self.accounts@);
                        self.accounts.set(ti, credited);
                        proof {
                            lemma_balance_update(mid@, ti as int, credited);
                        }
                        Ok(())
                    },
                    None => Err(Error::Overflow),
                }
            },
            None => {
                // `to` has no row: it absorbs anything below the cap.
                let debited = TokenAccount { id: from, amount: fb - amount };
                self.accounts.set(fi, debited);
                proof {
                    lemma_balance_update(old(self).accounts@, fi as int, debited);
                    lemma_tok_find_idx_same_ids(old(self).accounts@, self.accounts@, to);
                }
                let credited = TokenAccount { id: to, amount };
                let mid = Ghost(self.accounts@);
                self.accounts.push(credited);
                proof {
                    lemma_balance_push(mid@, credited);
                }
                Ok(())
            },
        }
    }
}

} // verus!
