//! The token ledger.
//!
//! A separately owned component holding per-`(account, token)` balances
//! and token metadata. The exchange consumes exactly this interface:
//! `owner`, `token`, `balance_of`, `ensure_free_balance`, `do_issue` and
//! transfers. Token identifiers are assigned densely: the token created
//! by the `i`-th issuance has identifier `i`.
//!
//! The central invariant is conservation: for every issued token, the sum
//! of all balances equals its recorded total supply. Transfers therefore
//! can never overflow a balance.

use vstd::prelude::*;

use crate::errors::Error;

verus! {

/// One `(account, token)` balance.
#[derive(Clone, Copy, Debug, PartialEq, Eq, Structural)]
pub struct BalanceEntry {
    pub account: u64,
    pub token: u128,
    pub amount: u128,
}

/// Metadata of an issued token.
#[derive(Debug)]
pub struct TokenInfo {
    /// The token's identifier.
    pub token_hash: u128,
    /// The account the token was issued to.
    pub owner: u64,
    /// The display symbol, as raw bytes.
    pub symbol: Vec<u8>,
    /// The amount minted at issuance; never changes afterwards.
    pub total_supply: u128,
}

/// The balance of `a` in token `t`: the amount of the matching entry, or
/// zero when there is none.
pub open spec fn bal_in(entries: Seq<BalanceEntry>, a: u64, t: u128) -> u128
    decreases entries.len(),
{
    if entries.len() == 0 {
        0
    } else if entries.last().account == a && entries.last().token == t {
        entries.last().amount
    } else {
        bal_in(entries.drop_last(), a, t)
    }
}

/// The sum of all balances of token `t`.
pub open spec fn token_sum(entries: Seq<BalanceEntry>, t: u128) -> int
    decreases entries.len(),
{
    if entries.len() == 0 {
        0
    } else {
        token_sum(entries.drop_last(), t) + if entries.last().token == t {
            entries.last().amount as int
        } else {
            0int
        }
    }
}

/// No two entries name the same `(account, token)` key.
pub open spec fn unique_keys(entries: Seq<BalanceEntry>) -> bool {
    forall|i: int, j: int|
        #![trigger entries[i], entries[j]]
        0 <= i < j < entries.len() ==> !(entries[i].account == entries[j].account
            && entries[i].token == entries[j].token)
}

pub proof fn lemma_token_sum_nonneg(entries: Seq<BalanceEntry>, t: u128)
    ensures
        token_sum(entries, t) >= 0,
    decreases entries.len(),
{
    if entries.len() > 0 {
        lemma_token_sum_nonneg(entries.drop_last(), t);
    }
}

/// A single balance never exceeds the sum of all balances of its token.
pub proof fn lemma_bal_le_sum(entries: Seq<BalanceEntry>, a: u64, t: u128)
    ensures
        bal_in(entries, a, t) <= token_sum(entries, t),
    decreases entries.len(),
{
    if entries.len() > 0 {
        lemma_bal_le_sum(entries.drop_last(), a, t);
        lemma_token_sum_nonneg(entries.drop_last(), t);
    }
}

/// An account without an entry for `t` has balance zero in `t`.
pub proof fn lemma_bal_absent(entries: Seq<BalanceEntry>, a: u64, t: u128)
    requires
        forall|k: int|
            0 <= k < entries.len() ==> !((#[trigger] entries[k]).account == a && entries[k].token
                == t),
    ensures
        bal_in(entries, a, t) == 0,
    decreases entries.len(),
{
    if entries.len() > 0 {
        assert(forall|k: int| 0 <= k < entries.len() - 1 ==> entries.drop_last()[k] == entries[k]);
        lemma_bal_absent(entries.drop_last(), a, t);
    }
}

/// A token without entries has sum zero.
pub proof fn lemma_token_sum_absent(entries: Seq<BalanceEntry>, t: u128)
    requires
        forall|k: int| 0 <= k < entries.len() ==> (#[trigger] entries[k]).token != t,
    ensures
        token_sum(entries, t) == 0,
    decreases entries.len(),
{
    if entries.len() > 0 {
        assert(forall|k: int| 0 <= k < entries.len() - 1 ==> entries.drop_last()[k] == entries[k]);
        lemma_token_sum_absent(entries.drop_last(), t);
    }
}

/// The entry at a key's unique index carries that key's balance.
pub proof fn lemma_bal_at_index(entries: Seq<BalanceEntry>, i: int)
    requires
        unique_keys(entries),
        0 <= i < entries.len(),
    ensures
        bal_in(entries, entries[i].account, entries[i].token) == entries[i].amount,
    decreases entries.len(),
{
    if i == entries.len() - 1 {
    } else {
        assert(forall|k: int| 0 <= k < entries.len() - 1 ==> entries.drop_last()[k] == entries[k]);
        lemma_bal_at_index(entries.drop_last(), i);
    }
}

/// How rewriting the amount at index `i` changes balances and sums.
pub proof fn lemma_update_entry(entries: Seq<BalanceEntry>, i: int, v: u128)
    requires
        0 <= i < entries.len(),
        unique_keys(entries),
    ensures
        ({
            let a = entries[i].account;
            let t = entries[i].token;
            let e2 = entries.update(i, (BalanceEntry { account: a, token: t, amount: v }));
            &&& unique_keys(e2)
            &&& bal_in(e2, a, t) == v
            &&& forall|a2: u64, t2: u128|
                !(a2 == a && t2 == t) ==> #[trigger] bal_in(e2, a2, t2) == bal_in(entries, a2, t2)
            &&& token_sum(e2, t) == token_sum(entries, t) - entries[i].amount + v
            &&& forall|t2: u128|
                t2 != t ==> #[trigger] token_sum(e2, t2) == token_sum(entries, t2)
        }),
    decreases entries.len(),
{
    let a = entries[i].account;
    let t = entries[i].token;
    let ne = (BalanceEntry { account: a, token: t, amount: v });
    let e2 = entries.update(i, ne);
    assert(forall|k: int| 0 <= k < e2.len() ==> (#[trigger] e2[k]).account == entries[k].account
        && e2[k].token == entries[k].token);
    assert(unique_keys(e2));
    if i == entries.len() - 1 {
        assert(e2.drop_last() =~= entries.drop_last());
    } else {
        assert(forall|k: int| 0 <= k < entries.len() - 1 ==> entries.drop_last()[k] == entries[k]);
        assert(e2.drop_last() =~= entries.drop_last().update(i, ne));
        assert(e2.last() == entries.last());
        lemma_update_entry(entries.drop_last(), i, v);
        let rest = entries.drop_last();
        let rest2 = rest.update(i, ne);
        let last = entries.last();
        // The last entry's key differs from the updated key.
        assert(!(last.account == a && last.token == t));
        assert(bal_in(e2, a, t) == bal_in(rest2, a, t));
        assert forall|a2: u64, t2: u128| !(a2 == a && t2 == t) implies #[trigger] bal_in(
            e2,
            a2,
            t2,
        ) == bal_in(entries, a2, t2) by {
            if last.account == a2 && last.token == t2 {
                assert(bal_in(e2, a2, t2) == last.amount);
                assert(bal_in(entries, a2, t2) == last.amount);
            } else {
                assert(bal_in(e2, a2, t2) == bal_in(rest2, a2, t2));
                assert(bal_in(entries, a2, t2) == bal_in(rest, a2, t2));
            }
        }
        assert(token_sum(e2, t) == token_sum(rest2, t) + if last.token == t {
            last.amount as int
        } else {
            0int
        });
        assert(token_sum(entries, t) == token_sum(rest, t) + if last.token == t {
            last.amount as int
        } else {
            0int
        });
        assert forall|t2: u128| t2 != t implies #[trigger] token_sum(e2, t2) == token_sum(
            entries,
            t2,
        ) by {
            assert(token_sum(rest2, t2) == token_sum(rest, t2));
        }
    }
}

/// How appending an entry under a fresh key changes balances and sums.
pub proof fn lemma_push_entry(entries: Seq<BalanceEntry>, a: u64, t: u128, v: u128)
    requires
        unique_keys(entries),
        forall|k: int|
            0 <= k < entries.len() ==> !((#[trigger] entries[k]).account == a && entries[k].token
                == t),
    ensures
        ({
            let e2 = entries.push((BalanceEntry { account: a, token: t, amount: v }));
            &&& unique_keys(e2)
            &&& bal_in(e2, a, t) == v
            &&& forall|a2: u64, t2: u128|
                !(a2 == a && t2 == t) ==> #[trigger] bal_in(e2, a2, t2) == bal_in(entries, a2, t2)
            &&& token_sum(e2, t) == token_sum(entries, t) + v
            &&& forall|t2: u128|
                t2 != t ==> #[trigger] token_sum(e2, t2) == token_sum(entries, t2)
        }),
{
    let ne = (BalanceEntry { account: a, token: t, amount: v });
    let e2 = entries.push(ne);
    assert(e2.drop_last() =~= entries);
    assert(e2.last() == ne);
    assert(forall|i: int, j: int|
        #![trigger e2[i], e2[j]]
        0 <= i < j < e2.len() ==> !(e2[i].account == e2[j].account && e2[i].token == e2[j].token));
}

/// The symbol of a pair's LP token: `"LT_"`, the base token's symbol,
/// `"_"`, then the quote token's symbol, as bytes.
pub open spec fn lp_symbol_of(base_sym: Seq<u8>, quote_sym: Seq<u8>) -> Seq<u8> {
    seq![76u8, 84u8, 95u8] + base_sym + seq![95u8] + quote_sym
}

/// The token ledger.
pub struct Ledger {
    /// Token metadata, indexed by token identifier.
    pub tokens: Vec<TokenInfo>,
    /// All balances, one entry per `(account, token)` key.
    pub balances: Vec<BalanceEntry>,
}

impl Ledger {
    /// The balance of `a` in token `t`.
    pub open spec fn spec_bal(self, a: u64, t: u128) -> u128 {
        bal_in(self.balances@, a, t)
    }

    /// Whether `t` is an issued token.
    pub open spec fn has_token(self, t: u128) -> bool {
        (t as int) < self.tokens@.len()
    }

    /// The recorded owner of an issued token.
    pub open spec fn spec_owner(self, t: u128) -> u64 {
        self.tokens@[t as int].owner
    }

    /// The recorded total supply of an issued token.
    pub open spec fn spec_supply(self, t: u128) -> u128 {
        self.tokens@[t as int].total_supply
    }

    /// Conservation: every issued token's balances sum to its supply.
    pub open spec fn supplies_conserved(self) -> bool {
        forall|t: u128|
            (t as int) < self.tokens@.len() ==> #[trigger] token_sum(self.balances@, t)
                == self.tokens@[t as int].total_supply as int
    }

    /// Well-formedness of the ledger.
    pub open spec fn wf(self) -> bool {
        &&& unique_keys(self.balances@)
        &&& forall|k: int|
            0 <= k < self.balances@.len() ==> (#[trigger] self.balances@[k]).token
                < self.tokens@.len()
        &&& forall|i: int|
            0 <= i < self.tokens@.len() ==> (#[trigger] self.tokens@[i]).token_hash == i
        &&& self.supplies_conserved()
    }

    /// An empty ledger: no tokens, no balances.
    pub fn new() -> (r: Ledger)
        ensures
            r.wf(),
            r.tokens@.len() == 0,
            r.balances@.len() == 0,
    {
        Ledger { tokens: Vec::new(), balances: Vec::new() }
    }

    /// The index of the entry holding `(a, t)`, if any.
    fn find_entry(&self, a: u64, t: u128) -> (r: Option<usize>)
        ensures
            match r {
                Some(i) => i < self.balances@.len() && self.balances@[i as int].account == a
                    && self.balances@[i as int].token == t,
                None => forall|k: int|
                    0 <= k < self.balances@.len() ==> !((#[trigger] self.balances@[k]).account == a
                        && self.balances@[k].token == t),
            },
    {
        let n = self.balances.len();
        let mut j: usize = 0;
        while j < n
            invariant
                n == self.balances@.len(),
                j <= n,
                forall|k: int|
                    0 <= k < j ==> !((#[trigger] self.balances@[k]).account == a
                        && self.balances@[k].token == t),
            decreases n - j,
        {
            let e = self.balances[j];
            if e.account == a && e.token == t {
                return Some(j);
            }
            j = j + 1;
        }
        None
    }

    /// The balance of the `(account, token)` key, zero when absent.
    pub fn balance_of(&self, key: (u64, u128)) -> (r: u128)
        requires
            self.wf(),
        ensures
            r == self.spec_bal(key.0, key.1),
    {
        match self.find_entry(key.0, key.1) {
            Some(i) => {
                proof {
                    lemma_bal_at_index(self.balances@, i as int);
                }
                self.balances[i].amount
            },
            None => {
                proof {
                    lemma_bal_absent(self.balances@, key.0, key.1);
                }
                0
            },
        }
    }

    /// The owner of `t`, or `None` when `t` was never issued.
    pub fn owner(&self, t: u128) -> (r: Option<u64>)
        ensures
            match r {
                Some(o) => self.has_token(t) && o == self.spec_owner(t),
                None => !self.has_token(t),
            },
    {
        if t < self.tokens.len() as u128 {
            Some(self.tokens[t as usize].owner)
        } else {
            None
        }
    }

    /// The metadata of `t`, or `None` when `t` was never issued.
    pub fn token(&self, t: u128) -> (r: Option<TokenInfo>)
        ensures
            match r {
                Some(info) => {
                    &&& self.has_token(t)
                    &&& info.token_hash == self.tokens@[t as int].token_hash
                    &&& info.owner == self.tokens@[t as int].owner
                    &&& info.symbol@ == self.tokens@[t as int].symbol@
                    &&& info.total_supply == self.tokens@[t as int].total_supply
                },
                None => !self.has_token(t),
            },
    {
        if t < self.tokens.len() as u128 {
            let stored = &self.tokens[t as usize];
            let mut symbol: Vec<u8> = Vec::new();
            let m = stored.symbol.len();
            let mut k: usize = 0;
            while k < m
                invariant
                    m == stored.symbol@.len(),
                    k <= m,
                    symbol@ == stored.symbol@.subrange(0, k as int),
                decreases m - k,
            {
                symbol.push(stored.symbol[k]);
                proof {
                    assert(symbol@ =~= stored.symbol@.subrange(0, k + 1));
                }
                k = k + 1;
            }
            proof {
                assert(stored.symbol@.subrange(0, m as int) =~= stored.symbol@);
            }
            Some(
                TokenInfo {
                    token_hash: stored.token_hash,
                    owner: stored.owner,
                    symbol,
                    total_supply: stored.total_supply,
                },
            )
        } else {
            None
        }
    }

    /// The identifier of the `i`-th issued token, if there is one.
    pub fn token_hash_by_index(&self, i: u64) -> (r: Option<u128>)
        ensures
            match r {
                Some(h) => (i as int) < self.tokens@.len() && h == self.tokens@[i as int].token_hash,
                None => (i as int) >= self.tokens@.len(),
            },
    {
        if (i as u128) < self.tokens.len() as u128 {
            Some(self.tokens[i as usize].token_hash)
        } else {
            None
        }
    }

    /// Fails exactly when `t` was never issued or the balance of
    /// `account` in `t` is below `amount`; never changes state.
    pub fn ensure_free_balance(&self, account: u64, t: u128, amount: u128) -> (r: Result<
        (),
        Error,
    >)
        requires
            self.wf(),
        ensures
            r is Ok <==> self.has_token(t) && amount <= self.spec_bal(account, t),
            r is Err ==> r->Err_0 == (if !self.has_token(t) {
                Error::TokenNotFound
            } else {
                Error::InsufficientBalance
            }),
    {
        if t >= self.tokens.len() as u128 {
            Err(Error::TokenNotFound)
        } else if self.balance_of((account, t)) < amount {
            Err(Error::InsufficientBalance)
        } else {
            Ok(())
        }
    }

    /// Issues a new token: records its metadata and mints the entire
    /// supply to `owner`. Returns the fresh token identifier.
    pub fn do_issue(&mut self, owner: u64, symbol: Vec<u8>, total_supply: u128) -> (r: u128)
        requires
            old(self).wf(),
        ensures
            final(self).wf(),
            r == old(self).tokens@.len(),
            final(self).tokens@.len() == old(self).tokens@.len() + 1,
            forall|i: int|
                0 <= i < old(self).tokens@.len() ==> final(self).tokens@[i] == old(
                    self,
                ).tokens@[i],
            final(self).tokens@[r as int].token_hash == r,
            final(self).tokens@[r as int].owner == owner,
            final(self).tokens@[r as int].symbol@ == symbol@,
            final(self).tokens@[r as int].total_supply == total_supply,
            final(self).spec_bal(owner, r) == total_supply,
            forall|a: u64| a != owner ==> final(self).spec_bal(a, r) == 0,
            forall|a: u64, t: u128|
                t != r ==> final(self).spec_bal(a, t) == old(self).spec_bal(a, t),
    {
        let r = self.tokens.len() as u128;
        proof {
            assert(forall|k: int|
                0 <= k < self.balances@.len() ==> !((#[trigger] self.balances@[k]).account == owner
                    && self.balances@[k].token == r));
            lemma_push_entry(self.balances@, owner, r, total_supply);
            lemma_token_sum_absent(self.balances@, r);
        }
        self.tokens.push(
            TokenInfo { token_hash: r, owner, symbol, total_supply },
        );
        self.balances.push(BalanceEntry { account: owner, token: r, amount: total_supply });
        proof {
            let post = *self;
            assert forall|a: u64| a != owner implies post.spec_bal(a, r) == 0 by {
                lemma_bal_absent(old(self).balances@, a, r);
            }
            assert(post.supplies_conserved());
        }
        r
    }

    /// Builds the symbol of the LP token of a pair over `base` and
    /// `quote`.
    pub(crate) fn lp_symbol(&self, base: u128, quote: u128) -> (r: Vec<u8>)
        requires
            self.has_token(base),
            self.has_token(quote),
        ensures
            r@ == lp_symbol_of(
                self.tokens@[base as int].symbol@,
                self.tokens@[quote as int].symbol@,
            ),
    {
        let mut r: Vec<u8> = Vec::new();
        r.push(76);
        r.push(84);
        r.push(95);
        let nt = self.tokens.len();
        proof {
            assert(base < nt && quote < nt);
        }
        let bs = &self.tokens[base as usize].symbol;
        let m = bs.len();
        let mut k: usize = 0;
        proof {
            assert(r@ =~= seq![76u8, 84u8, 95u8] + bs@.subrange(0, 0));
        }
        while k < m
            invariant
                m == bs@.len(),
                k <= m,
                r@ == seq![76u8, 84u8, 95u8] + bs@.subrange(0, k as int),
            decreases m - k,
        {
            r.push(bs[k]);
            proof {
                assert(r@ =~= seq![76u8, 84u8, 95u8] + bs@.subrange(0, k + 1));
            }
            k = k + 1;
        }
        proof {
            assert(bs@.subrange(0, m as int) =~= bs@);
        }
        r.push(95);
        let qs = &self.tokens[quote as usize].symbol;
        let n = qs.len();
        let mut k2: usize = 0;
        proof {
            assert(r@ =~= seq![76u8, 84u8, 95u8] + bs@ + seq![95u8] + qs@.subrange(0, 0));
        }
        while k2 < n
            invariant
                n == qs@.len(),
                k2 <= n,
                r@ == seq![76u8, 84u8, 95u8] + bs@ + seq![95u8] + qs@.subrange(0, k2 as int),
            decreases n - k2,
        {
            r.push(qs[k2]);
            proof {
                assert(r@ =~= seq![76u8, 84u8, 95u8] + bs@ + seq![95u8] + qs@.subrange(0, k2 + 1));
            }
            k2 = k2 + 1;
        }
        proof {
            assert(qs@.subrange(0, n as int) =~= qs@);
            assert(r@ =~= lp_symbol_of(bs@, qs@));
        }
        r
    }

    /// Moves `amount` of `t` from `from` to `to`. The caller has already
    /// established that `from` covers the amount; conservation rules out
    /// any overflow at `to`.
    pub(crate) fn transfer_unchecked(&mut self, from: u64, to: u64, t: u128, amount: u128)
        requires
            old(self).wf(),
            old(self).has_token(t),
            amount <= old(self).spec_bal(from, t),
        ensures
            final(self).wf(),
            final(self).tokens@ == old(self).tokens@,
            from != to ==> final(self).spec_bal(from, t) == old(self).spec_bal(from, t) - amount,
            from != to ==> final(self).spec_bal(to, t) == old(self).spec_bal(to, t) + amount,
            from == to ==> final(self).spec_bal(from, t) == old(self).spec_bal(from, t),
            forall|a2: u64, t2: u128|
                !(a2 == from && t2 == t) && !(a2 == to && t2 == t) ==> final(self).spec_bal(a2, t2)
                    == old(self).spec_bal(a2, t2),
    {
        if amount == 0 || from == to {
            return ;
        }
        let idx_from = match self.find_entry(from, t) {
            Some(i) => i,
            None => {
                proof {
                    lemma_bal_absent(self.balances@, from, t);
                }
                assert(false);
                0
            },
        };
        let from_amt = self.balances[idx_from].amount;
        proof {
            lemma_bal_at_index(self.balances@, idx_from as int);
            lemma_update_entry(self.balances@, idx_from as int, (from_amt - amount) as u128);
        }
        let ghost mid = self.balances@.update(
            idx_from as int,
            (BalanceEntry { account: from, token: t, amount: (from_amt - amount) as u128 }),
        );
        self.balances[idx_from] = BalanceEntry {
            account: from,
            token: t,
            amount: from_amt - amount,
        };
        proof {
            assert(self.balances@ == mid);
        }
        match self.find_entry(to, t) {
            Some(j) => {
                let to_amt = self.balances[j].amount;
                proof {
                    lemma_bal_at_index(self.balances@, j as int);
                    lemma_bal_le_sum(self.balances@, to, t);
                    lemma_token_sum_nonneg(old(self).balances@, t);
                    assert(token_sum(mid, t) == token_sum(old(self).balances@, t) - amount);
                    assert(token_sum(old(self).balances@, t) == old(self).spec_supply(t) as int);
                    assert(to_amt + amount <= u128::MAX);
                    lemma_update_entry(self.balances@, j as int, (to_amt + amount) as u128);
                }
                self.balances[j] = BalanceEntry {
                    account: to,
                    token: t,
                    amount: to_amt + amount,
                };
            },
            None => {
                proof {
                    lemma_bal_absent(self.balances@, to, t);
                    lemma_push_entry(self.balances@, to, t, amount);
                }
                self.balances.push(BalanceEntry { account: to, token: t, amount });
            },
        }
        proof {
            assert(final(self).supplies_conserved());
        }
    }
}

} // verus!
