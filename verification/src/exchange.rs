//! The exchange: pair registry, liquidity accounting, swap pricing and
//! the transfer orchestration binding them to the token ledger.
//!
//! Every operation is atomic: it performs all its checks before its
//! first state change, so a failing operation leaves the state
//! untouched, returns its distinct error and emits no event.

use vstd::prelude::*;

use crate::errors::Error;
use crate::hashing::spec_pair_hash;
use crate::hashing::spec_derivative_account;
use crate::hashing::pair_hash;
use crate::hashing::derivative_account_id;
use crate::ledger::Ledger;
use crate::ledger::TokenInfo;
use crate::ledger::lp_symbol_of;
use crate::pair::Event;
use crate::pair::TradePair;

verus! {

/// The complete state of the exchange.
pub struct Exchange {
    /// The token ledger the exchange operates against.
    pub ledger: Ledger,
    /// All registered pairs, in order of creation.
    pub pairs: Vec<TradePair>,
    /// Monotonic counter salted into pair identity derivation.
    pub nonce: u64,
    /// All emitted events, in order of occurrence.
    pub events: Vec<Event>,
}

impl Exchange {
    /// The balance of account `a` in token `t`.
    pub open spec fn spec_bal(self, a: u64, t: u128) -> u128 {
        self.ledger.spec_bal(a, t)
    }

    /// Whether a pair is registered under hash `h`.
    pub open spec fn spec_has_pair(self, h: u128) -> bool {
        exists|i: int| 0 <= i < self.pairs@.len() && (#[trigger] self.pairs@[i]).hash == h
    }

    /// The registry index of the pair with hash `h`.
    pub open spec fn spec_pair_idx(self, h: u128) -> int {
        choose|i: int| 0 <= i < self.pairs@.len() && (#[trigger] self.pairs@[i]).hash == h
    }

    /// The pair registered under hash `h`.
    pub open spec fn spec_pair(self, h: u128) -> TradePair {
        self.pairs@[self.spec_pair_idx(h)]
    }

    /// Whether `a` is the pool account of some registered pair. Pool
    /// accounts are derived and have no signing key: they can never be
    /// the sender of an operation, and their balances move only through
    /// the exchange itself.
    pub open spec fn spec_is_pool_account(self, a: u64) -> bool {
        exists|i: int| 0 <= i < self.pairs@.len() && (#[trigger] self.pairs@[i]).account == a
    }

    /// Whether a pair with exactly this base and quote is registered.
    pub open spec fn spec_has_pair_bq(self, b: u128, q: u128) -> bool {
        exists|i: int|
            0 <= i < self.pairs@.len() && (#[trigger] self.pairs@[i]).base == b
                && self.pairs@[i].quote == q
    }

    /// Pair uniqueness: no two registered pairs share a hash, a pool
    /// account, an LP token, or an unordered `{base, quote}` set.
    pub open spec fn pairs_unique(self) -> bool {
        forall|i: int, j: int|
            #![trigger self.pairs@[i], self.pairs@[j]]
            0 <= i < j < self.pairs@.len() ==> {
                let p = self.pairs@[i];
                let r = self.pairs@[j];
                &&& p.hash != r.hash
                &&& p.account != r.account
                &&& p.liquidity_token_hash != r.liquidity_token_hash
                &&& !(p.base == r.base && p.quote == r.quote)
                &&& !(p.base == r.quote && p.quote == r.base)
            }
    }

    /// Structural soundness of one registered pair: distinct issued
    /// tokens, and an LP token minted at full supply.
    pub open spec fn pair_tokens_wf(self, p: TradePair) -> bool {
        &&& p.base != p.quote
        &&& self.ledger.has_token(p.base)
        &&& self.ledger.has_token(p.quote)
        &&& self.ledger.has_token(p.liquidity_token_hash)
        &&& p.liquidity_token_hash != p.base
        &&& p.liquidity_token_hash != p.quote
        &&& self.ledger.spec_supply(p.liquidity_token_hash) == u128::MAX
    }

    /// LP conservation: for every pair, the issued shares plus the pool
    /// account's own LP balance equal the LP token's full supply.
    pub open spec fn lp_conservation(self) -> bool {
        forall|i: int|
            0 <= i < self.pairs@.len() ==> {
                let p = #[trigger] self.pairs@[i];
                p.liquidity_token_issued_amount + self.spec_bal(
                    p.account,
                    p.liquidity_token_hash,
                ) == u128::MAX
            }
    }

    /// Reserve linkage: a pair with issued shares has both reserves
    /// positive; a pair with no issued shares has both reserves zero.
    pub open spec fn reserve_linkage(self) -> bool {
        forall|i: int|
            0 <= i < self.pairs@.len() ==> {
                let p = #[trigger] self.pairs@[i];
                &&& (p.liquidity_token_issued_amount > 0 ==> self.spec_bal(p.account, p.base) > 0
                    && self.spec_bal(p.account, p.quote) > 0)
                &&& (p.liquidity_token_issued_amount == 0 ==> self.spec_bal(p.account, p.base) == 0
                    && self.spec_bal(p.account, p.quote) == 0)
            }
    }

    /// Well-formedness of the whole exchange. Established by `new` and
    /// preserved by every operation.
    pub open spec fn wf(self) -> bool {
        &&& self.ledger.wf()
        &&& self.pairs_unique()
        &&& forall|i: int|
            0 <= i < self.pairs@.len() ==> self.pair_tokens_wf(#[trigger] self.pairs@[i])
        &&& self.lp_conservation()
        &&& self.reserve_linkage()
    }

    /// An empty exchange over an empty ledger.
    pub fn new() -> (r: Exchange)
        ensures
            r.wf(),
            r.pairs@.len() == 0,
            r.nonce == 0,
            r.events@.len() == 0,
            r.ledger.tokens@.len() == 0,
            r.ledger.balances@.len() == 0,
    {
        Exchange { ledger: Ledger::new(), pairs: Vec::new(), nonce: 0, events: Vec::new() }
    }

    /// A hash names at most one registry index.
    pub proof fn lemma_pair_idx(self, i: int)
        requires
            self.pairs_unique(),
            0 <= i < self.pairs@.len(),
        ensures
            self.spec_has_pair(self.pairs@[i].hash),
            self.spec_pair_idx(self.pairs@[i].hash) == i,
            self.spec_pair(self.pairs@[i].hash) == self.pairs@[i],
    {
        let h = self.pairs@[i].hash;
        assert(self.spec_has_pair(h));
        let j = self.spec_pair_idx(h);
        assert(0 <= j < self.pairs@.len() && self.pairs@[j].hash == h);
        if i < j {
            assert(self.pairs@[i].hash != self.pairs@[j].hash);
        } else if j < i {
            assert(self.pairs@[j].hash != self.pairs@[i].hash);
        }
    }

    /// The registry index of the pair with hash `h`, if any.
    fn find_pair(&self, h: u128) -> (r: Option<usize>)
        ensures
            match r {
                Some(i) => i < self.pairs@.len() && self.pairs@[i as int].hash == h,
                None => !self.spec_has_pair(h),
            },
    {
        let n = self.pairs.len();
        let mut j: usize = 0;
        while j < n
            invariant
                n == self.pairs@.len(),
                j <= n,
                forall|k: int| 0 <= k < j ==> (#[trigger] self.pairs@[k]).hash != h,
            decreases n - j,
        {
            if self.pairs[j].hash == h {
                return Some(j);
            }
            j = j + 1;
        }
        None
    }

    /// The pair registered under `h`, or `None` when there is none.
    pub fn trade_pair(&self, h: u128) -> (r: Option<TradePair>)
        requires
            self.wf(),
        ensures
            match r {
                Some(p) => self.spec_has_pair(h) && p == self.spec_pair(h),
                None => !self.spec_has_pair(h),
            },
    {
        match self.find_pair(h) {
            Some(i) => {
                proof {
                    self.lemma_pair_idx(i as int);
                }
                Some(self.pairs[i])
            },
            None => None,
        }
    }

    /// The hash registered for exactly this `(base, quote)` ordering,
    /// or `None`. The opposite ordering is a different key.
    pub fn trade_pair_hash_by_base_quote(&self, key: (u128, u128)) -> (r: Option<u128>)
        requires
            self.wf(),
        ensures
            match r {
                Some(h) => self.spec_has_pair_bq(key.0, key.1) && self.spec_has_pair(h)
                    && self.spec_pair(h).base == key.0 && self.spec_pair(h).quote == key.1,
                None => !self.spec_has_pair_bq(key.0, key.1),
            },
    {
        let n = self.pairs.len();
        let mut j: usize = 0;
        while j < n
            invariant
                self.wf(),
                n == self.pairs@.len(),
                j <= n,
                forall|k: int|
                    0 <= k < j ==> !((#[trigger] self.pairs@[k]).base == key.0
                        && self.pairs@[k].quote == key.1),
            decreases n - j,
        {
            let p = self.pairs[j];
            if p.base == key.0 && p.quote == key.1 {
                proof {
                    self.lemma_pair_idx(j as int);
                }
                return Some(p.hash);
            }
            j = j + 1;
        }
        None
    }

    /// The hash of the `i`-th created pair, if there is one.
    pub fn trade_pair_hash_by_index(&self, i: u64) -> (r: Option<u128>)
        ensures
            match r {
                Some(h) => (i as int) < self.pairs@.len() && h == self.pairs@[i as int].hash,
                None => (i as int) >= self.pairs@.len(),
            },
    {
        if (i as u128) < self.pairs.len() as u128 {
            Some(self.pairs[i as usize].hash)
        } else {
            None
        }
    }

    /// How many pairs have been created.
    pub fn trade_pair_index(&self) -> (r: u64)
        ensures
            r == self.pairs@.len(),
    {
        self.pairs.len() as u64
    }

    /// Whether `a` is the pool account of some registered pair.
    pub fn is_pool_account(&self, a: u64) -> (r: bool)
        ensures
            r == self.spec_is_pool_account(a),
    {
        let n = self.pairs.len();
        let mut j: usize = 0;
        while j < n
            invariant
                n == self.pairs@.len(),
                j <= n,
                forall|k: int| 0 <= k < j ==> (#[trigger] self.pairs@[k]).account != a,
            decreases n - j,
        {
            if self.pairs[j].account == a {
                return true;
            }
            j = j + 1;
        }
        false
    }

    /// The balance of the `(account, token)` key.
    pub fn balance_of(&self, key: (u64, u128)) -> (r: u128)
        requires
            self.wf(),
        ensures
            r == self.spec_bal(key.0, key.1),
    {
        self.ledger.balance_of(key)
    }

    /// The metadata of token `t`, or `None` when it was never issued.
    pub fn token(&self, t: u128) -> (r: Option<TokenInfo>)
        ensures
            match r {
                Some(info) => {
                    &&& self.ledger.has_token(t)
                    &&& info.token_hash == self.ledger.tokens@[t as int].token_hash
                    &&& info.owner == self.ledger.tokens@[t as int].owner
                    &&& info.symbol@ == self.ledger.tokens@[t as int].symbol@
                    &&& info.total_supply == self.ledger.tokens@[t as int].total_supply
                },
                None => !self.ledger.has_token(t),
            },
    {
        self.ledger.token(t)
    }

    /// The owner of token `t`, or `None` when it was never issued.
    pub fn owner(&self, t: u128) -> (r: Option<u64>)
        ensures
            match r {
                Some(o) => self.ledger.has_token(t) && o == self.ledger.spec_owner(t),
                None => !self.ledger.has_token(t),
            },
    {
        self.ledger.owner(t)
    }

    /// The identifier of the `i`-th issued token, if there is one.
    pub fn token_hash_by_index(&self, i: u64) -> (r: Option<u128>)
        ensures
            match r {
                Some(h) => (i as int) < self.ledger.tokens@.len() && h == self.ledger.tokens@[i as int].token_hash,
                None => (i as int) >= self.ledger.tokens@.len(),
            },
    {
        self.ledger.token_hash_by_index(i)
    }

    /// Fails exactly when `t` was never issued or the balance of
    /// `account` in `t` is below `amount`; never changes state.
    pub fn ensure_free_balance(&self, account: u64, t: u128, amount: u128) -> (r: Result<
        (),
        Error,
    >)
        requires
            self.wf(),
        ensures
            r is Ok <==> self.ledger.has_token(t) && amount <= self.spec_bal(account, t),
            r is Err ==> r->Err_0 == (if !self.ledger.has_token(t) {
                Error::TokenNotFound
            } else {
                Error::InsufficientBalance
            }),
    {
        self.ledger.ensure_free_balance(account, t, amount)
    }

    /// Issues a new token with the given symbol, minting the entire
    /// supply to `owner`, and returns the fresh token identifier.
    pub fn do_issue(&mut self, owner: u64, symbol: Vec<u8>, total_supply: u128) -> (r: u128)
        requires
            old(self).wf(),
        ensures
            final(self).wf(),
            r == old(self).ledger.tokens@.len(),
            final(self).ledger.tokens@.len() == old(self).ledger.tokens@.len() + 1,
            forall|i: int|
                0 <= i < old(self).ledger.tokens@.len() ==> final(self).ledger.tokens@[i] == old(
                    self,
                ).ledger.tokens@[i],
            final(self).ledger.tokens@[r as int].token_hash == r,
            final(self).ledger.tokens@[r as int].owner == owner,
            final(self).ledger.tokens@[r as int].symbol@ == symbol@,
            final(self).ledger.tokens@[r as int].total_supply == total_supply,
            final(self).spec_bal(owner, r) == total_supply,
            forall|a: u64| a != owner ==> final(self).spec_bal(a, r) == 0,
            forall|a: u64, t: u128|
                t != r ==> final(self).spec_bal(a, t) == old(self).spec_bal(a, t),
            final(self).pairs@ == old(self).pairs@,
            final(self).nonce == old(self).nonce,
            final(self).events@ == old(self).events@,
    {
        let r = self.ledger.do_issue(owner, symbol, total_supply);
        proof {
            let post = *self;
            let pre = *old(self);
            assert forall|i: int| 0 <= i < post.pairs@.len() implies post.pair_tokens_wf(
                #[trigger] post.pairs@[i],
            ) by {
                assert(pre.pair_tokens_wf(pre.pairs@[i]));
                let p = post.pairs@[i];
                assert(p.liquidity_token_hash != r && p.base != r && p.quote != r);
            }
            assert(post.lp_conservation()) by {
                assert forall|i: int| 0 <= i < post.pairs@.len() implies {
                    let p = #[trigger] post.pairs@[i];
                    p.liquidity_token_issued_amount + post.spec_bal(
                        p.account,
                        p.liquidity_token_hash,
                    ) == u128::MAX
                } by {
                    assert(pre.pair_tokens_wf(pre.pairs@[i]));
                }
            }
            assert(post.reserve_linkage()) by {
                assert forall|i: int| 0 <= i < post.pairs@.len() implies {
                    let p = #[trigger] post.pairs@[i];
                    &&& (p.liquidity_token_issued_amount > 0 ==> post.spec_bal(p.account, p.base)
                        > 0 && post.spec_bal(p.account, p.quote) > 0)
                    &&& (p.liquidity_token_issued_amount == 0 ==> post.spec_bal(p.account, p.base)
                        == 0 && post.spec_bal(p.account, p.quote) == 0)
                } by {
                    assert(pre.pair_tokens_wf(pre.pairs@[i]));
                }
            }
        }
        r
    }

    /// A plain ledger transfer between user accounts. Pool accounts are
    /// custodians whose balances move only through the exchange
    /// operations, so neither side may be one.
    pub fn do_transfer(
        &mut self,
        from: u64,
        to: u64,
        token: u128,
        amount: u128,
        _memo: Option<Vec<u8>>,
    ) -> (r: Result<(), Error>)
        requires
            old(self).wf(),
            !old(self).spec_is_pool_account(from),
            !old(self).spec_is_pool_account(to),
        ensures
            final(self).wf(),
            r is Ok <==> old(self).ledger.has_token(token) && amount <= old(self).spec_bal(
                from,
                token,
            ),
            r is Err ==> *final(self) == *old(self) && r->Err_0 == (if !old(
                self,
            ).ledger.has_token(token) {
                Error::TokenNotFound
            } else {
                Error::InsufficientBalance
            }),
            r is Ok && from != to ==> final(self).spec_bal(from, token) == old(self).spec_bal(
                from,
                token,
            ) - amount && final(self).spec_bal(to, token) == old(self).spec_bal(to, token)
                + amount,
            r is Ok && from == to ==> final(self).spec_bal(from, token) == old(self).spec_bal(
                from,
                token,
            ),
            forall|a2: u64, t2: u128|
                !(a2 == from && t2 == token) && !(a2 == to && t2 == token)
                    ==> final(self).spec_bal(a2, t2) == old(self).spec_bal(a2, t2),
            final(self).pairs@ == old(self).pairs@,
            final(self).ledger.tokens@ == old(self).ledger.tokens@,
            final(self).nonce == old(self).nonce,
            final(self).events@ == old(self).events@,
    {
        match self.ledger.ensure_free_balance(from, token, amount) {
            Err(e) => Err(e),
            Ok(()) => {
                self.ledger.transfer_unchecked(from, to, token, amount);
                proof {
                    self.lemma_user_balances_preserve_wf(*old(self), from, to);
                }
                Ok(())
            },
        }
    }

    /// The error `do_create_trade_pair` returns, or `None` when it
    /// succeeds: the checks in their order of evaluation.
    pub open spec fn create_trade_pair_err(
        self,
        sender: u64,
        base: u128,
        quote: u128,
        random_seed: u128,
        block_number: u64,
    ) -> Option<Error> {
        if base == quote {
            Some(Error::BaseEqualQuote)
        } else if !self.ledger.has_token(base) || !self.ledger.has_token(quote) {
            Some(Error::TokenOwnerNotFound)
        } else if sender != self.ledger.spec_owner(base) && sender != self.ledger.spec_owner(
            quote,
        ) {
            Some(Error::SenderNotEqualToBaseOrQuoteOwner)
        } else if self.spec_has_pair_bq(base, quote) || self.spec_has_pair_bq(quote, base) {
            Some(Error::TradePairExisted)
        } else {
            let h = spec_pair_hash(random_seed, block_number, sender, base, quote, self.nonce);
            let acct = spec_derivative_account(base, quote, h);
            if self.spec_has_pair(h) || self.spec_is_pool_account(acct) || self.spec_bal(
                acct,
                base,
            ) != 0 || self.spec_bal(acct, quote) != 0 {
                Some(Error::IdentityCollision)
            } else {
                None
            }
        }
    }

    /// The pair that a successful `do_create_trade_pair` registers.
    pub open spec fn spec_created_pair(
        self,
        sender: u64,
        base: u128,
        quote: u128,
        random_seed: u128,
        block_number: u64,
    ) -> TradePair {
        let h = spec_pair_hash(random_seed, block_number, sender, base, quote, self.nonce);
        (TradePair {
            hash: h,
            base,
            quote,
            liquidity_token_hash: self.ledger.tokens@.len() as u128,
            liquidity_token_issued_amount: 0,
            account: spec_derivative_account(base, quote, h),
        })
    }

    /// Registers a new pair between `base` and `quote`.
    ///
    /// Only the owner of one of the two tokens may create the pair, and
    /// only once per unordered token set. The pair's identity is hashed
    /// from the creation tuple, salted with the caller-supplied
    /// randomness, the block number and the registry nonce; its pool
    /// account is derived from `(base, quote, hash)`. A fresh LP token
    /// is issued at full supply to the pool account.
    pub fn do_create_trade_pair(
        &mut self,
        sender: u64,
        base: u128,
        quote: u128,
        random_seed: u128,
        block_number: u64,
    ) -> (r: Result<(), Error>)
        requires
            old(self).wf(),
            !old(self).spec_is_pool_account(sender),
            old(self).nonce < u64::MAX,
        ensures
            final(self).wf(),
            r is Err ==> *final(self) == *old(self) && Some(r->Err_0) == old(
                self,
            ).create_trade_pair_err(sender, base, quote, random_seed, block_number),
            r is Ok ==> old(self).create_trade_pair_err(
                sender,
                base,
                quote,
                random_seed,
                block_number,
            ) is None,
            r is Ok ==> ({
                let p = old(self).spec_created_pair(sender, base, quote, random_seed, block_number);
                &&& final(self).pairs@ == old(self).pairs@.push(p)
                &&& final(self).nonce == old(self).nonce + 1
                &&& final(self).ledger.tokens@.len() == old(self).ledger.tokens@.len() + 1
                &&& forall|i: int|
                    0 <= i < old(self).ledger.tokens@.len() ==> final(self).ledger.tokens@[i]
                        == old(self).ledger.tokens@[i]
                &&& final(self).ledger.tokens@[p.liquidity_token_hash as int].symbol@
                    == lp_symbol_of(
                    old(self).ledger.tokens@[base as int].symbol@,
                    old(self).ledger.tokens@[quote as int].symbol@,
                )
                &&& final(self).ledger.tokens@[p.liquidity_token_hash as int].total_supply
                    == u128::MAX
                &&& final(self).ledger.tokens@[p.liquidity_token_hash as int].owner == p.account
                &&& final(self).spec_bal(p.account, p.liquidity_token_hash) == u128::MAX
                &&& forall|a: u64, t: u128|
                    !(a == p.account && t == p.liquidity_token_hash) ==> final(self).spec_bal(a, t)
                        == old(self).spec_bal(a, t)
                &&& final(self).events@ == old(self).events@.push(
                    Event::TradePairCreated(sender, p.hash, p),
                )
            }),
    {
        if base == quote {
            return Err(Error::BaseEqualQuote);
        }
        let base_owner = match self.ledger.owner(base) {
            Some(o) => o,
            None => {
                return Err(Error::TokenOwnerNotFound);
            },
        };
        let quote_owner = match self.ledger.owner(quote) {
            Some(o) => o,
            None => {
                return Err(Error::TokenOwnerNotFound);
            },
        };
        if !(sender == base_owner || sender == quote_owner) {
            return Err(Error::SenderNotEqualToBaseOrQuoteOwner);
        }
        let bq = self.trade_pair_hash_by_base_quote((base, quote));
        let qb = self.trade_pair_hash_by_base_quote((quote, base));
        if bq.is_some() || qb.is_some() {
            return Err(Error::TradePairExisted);
        }
        let h = pair_hash(random_seed, block_number, sender, base, quote, self.nonce);
        let account = derivative_account_id(base, quote, h);
        let hash_taken = self.find_pair(h);
        let acct_taken = self.is_pool_account(account);
        let acct_base = self.ledger.balance_of((account, base));
        let acct_quote = self.ledger.balance_of((account, quote));
        if hash_taken.is_some() || acct_taken || acct_base != 0 || acct_quote != 0 {
            proof {
                if hash_taken is Some {
                    self.lemma_pair_idx(hash_taken.unwrap() as int);
                }
            }
            return Err(Error::IdentityCollision);
        }
        let lt_name = self.ledger.lp_symbol(base, quote);
        let lp = self.ledger.do_issue(account, lt_name, u128::MAX);
        let tp = TradePair {
            hash: h,
            base,
            quote,
            liquidity_token_hash: lp,
            liquidity_token_issued_amount: 0,
            account,
        };
        self.nonce = self.nonce + 1;
        self.pairs.push(tp);
        self.events.push(Event::TradePairCreated(sender, h, tp));
        proof {
            let pre = *old(self);
            let post = *self;
            let np = post.pairs@.len() - 1;
            assert(post.pairs@[np] == tp);
            assert(forall|i: int| 0 <= i < np ==> post.pairs@[i] == pre.pairs@[i]);
            // Uniqueness against every previously registered pair.
            assert forall|i: int, j: int|
                #![trigger post.pairs@[i], post.pairs@[j]]
                0 <= i < j < post.pairs@.len() implies {
                let p = post.pairs@[i];
                let q = post.pairs@[j];
                &&& p.hash != q.hash
                &&& p.account != q.account
                &&& p.liquidity_token_hash != q.liquidity_token_hash
                &&& !(p.base == q.base && p.quote == q.quote)
                &&& !(p.base == q.quote && p.quote == q.base)
            } by {
                if j == np {
                    let p = post.pairs@[i];
                    assert(p == pre.pairs@[i]);
                    assert(pre.pair_tokens_wf(pre.pairs@[i]));
                    assert(p.hash != h);
                    assert(p.account != account);
                    assert(p.liquidity_token_hash < pre.ledger.tokens@.len());
                    assert(!(p.base == base && p.quote == quote));
                    assert(!(p.base == quote && p.quote == base));
                }
            }
            // Structural soundness, conservation and linkage of every
            // pair in the new state.
            assert forall|i: int| 0 <= i < post.pairs@.len() implies post.pair_tokens_wf(
                #[trigger] post.pairs@[i],
            ) by {
                if i < np {
                    assert(pre.pair_tokens_wf(pre.pairs@[i]));
                    assert(post.pairs@[i] == pre.pairs@[i]);
                }
            }
            assert forall|i: int| 0 <= i < post.pairs@.len() implies {
                let p = #[trigger] post.pairs@[i];
                p.liquidity_token_issued_amount + post.spec_bal(p.account, p.liquidity_token_hash)
                    == u128::MAX
            } by {
                if i < np {
                    assert(pre.pair_tokens_wf(pre.pairs@[i]));
                    assert(pre.pairs@[i].account != account);
                }
            }
            assert forall|i: int| 0 <= i < post.pairs@.len() implies {
                let p = #[trigger] post.pairs@[i];
                &&& (p.liquidity_token_issued_amount > 0 ==> post.spec_bal(p.account, p.base) > 0
                    && post.spec_bal(p.account, p.quote) > 0)
                &&& (p.liquidity_token_issued_amount == 0 ==> post.spec_bal(p.account, p.base) == 0
                    && post.spec_bal(p.account, p.quote) == 0)
            } by {
                if i < np {
                    assert(pre.pair_tokens_wf(pre.pairs@[i]));
                    assert(pre.pairs@[i].account != account);
                } else {
                    assert(post.pairs@[i] == tp);
                    assert(post.spec_bal(account, base) == pre.spec_bal(account, base));
                    assert(post.spec_bal(account, quote) == pre.spec_bal(account, quote));
                }
            }
            // A balance in the fresh LP token was zero beforehand: the
            // old ledger has no entry for a token it never issued.
            assert forall|a: u64, t: u128| !(a == account && t == lp) implies post.spec_bal(a, t)
                == pre.spec_bal(a, t) by {
                if t == lp {
                    crate::ledger::lemma_bal_absent(pre.ledger.balances@, a, lp);
                }
            }
        }
        Ok(())
    }

    /// The error `do_add_liquidity` returns, or `None` when it
    /// succeeds: the checks in their order of evaluation.
    pub open spec fn add_liquidity_err(
        self,
        sender: u64,
        hash: u128,
        base_amount: u128,
        o_quote_amount: Option<u128>,
    ) -> Option<Error> {
        if !self.spec_has_pair(hash) {
            Some(Error::NoMatchingTradePair)
        } else {
            let p = self.spec_pair(hash);
            let pq = self.spec_bal(p.account, p.quote);
            let issued = p.liquidity_token_issued_amount;
            let bootstrap = pq == 0 || issued == 0;
            if base_amount == 0 {
                Some(Error::BaseAmountIsZero)
            } else if self.spec_bal(sender, p.base) < base_amount {
                Some(Error::InsufficientBalance)
            } else if bootstrap && o_quote_amount is None {
                Some(Error::QuoteAmountIsNone)
            } else if !bootstrap && pq * base_amount > u128::MAX {
                Some(Error::Overflow)
            } else if !bootstrap && issued * base_amount > u128::MAX {
                Some(Error::Overflow)
            } else {
                let qa = self.add_quote_amount(hash, base_amount, o_quote_amount);
                let minted = self.add_minted_amount(hash, base_amount);
                if qa == 0 {
                    Some(Error::QuoteAmountIsZero)
                } else if minted == 0 {
                    Some(Error::LiquidityMintedIsZero)
                } else if self.spec_bal(sender, p.quote) < qa {
                    Some(Error::InsufficientBalance)
                } else if self.spec_bal(p.account, p.liquidity_token_hash) < minted {
                    Some(Error::InsufficientBalance)
                } else {
                    None
                }
            }
        }
    }

    /// The quote a deposit draws: the caller's own amount on a
    /// bootstrap deposit, the pool-ratio amount (floored) otherwise.
    pub open spec fn add_quote_amount(
        self,
        hash: u128,
        base_amount: u128,
        o_quote_amount: Option<u128>,
    ) -> int {
        let p = self.spec_pair(hash);
        let pb = self.spec_bal(p.account, p.base);
        let pq = self.spec_bal(p.account, p.quote);
        if pq == 0 || p.liquidity_token_issued_amount == 0 {
            o_quote_amount.unwrap() as int
        } else {
            (pq * base_amount) / (pb as int)
        }
    }

    /// The LP shares a deposit mints: the base amount itself on a
    /// bootstrap deposit, the pro-rata share (floored) otherwise.
    pub open spec fn add_minted_amount(self, hash: u128, base_amount: u128) -> int {
        let p = self.spec_pair(hash);
        let pb = self.spec_bal(p.account, p.base);
        let pq = self.spec_bal(p.account, p.quote);
        if pq == 0 || p.liquidity_token_issued_amount == 0 {
            base_amount as int
        } else {
            (p.liquidity_token_issued_amount * base_amount) / (pb as int)
        }
    }

    /// Deposits `base_amount` base plus matching quote into the pool of
    /// the pair under `hash`, minting LP shares to `sender`.
    ///
    /// On the first deposit (empty pool), the sender supplies the quote
    /// amount and so sets the initial price; minted shares equal the
    /// base deposited. Afterwards the quote and the minted shares
    /// follow the pool ratio with floor division, so a base amount that
    /// does not divide cleanly donates the dust to the pool.
    pub fn do_add_liquidity(
        &mut self,
        sender: u64,
        hash: u128,
        base_amount: u128,
        o_quote_amount: Option<u128>,
    ) -> (r: Result<(), Error>)
        requires
            old(self).wf(),
            !old(self).spec_is_pool_account(sender),
        ensures
            final(self).wf(),
            r is Err ==> *final(self) == *old(self) && Some(r->Err_0) == old(
                self,
            ).add_liquidity_err(sender, hash, base_amount, o_quote_amount),
            r is Ok ==> old(self).add_liquidity_err(sender, hash, base_amount, o_quote_amount)
                is None,
            r is Ok ==> ({
                let p = old(self).spec_pair(hash);
                let qa = old(self).add_quote_amount(hash, base_amount, o_quote_amount);
                let m = old(self).add_minted_amount(hash, base_amount);
                &&& final(self).pairs@ == old(self).pairs@.update(
                    old(self).spec_pair_idx(hash),
                    (TradePair {
                        liquidity_token_issued_amount: (p.liquidity_token_issued_amount + m) as u128,
                        ..p
                    }),
                )
                &&& final(self).spec_bal(sender, p.base) == old(self).spec_bal(sender, p.base)
                    - base_amount
                &&& final(self).spec_bal(sender, p.quote) == old(self).spec_bal(sender, p.quote)
                    - qa
                &&& final(self).spec_bal(sender, p.liquidity_token_hash) == old(self).spec_bal(
                    sender,
                    p.liquidity_token_hash,
                ) + m
                &&& final(self).spec_bal(p.account, p.base) == old(self).spec_bal(
                    p.account,
                    p.base,
                ) + base_amount
                &&& final(self).spec_bal(p.account, p.quote) == old(self).spec_bal(
                    p.account,
                    p.quote,
                ) + qa
                &&& final(self).spec_bal(p.account, p.liquidity_token_hash) == old(self).spec_bal(
                    p.account,
                    p.liquidity_token_hash,
                ) - m
                &&& forall|a: u64, t: u128|
                    (a != sender && a != p.account) || (t != p.base && t != p.quote && t
                        != p.liquidity_token_hash) ==> final(self).spec_bal(a, t) == old(
                        self,
                    ).spec_bal(a, t)
                &&& final(self).ledger.tokens@ == old(self).ledger.tokens@
                &&& final(self).nonce == old(self).nonce
                &&& final(self).events@ == old(self).events@.push(
                    Event::LiquidityAdded(sender, hash),
                )
            }),
    {
        let idx = match self.find_pair(hash) {
            Some(i) => i,
            None => {
                return Err(Error::NoMatchingTradePair);
            },
        };
        proof {
            self.lemma_pair_idx(idx as int);
            assert(old(self).pair_tokens_wf(old(self).pairs@[idx as int]));
        }
        let tp = self.pairs[idx];
        proof {
            assert(old(self).spec_is_pool_account(tp.account));
            assert(sender != tp.account);
        }
        if base_amount == 0 {
            return Err(Error::BaseAmountIsZero);
        }
        match self.ledger.ensure_free_balance(sender, tp.base, base_amount) {
            Err(e) => {
                return Err(e);
            },
            Ok(()) => {},
        }
        let pool_b = self.ledger.balance_of((tp.account, tp.base));
        let pool_q = self.ledger.balance_of((tp.account, tp.quote));
        let issued = tp.liquidity_token_issued_amount;
        let bootstrap = pool_q == 0 || issued == 0;
        let quote_amount: u128;
        let minted: u128;
        if bootstrap {
            quote_amount = match o_quote_amount {
                Some(q) => q,
                None => {
                    return Err(Error::QuoteAmountIsNone);
                },
            };
            minted = base_amount;
        } else {
            proof {
                // A pool with issued shares has a positive base reserve.
                assert(pool_b > 0);
            }
            let prod_q = match pool_q.checked_mul(base_amount) {
                Some(v) => v,
                None => {
                    return Err(Error::Overflow);
                },
            };
            quote_amount = prod_q / pool_b;
            let prod_l = match issued.checked_mul(base_amount) {
                Some(v) => v,
                None => {
                    return Err(Error::Overflow);
                },
            };
            minted = prod_l / pool_b;
        }
        if quote_amount == 0 {
            return Err(Error::QuoteAmountIsZero);
        }
        if minted == 0 {
            return Err(Error::LiquidityMintedIsZero);
        }
        match self.ledger.ensure_free_balance(sender, tp.quote, quote_amount) {
            Err(e) => {
                return Err(e);
            },
            Ok(()) => {},
        }
        match self.ledger.ensure_free_balance(tp.account, tp.liquidity_token_hash, minted) {
            Err(e) => {
                return Err(e);
            },
            Ok(()) => {},
        }
        let ghost s0 = *self;
        self.ledger.transfer_unchecked(sender, tp.account, tp.base, base_amount);
        let ghost s1 = *self;
        proof {
            assert(s1.spec_bal(sender, tp.quote) == s0.spec_bal(sender, tp.quote));
            assert(s1.spec_bal(tp.account, tp.quote) == s0.spec_bal(tp.account, tp.quote));
            assert(s1.spec_bal(tp.account, tp.liquidity_token_hash) == s0.spec_bal(
                tp.account,
                tp.liquidity_token_hash,
            ));
        }
        self.ledger.transfer_unchecked(sender, tp.account, tp.quote, quote_amount);
        let ghost s2 = *self;
        proof {
            assert(s2.spec_bal(tp.account, tp.liquidity_token_hash) == s0.spec_bal(
                tp.account,
                tp.liquidity_token_hash,
            ));
        }
        self.ledger.transfer_unchecked(tp.account, sender, tp.liquidity_token_hash, minted);
        proof {
            // Conservation bounds the new issued amount by the supply.
            assert(issued + s0.spec_bal(tp.account, tp.liquidity_token_hash) == u128::MAX);
            assert(issued + minted <= u128::MAX);
        }
        let new_tp = TradePair { liquidity_token_issued_amount: issued + minted, ..tp };
        self.pairs[idx] = new_tp;
        self.events.push(Event::LiquidityAdded(sender, hash));
        proof {
            let pre = *old(self);
            let post = *self;
            assert forall|a: u64, t: u128| a != sender && a != tp.account implies post.spec_bal(
                a,
                t,
            ) == pre.spec_bal(a, t) by {}
            self.lemma_other_pairs_preserved(pre, sender, idx as int);
            assert(post.pairs@[idx as int] == new_tp);
            assert(post.spec_bal(tp.account, tp.base) == pre.spec_bal(tp.account, tp.base)
                + base_amount);
            assert(post.spec_bal(tp.account, tp.quote) == pre.spec_bal(tp.account, tp.quote)
                + quote_amount);
            assert(post.spec_bal(tp.account, tp.liquidity_token_hash) == pre.spec_bal(
                tp.account,
                tp.liquidity_token_hash,
            ) - minted);
            assert forall|i: int| 0 <= i < post.pairs@.len() implies {
                let p = #[trigger] post.pairs@[i];
                p.liquidity_token_issued_amount + post.spec_bal(p.account, p.liquidity_token_hash)
                    == u128::MAX
            } by {
                if i != idx as int {
                    assert(pre.pairs@[i] == post.pairs@[i]);
                }
            }
            assert forall|i: int| 0 <= i < post.pairs@.len() implies {
                let p = #[trigger] post.pairs@[i];
                &&& (p.liquidity_token_issued_amount > 0 ==> post.spec_bal(p.account, p.base) > 0
                    && post.spec_bal(p.account, p.quote) > 0)
                &&& (p.liquidity_token_issued_amount == 0 ==> post.spec_bal(p.account, p.base) == 0
                    && post.spec_bal(p.account, p.quote) == 0)
            } by {
                if i != idx as int {
                    assert(pre.pairs@[i] == post.pairs@[i]);
                }
            }
        }
        Ok(())
    }

    /// The error `do_remove_liquidity` returns, or `None` when it
    /// succeeds: the checks in their order of evaluation.
    pub open spec fn remove_liquidity_err(self, sender: u64, hash: u128, lp_amount: u128) -> Option<
        Error,
    > {
        if !self.spec_has_pair(hash) {
            Some(Error::NoMatchingTradePair)
        } else {
            let p = self.spec_pair(hash);
            let issued = p.liquidity_token_issued_amount;
            let pb = self.spec_bal(p.account, p.base);
            let pq = self.spec_bal(p.account, p.quote);
            if lp_amount > issued {
                Some(Error::LiquidityTokenAmountOverflow)
            } else if lp_amount == 0 {
                Some(Error::LiquidityTokenAmountIsZero)
            } else if issued == 0 {
                Some(Error::LiquidityTokenIssuedAmountIsZero)
            } else if pb == 0 {
                Some(Error::PoolBaseAmountIsZero)
            } else if pq == 0 {
                Some(Error::PoolQuoteAmountIsZero)
            } else if pb * lp_amount > u128::MAX {
                Some(Error::Overflow)
            } else if pq * lp_amount > u128::MAX {
                Some(Error::Overflow)
            } else {
                let ba = self.remove_base_amount(hash, lp_amount);
                let qa = self.remove_quote_amount(hash, lp_amount);
                if qa == 0 {
                    Some(Error::QuoteAmountIsZero)
                } else if ba == 0 {
                    Some(Error::BaseAmountIsZero)
                } else if pb < ba {
                    Some(Error::InsufficientBalance)
                } else if pq < qa {
                    Some(Error::InsufficientBalance)
                } else if self.spec_bal(sender, p.liquidity_token_hash) < lp_amount {
                    Some(Error::InsufficientBalance)
                } else {
                    None
                }
            }
        }
    }

    /// The base a withdrawal pays out: the burnt share of the base
    /// reserve, floored.
    pub open spec fn remove_base_amount(self, hash: u128, lp_amount: u128) -> int {
        let p = self.spec_pair(hash);
        (self.spec_bal(p.account, p.base) * lp_amount) / (
        p.liquidity_token_issued_amount as int)
    }

    /// The quote a withdrawal pays out: the burnt share of the quote
    /// reserve, floored.
    pub open spec fn remove_quote_amount(self, hash: u128, lp_amount: u128) -> int {
        let p = self.spec_pair(hash);
        (self.spec_bal(p.account, p.quote) * lp_amount) / (
        p.liquidity_token_issued_amount as int)
    }

    /// Burns `lp_amount` of the sender's LP shares of the pair under
    /// `hash` and pays out the pro-rata share of both reserves, floored.
    /// Burning every issued share drains the pool exactly.
    pub fn do_remove_liquidity(&mut self, sender: u64, hash: u128, lp_amount: u128) -> (r: Result<
        (),
        Error,
    >)
        requires
            old(self).wf(),
            !old(self).spec_is_pool_account(sender),
        ensures
            final(self).wf(),
            r is Err ==> *final(self) == *old(self) && Some(r->Err_0) == old(
                self,
            ).remove_liquidity_err(sender, hash, lp_amount),
            r is Ok ==> old(self).remove_liquidity_err(sender, hash, lp_amount) is None,
            r is Ok ==> ({
                let p = old(self).spec_pair(hash);
                let ba = old(self).remove_base_amount(hash, lp_amount);
                let qa = old(self).remove_quote_amount(hash, lp_amount);
                &&& final(self).pairs@ == old(self).pairs@.update(
                    old(self).spec_pair_idx(hash),
                    (TradePair {
                        liquidity_token_issued_amount: (p.liquidity_token_issued_amount
                            - lp_amount) as u128,
                        ..p
                    }),
                )
                &&& final(self).spec_bal(sender, p.base) == old(self).spec_bal(sender, p.base)
                    + ba
                &&& final(self).spec_bal(sender, p.quote) == old(self).spec_bal(sender, p.quote)
                    + qa
                &&& final(self).spec_bal(sender, p.liquidity_token_hash) == old(self).spec_bal(
                    sender,
                    p.liquidity_token_hash,
                ) - lp_amount
                &&& final(self).spec_bal(p.account, p.base) == old(self).spec_bal(
                    p.account,
                    p.base,
                ) - ba
                &&& final(self).spec_bal(p.account, p.quote) == old(self).spec_bal(
                    p.account,
                    p.quote,
                ) - qa
                &&& final(self).spec_bal(p.account, p.liquidity_token_hash) == old(self).spec_bal(
                    p.account,
                    p.liquidity_token_hash,
                ) + lp_amount
                &&& forall|a: u64, t: u128|
                    (a != sender && a != p.account) || (t != p.base && t != p.quote && t
                        != p.liquidity_token_hash) ==> final(self).spec_bal(a, t) == old(
                        self,
                    ).spec_bal(a, t)
                &&& final(self).ledger.tokens@ == old(self).ledger.tokens@
                &&& final(self).nonce == old(self).nonce
                &&& final(self).events@ == old(self).events@.push(
                    Event::LiquidityRemoved(sender, hash),
                )
            }),
    {
        let idx = match self.find_pair(hash) {
            Some(i) => i,
            None => {
                return Err(Error::NoMatchingTradePair);
            },
        };
        proof {
            self.lemma_pair_idx(idx as int);
            assert(old(self).pair_tokens_wf(old(self).pairs@[idx as int]));
        }
        let tp = self.pairs[idx];
        proof {
            assert(old(self).spec_is_pool_account(tp.account));
            assert(sender != tp.account);
        }
        let issued = tp.liquidity_token_issued_amount;
        if lp_amount > issued {
            return Err(Error::LiquidityTokenAmountOverflow);
        }
        if lp_amount == 0 {
            return Err(Error::LiquidityTokenAmountIsZero);
        }
        if issued == 0 {
            return Err(Error::LiquidityTokenIssuedAmountIsZero);
        }
        let pool_b = self.ledger.balance_of((tp.account, tp.base));
        let pool_q = self.ledger.balance_of((tp.account, tp.quote));
        if pool_b == 0 {
            return Err(Error::PoolBaseAmountIsZero);
        }
        if pool_q == 0 {
            return Err(Error::PoolQuoteAmountIsZero);
        }
        let prod_b = match pool_b.checked_mul(lp_amount) {
            Some(v) => v,
            None => {
                return Err(Error::Overflow);
            },
        };
        let base_amount = prod_b / issued;
        let prod_q = match pool_q.checked_mul(lp_amount) {
            Some(v) => v,
            None => {
                return Err(Error::Overflow);
            },
        };
        let quote_amount = prod_q / issued;
        if quote_amount == 0 {
            return Err(Error::QuoteAmountIsZero);
        }
        if base_amount == 0 {
            return Err(Error::BaseAmountIsZero);
        }
        proof {
            crate::math::lemma_mul_div_le_factor(pool_b as int, lp_amount as int, issued as int);
            crate::math::lemma_mul_div_le_factor(pool_q as int, lp_amount as int, issued as int);
        }
        match self.ledger.ensure_free_balance(tp.account, tp.base, base_amount) {
            Err(e) => {
                return Err(e);
            },
            Ok(()) => {},
        }
        match self.ledger.ensure_free_balance(tp.account, tp.quote, quote_amount) {
            Err(e) => {
                return Err(e);
            },
            Ok(()) => {},
        }
        match self.ledger.ensure_free_balance(sender, tp.liquidity_token_hash, lp_amount) {
            Err(e) => {
                return Err(e);
            },
            Ok(()) => {},
        }
        let ghost s0 = *self;
        self.ledger.transfer_unchecked(tp.account, sender, tp.base, base_amount);
        let ghost s1 = *self;
        proof {
            assert(s1.spec_bal(tp.account, tp.quote) == s0.spec_bal(tp.account, tp.quote));
            assert(s1.spec_bal(sender, tp.liquidity_token_hash) == s0.spec_bal(
                sender,
                tp.liquidity_token_hash,
            ));
        }
        self.ledger.transfer_unchecked(tp.account, sender, tp.quote, quote_amount);
        let ghost s2 = *self;
        proof {
            assert(s2.spec_bal(sender, tp.liquidity_token_hash) == s0.spec_bal(
                sender,
                tp.liquidity_token_hash,
            ));
        }
        self.ledger.transfer_unchecked(sender, tp.account, tp.liquidity_token_hash, lp_amount);
        let new_tp = TradePair { liquidity_token_issued_amount: issued - lp_amount, ..tp };
        self.pairs[idx] = new_tp;
        self.events.push(Event::LiquidityRemoved(sender, hash));
        proof {
            let pre = *old(self);
            let post = *self;
            assert forall|a: u64, t: u128| a != sender && a != tp.account implies post.spec_bal(
                a,
                t,
            ) == pre.spec_bal(a, t) by {}
            self.lemma_other_pairs_preserved(pre, sender, idx as int);
            assert(post.pairs@[idx as int] == new_tp);
            assert(post.spec_bal(tp.account, tp.base) == pre.spec_bal(tp.account, tp.base)
                - base_amount);
            assert(post.spec_bal(tp.account, tp.quote) == pre.spec_bal(tp.account, tp.quote)
                - quote_amount);
            assert(post.spec_bal(tp.account, tp.liquidity_token_hash) == pre.spec_bal(
                tp.account,
                tp.liquidity_token_hash,
            ) + lp_amount);
            if lp_amount < issued {
                crate::math::lemma_mul_div_lt_factor(
                    pool_b as int,
                    lp_amount as int,
                    issued as int,
                );
                crate::math::lemma_mul_div_lt_factor(
                    pool_q as int,
                    lp_amount as int,
                    issued as int,
                );
            } else {
                crate::math::lemma_mul_div_exact(pool_b as int, issued as int);
                crate::math::lemma_mul_div_exact(pool_q as int, issued as int);
            }
            assert forall|i: int| 0 <= i < post.pairs@.len() implies {
                let p = #[trigger] post.pairs@[i];
                p.liquidity_token_issued_amount + post.spec_bal(p.account, p.liquidity_token_hash)
                    == u128::MAX
            } by {
                if i != idx as int {
                    assert(pre.pairs@[i] == post.pairs@[i]);
                }
            }
            assert forall|i: int| 0 <= i < post.pairs@.len() implies {
                let p = #[trigger] post.pairs@[i];
                &&& (p.liquidity_token_issued_amount > 0 ==> post.spec_bal(p.account, p.base) > 0
                    && post.spec_bal(p.account, p.quote) > 0)
                &&& (p.liquidity_token_issued_amount == 0 ==> post.spec_bal(p.account, p.base) == 0
                    && post.spec_bal(p.account, p.quote) == 0)
            } by {
                if i != idx as int {
                    assert(pre.pairs@[i] == post.pairs@[i]);
                }
            }
        }
        Ok(())
    }

    /// The error `do_swap_buy` returns, or `None` when it succeeds:
    /// the checks in their order of evaluation.
    pub open spec fn swap_buy_err(self, sender: u64, hash: u128, base_amount: u128) -> Option<
        Error,
    > {
        if !self.spec_has_pair(hash) {
            Some(Error::NoMatchingTradePair)
        } else {
            let p = self.spec_pair(hash);
            let pb = self.spec_bal(p.account, p.base);
            let pq = self.spec_bal(p.account, p.quote);
            if pb == 0 {
                Some(Error::PoolBaseAmountIsZero)
            } else if pq == 0 {
                Some(Error::PoolQuoteAmountIsZero)
            } else if pb + base_amount > u128::MAX {
                Some(Error::Overflow)
            } else if pq * base_amount > u128::MAX {
                Some(Error::Overflow)
            } else {
                let out = self.swap_buy_output(hash, base_amount);
                if out == 0 {
                    Some(Error::QuoteAmountIsZero)
                } else if base_amount == 0 {
                    Some(Error::BaseAmountIsZero)
                } else if self.spec_bal(sender, p.base) < base_amount {
                    Some(Error::InsufficientBalance)
                } else if pq < out {
                    Some(Error::InsufficientBalance)
                } else {
                    None
                }
            }
        }
    }

    /// The quote a buy pays out for `base_amount` paid in, under the
    /// constant-product rule with floor division.
    pub open spec fn swap_buy_output(self, hash: u128, base_amount: u128) -> int {
        let p = self.spec_pair(hash);
        let pb = self.spec_bal(p.account, p.base);
        let pq = self.spec_bal(p.account, p.quote);
        (pq * base_amount) / (pb + base_amount)
    }

    /// Pays `base_amount` base into the pool of the pair under `hash`
    /// and receives quote priced by the constant-product rule. The
    /// issued LP amount is unchanged, and the product of the reserves
    /// never decreases.
    pub fn do_swap_buy(&mut self, sender: u64, hash: u128, base_amount: u128) -> (r: Result<
        (),
        Error,
    >)
        requires
            old(self).wf(),
            !old(self).spec_is_pool_account(sender),
        ensures
            final(self).wf(),
            r is Err ==> *final(self) == *old(self) && Some(r->Err_0) == old(self).swap_buy_err(
                sender,
                hash,
                base_amount,
            ),
            r is Ok ==> old(self).swap_buy_err(sender, hash, base_amount) is None,
            r is Ok ==> ({
                let p = old(self).spec_pair(hash);
                let out = old(self).swap_buy_output(hash, base_amount);
                &&& final(self).pairs@ == old(self).pairs@
                &&& final(self).spec_bal(sender, p.base) == old(self).spec_bal(sender, p.base)
                    - base_amount
                &&& final(self).spec_bal(sender, p.quote) == old(self).spec_bal(sender, p.quote)
                    + out
                &&& final(self).spec_bal(p.account, p.base) == old(self).spec_bal(
                    p.account,
                    p.base,
                ) + base_amount
                &&& final(self).spec_bal(p.account, p.quote) == old(self).spec_bal(
                    p.account,
                    p.quote,
                ) - out
                &&& final(self).spec_bal(p.account, p.base) * final(self).spec_bal(
                    p.account,
                    p.quote,
                ) >= old(self).spec_bal(p.account, p.base) * old(self).spec_bal(
                    p.account,
                    p.quote,
                )
                &&& forall|a: u64, t: u128|
                    (a != sender && a != p.account) || (t != p.base && t != p.quote)
                        ==> final(self).spec_bal(a, t) == old(self).spec_bal(a, t)
                &&& final(self).ledger.tokens@ == old(self).ledger.tokens@
                &&& final(self).nonce == old(self).nonce
                &&& final(self).events@ == old(self).events@.push(Event::SwapBuy(sender, hash))
            }),
    {
        let idx = match self.find_pair(hash) {
            Some(i) => i,
            None => {
                return Err(Error::NoMatchingTradePair);
            },
        };
        proof {
            self.lemma_pair_idx(idx as int);
            assert(old(self).pair_tokens_wf(old(self).pairs@[idx as int]));
        }
        let tp = self.pairs[idx];
        proof {
            assert(old(self).spec_is_pool_account(tp.account));
            assert(sender != tp.account);
        }
        let pool_b = self.ledger.balance_of((tp.account, tp.base));
        let pool_q = self.ledger.balance_of((tp.account, tp.quote));
        if pool_b == 0 {
            return Err(Error::PoolBaseAmountIsZero);
        }
        if pool_q == 0 {
            return Err(Error::PoolQuoteAmountIsZero);
        }
        let denom = match pool_b.checked_add(base_amount) {
            Some(v) => v,
            None => {
                return Err(Error::Overflow);
            },
        };
        let num = match pool_q.checked_mul(base_amount) {
            Some(v) => v,
            None => {
                return Err(Error::Overflow);
            },
        };
        let quote_amount = num / denom;
        if quote_amount == 0 {
            return Err(Error::QuoteAmountIsZero);
        }
        proof {
            if base_amount == 0 {
                vstd::arithmetic::div_mod::lemma_div_of0(denom as int);
                assert(false);
            }
        }
        if base_amount == 0 {
            return Err(Error::BaseAmountIsZero);
        }
        match self.ledger.ensure_free_balance(sender, tp.base, base_amount) {
            Err(e) => {
                return Err(e);
            },
            Ok(()) => {},
        }
        match self.ledger.ensure_free_balance(tp.account, tp.quote, quote_amount) {
            Err(e) => {
                return Err(e);
            },
            Ok(()) => {},
        }
        let ghost s0 = *self;
        self.ledger.transfer_unchecked(sender, tp.account, tp.base, base_amount);
        let ghost s1 = *self;
        proof {
            assert(s1.spec_bal(tp.account, tp.quote) == s0.spec_bal(tp.account, tp.quote));
        }
        self.ledger.transfer_unchecked(tp.account, sender, tp.quote, quote_amount);
        self.events.push(Event::SwapBuy(sender, hash));
        proof {
            let pre = *old(self);
            let post = *self;
            assert forall|a: u64, t: u128| a != sender && a != tp.account implies post.spec_bal(
                a,
                t,
            ) == pre.spec_bal(a, t) by {}
            self.lemma_other_pairs_preserved(pre, sender, idx as int);
            assert(post.spec_bal(tp.account, tp.base) == pool_b + base_amount);
            assert(post.spec_bal(tp.account, tp.quote) == pool_q - quote_amount);
            // A funded pool stays funded: the output is a strict share
            // of the quote reserve, and issued shares are untouched.
            crate::math::lemma_mul_div_lt_factor(
                pool_q as int,
                base_amount as int,
                denom as int,
            );
            crate::math::lemma_constant_product_preserved(
                pool_b as int,
                pool_q as int,
                base_amount as int,
            );
            assert(tp.liquidity_token_issued_amount > 0);
            assert forall|i: int| 0 <= i < post.pairs@.len() implies {
                let p = #[trigger] post.pairs@[i];
                p.liquidity_token_issued_amount + post.spec_bal(p.account, p.liquidity_token_hash)
                    == u128::MAX
            } by {
                if i != idx as int {
                    assert(pre.pairs@[i] == post.pairs@[i]);
                } else {
                    assert(post.spec_bal(tp.account, tp.liquidity_token_hash) == pre.spec_bal(
                        tp.account,
                        tp.liquidity_token_hash,
                    ));
                }
            }
            assert forall|i: int| 0 <= i < post.pairs@.len() implies {
                let p = #[trigger] post.pairs@[i];
                &&& (p.liquidity_token_issued_amount > 0 ==> post.spec_bal(p.account, p.base) > 0
                    && post.spec_bal(p.account, p.quote) > 0)
                &&& (p.liquidity_token_issued_amount == 0 ==> post.spec_bal(p.account, p.base) == 0
                    && post.spec_bal(p.account, p.quote) == 0)
            } by {
                if i != idx as int {
                    assert(pre.pairs@[i] == post.pairs@[i]);
                }
            }
        }
        Ok(())
    }

    /// The error `do_swap_sell` returns, or `None` when it succeeds:
    /// the checks in their order of evaluation.
    pub open spec fn swap_sell_err(self, sender: u64, hash: u128, quote_amount: u128) -> Option<
        Error,
    > {
        if !self.spec_has_pair(hash) {
            Some(Error::NoMatchingTradePair)
        } else {
            let p = self.spec_pair(hash);
            let pb = self.spec_bal(p.account, p.base);
            let pq = self.spec_bal(p.account, p.quote);
            if pb == 0 {
                Some(Error::PoolBaseAmountIsZero)
            } else if pq == 0 {
                Some(Error::PoolQuoteAmountIsZero)
            } else if pq + quote_amount > u128::MAX {
                Some(Error::Overflow)
            } else if pb * quote_amount > u128::MAX {
                Some(Error::Overflow)
            } else {
                let out = self.swap_sell_output(hash, quote_amount);
                if quote_amount == 0 {
                    Some(Error::QuoteAmountIsZero)
                } else if out == 0 {
                    Some(Error::BaseAmountIsZero)
                } else if pb < out {
                    Some(Error::InsufficientBalance)
                } else if self.spec_bal(sender, p.quote) < quote_amount {
                    Some(Error::InsufficientBalance)
                } else {
                    None
                }
            }
        }
    }

    /// The base a sell pays out for `quote_amount` paid in, under the
    /// constant-product rule with floor division.
    pub open spec fn swap_sell_output(self, hash: u128, quote_amount: u128) -> int {
        let p = self.spec_pair(hash);
        let pb = self.spec_bal(p.account, p.base);
        let pq = self.spec_bal(p.account, p.quote);
        (pb * quote_amount) / (pq + quote_amount)
    }

    /// Pays `quote_amount` quote into the pool of the pair under `hash`
    /// and receives base priced by the constant-product rule. The
    /// issued LP amount is unchanged, and the product of the reserves
    /// never decreases.
    pub fn do_swap_sell(&mut self, sender: u64, hash: u128, quote_amount: u128) -> (r: Result<
        (),
        Error,
    >)
        requires
            old(self).wf(),
            !old(self).spec_is_pool_account(sender),
        ensures
            final(self).wf(),
            r is Err ==> *final(self) == *old(self) && Some(r->Err_0) == old(self).swap_sell_err(
                sender,
                hash,
                quote_amount,
            ),
            r is Ok ==> old(self).swap_sell_err(sender, hash, quote_amount) is None,
            r is Ok ==> ({
                let p = old(self).spec_pair(hash);
                let out = old(self).swap_sell_output(hash, quote_amount);
                &&& final(self).pairs@ == old(self).pairs@
                &&& final(self).spec_bal(sender, p.quote) == old(self).spec_bal(sender, p.quote)
                    - quote_amount
                &&& final(self).spec_bal(sender, p.base) == old(self).spec_bal(sender, p.base)
                    + out
                &&& final(self).spec_bal(p.account, p.quote) == old(self).spec_bal(
                    p.account,
                    p.quote,
                ) + quote_amount
                &&& final(self).spec_bal(p.account, p.base) == old(self).spec_bal(
                    p.account,
                    p.base,
                ) - out
                &&& final(self).spec_bal(p.account, p.base) * final(self).spec_bal(
                    p.account,
                    p.quote,
                ) >= old(self).spec_bal(p.account, p.base) * old(self).spec_bal(
                    p.account,
                    p.quote,
                )
                &&& forall|a: u64, t: u128|
                    (a != sender && a != p.account) || (t != p.base && t != p.quote)
                        ==> final(self).spec_bal(a, t) == old(self).spec_bal(a, t)
                &&& final(self).ledger.tokens@ == old(self).ledger.tokens@
                &&& final(self).nonce == old(self).nonce
                &&& final(self).events@ == old(self).events@.push(Event::SwapSell(sender, hash))
            }),
    {
        let idx = match self.find_pair(hash) {
            Some(i) => i,
            None => {
                return Err(Error::NoMatchingTradePair);
            },
        };
        proof {
            self.lemma_pair_idx(idx as int);
            assert(old(self).pair_tokens_wf(old(self).pairs@[idx as int]));
        }
        let tp = self.pairs[idx];
        proof {
            assert(old(self).spec_is_pool_account(tp.account));
            assert(sender != tp.account);
        }
        let pool_b = self.ledger.balance_of((tp.account, tp.base));
        let pool_q = self.ledger.balance_of((tp.account, tp.quote));
        if pool_b == 0 {
            return Err(Error::PoolBaseAmountIsZero);
        }
        if pool_q == 0 {
            return Err(Error::PoolQuoteAmountIsZero);
        }
        let denom = match pool_q.checked_add(quote_amount) {
            Some(v) => v,
            None => {
                return Err(Error::Overflow);
            },
        };
        let num = match pool_b.checked_mul(quote_amount) {
            Some(v) => v,
            None => {
                return Err(Error::Overflow);
            },
        };
        let base_amount = num / denom;
        if quote_amount == 0 {
            return Err(Error::QuoteAmountIsZero);
        }
        if base_amount == 0 {
            return Err(Error::BaseAmountIsZero);
        }
        match self.ledger.ensure_free_balance(tp.account, tp.base, base_amount) {
            Err(e) => {
                return Err(e);
            },
            Ok(()) => {},
        }
        match self.ledger.ensure_free_balance(sender, tp.quote, quote_amount) {
            Err(e) => {
                return Err(e);
            },
            Ok(()) => {},
        }
        let ghost s0 = *self;
        self.ledger.transfer_unchecked(tp.account, sender, tp.base, base_amount);
        let ghost s1 = *self;
        proof {
            assert(s1.spec_bal(sender, tp.quote) == s0.spec_bal(sender, tp.quote));
        }
        self.ledger.transfer_unchecked(sender, tp.account, tp.quote, quote_amount);
        self.events.push(Event::SwapSell(sender, hash));
        proof {
            let pre = *old(self);
            let post = *self;
            assert forall|a: u64, t: u128| a != sender && a != tp.account implies post.spec_bal(
                a,
                t,
            ) == pre.spec_bal(a, t) by {}
            self.lemma_other_pairs_preserved(pre, sender, idx as int);
            assert(post.spec_bal(tp.account, tp.base) == pool_b - base_amount);
            assert(post.spec_bal(tp.account, tp.quote) == pool_q + quote_amount);
            // A funded pool stays funded: the output is a strict share
            // of the base reserve, and issued shares are untouched.
            crate::math::lemma_mul_div_lt_factor(
                pool_b as int,
                quote_amount as int,
                denom as int,
            );
            crate::math::lemma_constant_product_preserved(
                pool_q as int,
                pool_b as int,
                quote_amount as int,
            );
            assert(tp.liquidity_token_issued_amount > 0);
            assert forall|i: int| 0 <= i < post.pairs@.len() implies {
                let p = #[trigger] post.pairs@[i];
                p.liquidity_token_issued_amount + post.spec_bal(p.account, p.liquidity_token_hash)
                    == u128::MAX
            } by {
                if i != idx as int {
                    assert(pre.pairs@[i] == post.pairs@[i]);
                } else {
                    assert(post.spec_bal(tp.account, tp.liquidity_token_hash) == pre.spec_bal(
                        tp.account,
                        tp.liquidity_token_hash,
                    ));
                }
            }
            assert forall|i: int| 0 <= i < post.pairs@.len() implies {
                let p = #[trigger] post.pairs@[i];
                &&& (p.liquidity_token_issued_amount > 0 ==> post.spec_bal(p.account, p.base) > 0
                    && post.spec_bal(p.account, p.quote) > 0)
                &&& (p.liquidity_token_issued_amount == 0 ==> post.spec_bal(p.account, p.base) == 0
                    && post.spec_bal(p.account, p.quote) == 0)
            } by {
                if i != idx as int {
                    assert(pre.pairs@[i] == post.pairs@[i]);
                }
            }
        }
        Ok(())
    }

    /// The add/remove round trip: from a funded pool, a dust-free
    /// deposit followed by burning exactly the shares it minted
    /// returns the sender's base and quote balances to their
    /// pre-deposit values.
    ///
    /// A deposit of `base_amount` is dust-free when `base_amount`
    /// shares out evenly, that is when the minted-share computation
    /// `issued * base_amount / pool_base` divides exactly. The deposit
    /// then mints `m` shares and draws `qa` quote; after it, the pool
    /// holds `pool_base + base_amount` base and `pool_quote + qa` quote
    /// with `issued + m` shares issued, so the two payout expressions
    /// below are exactly what `do_remove_liquidity` of `m` shares pays
    /// back: `base_amount` base and `qa` quote.
    pub proof fn lemma_add_remove_round_trip(
        self,
        hash: u128,
        base_amount: u128,
        o_quote_amount: Option<u128>,
    )
        requires
            self.wf(),
            self.spec_has_pair(hash),
            self.spec_pair(hash).liquidity_token_issued_amount > 0,
            self.spec_bal(self.spec_pair(hash).account, self.spec_pair(hash).quote) > 0,
            base_amount > 0,
            (self.spec_pair(hash).liquidity_token_issued_amount * base_amount) % (self.spec_bal(
                self.spec_pair(hash).account,
                self.spec_pair(hash).base,
            ) as int) == 0,
            self.spec_bal(self.spec_pair(hash).account, self.spec_pair(hash).quote) * base_amount
                >= self.spec_bal(self.spec_pair(hash).account, self.spec_pair(hash).base),
        ensures
            ({
                let p = self.spec_pair(hash);
                let pb = self.spec_bal(p.account, p.base) as int;
                let pq = self.spec_bal(p.account, p.quote) as int;
                let issued = p.liquidity_token_issued_amount as int;
                let m = self.add_minted_amount(hash, base_amount);
                let qa = self.add_quote_amount(hash, base_amount, o_quote_amount);
                &&& 0 < m
                &&& 0 < qa
                &&& ((pb + base_amount) * m) / (issued + m) == base_amount
                &&& ((pq + qa) * m) / (issued + m) == qa
            }),
    {
        let p = self.spec_pair(hash);
        let i = self.spec_pair_idx(hash);
        assert(0 <= i < self.pairs@.len() && self.pairs@[i].hash == hash);
        assert(self.pairs@[i] == p);
        // Linkage: a pool with issued shares has a positive base reserve.
        assert(self.spec_bal(p.account, p.base) > 0);
        crate::math::lemma_add_remove_round_trip(
            self.spec_bal(p.account, p.base) as int,
            self.spec_bal(p.account, p.quote) as int,
            p.liquidity_token_issued_amount as int,
            base_amount as int,
        );
    }

    /// Balance changes confined to a non-pool sender and the pool
    /// account of the pair at `idx` — with every other pair unchanged,
    /// the pair at `idx` keeping its identity fields, and token
    /// metadata untouched — preserve uniqueness, structural soundness,
    /// and the conservation and linkage of every other pair.
    proof fn lemma_other_pairs_preserved(self, pre: Exchange, sender: u64, idx: int)
        requires
            pre.wf(),
            !pre.spec_is_pool_account(sender),
            0 <= idx < pre.pairs@.len(),
            self.ledger.wf(),
            self.pairs@.len() == pre.pairs@.len(),
            forall|i: int|
                0 <= i < pre.pairs@.len() && i != idx ==> #[trigger] self.pairs@[i]
                    == pre.pairs@[i],
            self.pairs@[idx].hash == pre.pairs@[idx].hash,
            self.pairs@[idx].account == pre.pairs@[idx].account,
            self.pairs@[idx].base == pre.pairs@[idx].base,
            self.pairs@[idx].quote == pre.pairs@[idx].quote,
            self.pairs@[idx].liquidity_token_hash == pre.pairs@[idx].liquidity_token_hash,
            self.ledger.tokens@ == pre.ledger.tokens@,
            forall|a: u64, t: u128|
                a != sender && a != pre.pairs@[idx].account ==> #[trigger] self.spec_bal(a, t)
                    == pre.spec_bal(a, t),
        ensures
            self.pairs_unique(),
            forall|i: int|
                0 <= i < self.pairs@.len() ==> self.pair_tokens_wf(#[trigger] self.pairs@[i]),
            forall|i: int|
                0 <= i < self.pairs@.len() && i != idx ==> ({
                    let p = #[trigger] self.pairs@[i];
                    &&& p.liquidity_token_issued_amount + self.spec_bal(
                        p.account,
                        p.liquidity_token_hash,
                    ) == u128::MAX
                    &&& (p.liquidity_token_issued_amount > 0 ==> self.spec_bal(p.account, p.base)
                        > 0 && self.spec_bal(p.account, p.quote) > 0)
                    &&& (p.liquidity_token_issued_amount == 0 ==> self.spec_bal(p.account, p.base)
                        == 0 && self.spec_bal(p.account, p.quote) == 0)
                }),
    {
        assert forall|i: int, j: int|
            #![trigger self.pairs@[i], self.pairs@[j]]
            0 <= i < j < self.pairs@.len() implies {
            let p = self.pairs@[i];
            let q = self.pairs@[j];
            &&& p.hash != q.hash
            &&& p.account != q.account
            &&& p.liquidity_token_hash != q.liquidity_token_hash
            &&& !(p.base == q.base && p.quote == q.quote)
            &&& !(p.base == q.quote && p.quote == q.base)
        } by {
            assert(pre.pairs_unique());
            assert(pre.pairs@[i].hash == self.pairs@[i].hash);
            assert(pre.pairs@[j].hash == self.pairs@[j].hash);
            assert(pre.pairs@[i].account == self.pairs@[i].account);
            assert(pre.pairs@[j].account == self.pairs@[j].account);
            assert(pre.pairs@[i].liquidity_token_hash == self.pairs@[i].liquidity_token_hash);
            assert(pre.pairs@[j].liquidity_token_hash == self.pairs@[j].liquidity_token_hash);
            assert(pre.pairs@[i].base == self.pairs@[i].base);
            assert(pre.pairs@[j].base == self.pairs@[j].base);
            assert(pre.pairs@[i].quote == self.pairs@[i].quote);
            assert(pre.pairs@[j].quote == self.pairs@[j].quote);
        }
        assert forall|i: int| 0 <= i < self.pairs@.len() implies self.pair_tokens_wf(
            #[trigger] self.pairs@[i],
        ) by {
            assert(pre.pair_tokens_wf(pre.pairs@[i]));
            assert(self.pairs@[i].base == pre.pairs@[i].base);
            assert(self.pairs@[i].quote == pre.pairs@[i].quote);
            assert(self.pairs@[i].liquidity_token_hash == pre.pairs@[i].liquidity_token_hash);
        }
        assert forall|i: int| 0 <= i < self.pairs@.len() && i != idx implies {
            let p = #[trigger] self.pairs@[i];
            &&& p.liquidity_token_issued_amount + self.spec_bal(
                p.account,
                p.liquidity_token_hash,
            ) == u128::MAX
            &&& (p.liquidity_token_issued_amount > 0 ==> self.spec_bal(p.account, p.base) > 0
                && self.spec_bal(p.account, p.quote) > 0)
            &&& (p.liquidity_token_issued_amount == 0 ==> self.spec_bal(p.account, p.base) == 0
                && self.spec_bal(p.account, p.quote) == 0)
        } by {
            let p = self.pairs@[i];
            assert(p == pre.pairs@[i]);
            assert(pre.spec_is_pool_account(p.account));
            assert(p.account != sender);
            assert(pre.pairs_unique());
            if i < idx {
                assert(pre.pairs@[i].account != pre.pairs@[idx].account);
            } else {
                assert(pre.pairs@[idx].account != pre.pairs@[i].account);
            }
            assert(self.spec_bal(p.account, p.liquidity_token_hash) == pre.spec_bal(
                p.account,
                p.liquidity_token_hash,
            ));
            assert(self.spec_bal(p.account, p.base) == pre.spec_bal(p.account, p.base));
            assert(self.spec_bal(p.account, p.quote) == pre.spec_bal(p.account, p.quote));
        }
    }

    /// Balance changes confined to non-pool accounts, with pairs and
    /// token metadata untouched, preserve well-formedness.
    proof fn lemma_user_balances_preserve_wf(self, pre: Exchange, from: u64, to: u64)
        requires
            pre.wf(),
            !pre.spec_is_pool_account(from),
            !pre.spec_is_pool_account(to),
            self.ledger.wf(),
            self.pairs@ == pre.pairs@,
            self.ledger.tokens@ == pre.ledger.tokens@,
            forall|a2: u64, t2: u128|
                a2 != from && a2 != to ==> self.spec_bal(a2, t2) == pre.spec_bal(a2, t2),
        ensures
            self.wf(),
    {
        assert forall|i: int| 0 <= i < self.pairs@.len() implies self.pair_tokens_wf(
            #[trigger] self.pairs@[i],
        ) by {
            assert(pre.pair_tokens_wf(pre.pairs@[i]));
        }
        assert forall|i: int| 0 <= i < self.pairs@.len() implies {
            let p = #[trigger] self.pairs@[i];
            p.liquidity_token_issued_amount + self.spec_bal(p.account, p.liquidity_token_hash)
                == u128::MAX
        } by {
            let p = self.pairs@[i];
            assert(pre.spec_is_pool_account(p.account));
            assert(pre.pair_tokens_wf(pre.pairs@[i]));
        }
        assert forall|i: int| 0 <= i < self.pairs@.len() implies {
            let p = #[trigger] self.pairs@[i];
            &&& (p.liquidity_token_issued_amount > 0 ==> self.spec_bal(p.account, p.base) > 0
                && self.spec_bal(p.account, p.quote) > 0)
            &&& (p.liquidity_token_issued_amount == 0 ==> self.spec_bal(p.account, p.base) == 0
                && self.spec_bal(p.account, p.quote) == 0)
        } by {
            let p = self.pairs@[i];
            assert(pre.spec_is_pool_account(p.account));
        }
    }
}

} // verus!
