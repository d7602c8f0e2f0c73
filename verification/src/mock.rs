//! A ready-made world for tests and examples: a configured engine, an
//! endowed token ledger, and a price source reporting a price of one.

use vstd::prelude::*;
use crate::arith::PRICE_SCALE;
use crate::engine::Engine;
use crate::price_feed::MockPriceSource;
use crate::settle::{cycle_mid, net_all};
use crate::tokens::TokenLedger;

verus! {

/// First participant account.
pub const ALICE: u64 = 1;

/// Second participant account.
pub const BOB: u64 = 2;

/// Third participant account.
pub const CHARLIE: u64 = 3;

/// Fourth participant account.
pub const GEORGES: u64 = 4;

/// Token-ledger account owned by the settlement module; holds all posted
/// collateral.
pub const POOL_ACCOUNT: u64 = 0;

/// Initial margin fraction of the test world: one fifth, in parts per
/// million.
pub const IM_PARTS: u32 = 200000;

/// Liquidation margin fraction of the test world: one tenth, in parts per
/// million.
pub const LIQ_PARTS: u32 = 100000;

/// Native balance endowed to each starting participant.
pub const ENDOWMENT: u128 = 1000000000000000000;

/// A complete world: the settlement engine, the native-currency ledger it
/// settles against, and the oracle stand-in.
pub struct World {
    /// The settlement engine.
    pub engine: Engine,
    /// The native-currency ledger with the pool escrow account.
    pub tokens: TokenLedger,
    /// The oracle stand-in queried once per cycle.
    pub price_source: MockPriceSource,
}

impl World {
    /// One settlement cycle as the host drives it: the oracle is queried
    /// exactly once, then mark-to-market, liquidation and netting run in
    /// that order. The token ledger and the price source are untouched.
    pub fn on_initialize(&mut self)
        requires
            old(self).engine.wf(),
        ensures
            final(self).engine.wf(),
            final(self).tokens == old(self).tokens,
            final(self).price_source == old(self).price_source,
            final(self).engine.same_config(old(self).engine),
            final(self).engine.events@ == old(self).engine.events@,
            final(self).engine.price0 == (match old(self).price_source.price {
                Some(p) => Some(p),
                None => old(self).engine.price0,
            }),
            final(self).engine.accounts@ == net_all(
                cycle_mid(
                    old(self).engine.accounts@,
                    old(self).engine.price0,
                    old(self).price_source.price,
                    old(self).engine.im_parts as int,
                    old(self).engine.liq_parts as int,
                ),
            ),
    {
        let p = self.price_source.get_price();
        self.engine.run_cycle(p);
    }
}

/// Whether some row of the endowment list names account `x`.
pub open spec fn listed(list: Seq<(u64, u128)>, x: u64) -> bool {
    exists|k: int| 0 <= k < list.len() && list[k].0 == x
}

/// Endowment rows carry pairwise-distinct account ids.
pub open spec fn endowed_unique(list: Seq<(u64, u128)>) -> bool {
    forall|i: int, j: int| 0 <= i < j < list.len() ==> list[i].0 != list[j].0
}

/// Builds the starting world from a list of endowed native balances.
pub struct ExtBuilder {
    /// Accounts endowed with native currency at genesis.
    pub endowed_accounts: Vec<(u64, u128)>,
}

impl Default for ExtBuilder {
    /// The default endowments: the four participants, each holding one
    /// whole native unit.
    fn default() -> (r: ExtBuilder)
        ensures
            r.endowed_accounts@ == seq![
                (ALICE, ENDOWMENT),
                (BOB, ENDOWMENT),
                (CHARLIE, ENDOWMENT),
                (GEORGES, ENDOWMENT),
            ],
    {
        let mut v: Vec<(u64, u128)> = Vec::new();
        v.push((ALICE, ENDOWMENT));
        v.push((BOB, ENDOWMENT));
        v.push((CHARLIE, ENDOWMENT));
        v.push((GEORGES, ENDOWMENT));
        proof {
            assert(v@ =~= seq![
                (ALICE, ENDOWMENT),
                (BOB, ENDOWMENT),
                (CHARLIE, ENDOWMENT),
                (GEORGES, ENDOWMENT),
            ]);
        }
        ExtBuilder { endowed_accounts: v }
    }
}

impl ExtBuilder {
    /// The built world: a fresh engine configured with the test fractions
    /// and the pool account, the price source reporting a price of one,
    /// and the token ledger holding exactly the endowed balances (when the
    /// endowed ids are distinct) and nothing else.
    pub fn build(self) -> (r: World)
        ensures
            r.engine.wf(),
            r.tokens.wf(),
            r.engine.price0 is None,
            r.engine.accounts@.len() == 0,
            r.engine.events@.len() == 0,
            r.engine.im_parts == IM_PARTS,
            r.engine.liq_parts == LIQ_PARTS,
            r.engine.pool_account == POOL_ACCOUNT,
            r.price_source.price == Some(PRICE_SCALE),
            forall|x: u64| !listed(self.endowed_accounts@, x) ==> #[trigger] r.tokens.balance_of(
                x,
            ) == 0,
            endowed_unique(self.endowed_accounts@) ==> (forall|k: int|
                0 <= k < self.endowed_accounts@.len() ==> #[trigger] r.tokens.balance_of(
                    self.endowed_accounts@[k].0,
                ) == self.endowed_accounts@[k].1),
    {
        let engine = Engine::new(IM_PARTS, LIQ_PARTS, POOL_ACCOUNT);
        let price_source = MockPriceSource::new(Some(PRICE_SCALE));
        let mut tokens = TokenLedger::new();
        let list = self.endowed_accounts;
        let n = list.len();
        let mut i: usize = 0;
        while i < n
            invariant
                i <= n,
                n == list@.len(),
                tokens.wf(),
                forall|x: u64|
                    !listed(list@.take(i as int), x) ==> #[trigger] tokens.balance_of(x) == 0,
                endowed_unique(list@) ==> (forall|k: int|
                    0 <= k < i ==> #[trigger] tokens.balance_of(list@[k].0) == list@[k].1),
            decreases n - i,
        {
            let (who, amount) = list[i];
            let ghost pre = tokens;
            proof {
                if !listed(list@.take(i as int), who) {
                    assert(tokens.balance_of(who) == 0);
                }
            }
            let outcome = tokens.endow(who, amount);
            proof {
                let prefix = list@.take(i as int);
                let cur = list@.take(i as int + 1);
                assert(cur[i as int] == list@[i as int]);
                assert forall|x: u64|
                    !listed(cur, x) implies #[trigger] tokens.balance_of(x) == 0 by {
                    assert(!listed(prefix, x)) by {
                        if listed(prefix, x) {
                            let k = choose|k: int| 0 <= k < prefix.len() && prefix[k].0 == x;
                            assert(cur[k].0 == x);
                        }
                    }
                    assert(x != who) by {
                        assert(cur[i as int].0 == who);
                    }
                    assert(pre.balance_of(x) == 0);
                }
                if endowed_unique(list@) {
                    assert forall|k: int|
                        0 <= k < i + 1 implies #[trigger] tokens.balance_of(list@[k].0)
                        == list@[k].1 by {
                        if k < i {
                            assert(list@[k].0 != who);
                        } else {
                            assert(!listed(prefix, who)) by {
                                if listed(prefix, who) {
                                    let j = choose|j: int|
                                        0 <= j < prefix.len() && prefix[j].0 == who;
                                    assert(list@[j].0 == who);
                                }
                            }
                            assert(pre.balance_of(who) == 0);
                        }
                    }
                }
            }
            i = i + 1;
        }
        proof {
            assert(list@.take(n as int) =~= list@);
        }
        World { engine, tokens, price_source }
    }
}

} // verus!
