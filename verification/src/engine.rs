//! The settlement engine state and the position-entry call.
//!
//! The engine owns the account table, the reference price and the
//! configuration fractions. `adjust` is the only participant-facing
//! mutation: it is atomic, admitted only under an initial-margin solvency check, and
//! moves collateral against the pool escrow account of the token ledger.

use vstd::prelude::*;
use crate::account::{
    AccountState, find_idx, find_index, ids_unique, inventory_at, lemma_accessors_push,
    lemma_accessors_set, lemma_find_idx, margin_at, position_at,
};
use crate::arith::{
    FRACTION_DENOM, FRACTION_PRICE_DENOM, abs_u128, iabs, mul_div_ceil, mul_rat_ceil,
};
use crate::errors::Error;
use crate::events::Event;
use crate::tokens::TokenLedger;

verus! {

/// The settlement module's state: account table, reference price,
/// configuration fractions, the id of the pool escrow account, and the
/// notifications recorded so far.
pub struct Engine {
    /// Account ledger rows, ids pairwise distinct.
    pub accounts: Vec<AccountState>,
    /// The reference price `P0` as a raw fixed-point value; `None` until a
    /// price has been ingested.
    pub price0: Option<u128>,
    /// Initial margin fraction, in parts per million of notional.
    pub im_parts: u32,
    /// Liquidation margin fraction, in parts per million of notional.
    pub liq_parts: u32,
    /// Token-ledger account holding all posted collateral.
    pub pool_account: u64,
    /// Notifications recorded by the position-entry call.
    pub events: Vec<Event>,
}

impl Engine {
    /// Account ids are distinct and the configured fractions lie in (0, 1]
    /// with the liquidation fraction at most the initial one.
    pub open spec fn wf(self) -> bool {
        &&& ids_unique(self.accounts@)
        &&& 0 < self.liq_parts <= self.im_parts <= FRACTION_DENOM
    }

    /// Raw position of `id`; zero for an account never touched.
    pub open spec fn spec_position(self, id: u64) -> int {
        position_at(self.accounts@, id)
    }

    /// Matched inventory of `id`; zero for an account never touched.
    pub open spec fn spec_inventory(self, id: u64) -> int {
        inventory_at(self.accounts@, id)
    }

    /// Posted margin of `id`; zero for an account never touched.
    pub open spec fn spec_margin(self, id: u64) -> int {
        margin_at(self.accounts@, id)
    }

    /// The configuration fields agree with `other`'s.
    pub open spec fn same_config(self, other: Engine) -> bool {
        &&& self.im_parts == other.im_parts
        &&& self.liq_parts == other.liq_parts
        &&& self.pool_account == other.pool_account
    }

    /// A fresh engine: no accounts, no reference price, no notifications.
    pub fn new(im_parts: u32, liq_parts: u32, pool_account: u64) -> (r: Engine)
        requires
            0 < liq_parts <= im_parts <= FRACTION_DENOM,
        ensures
            r.wf(),
            r.price0 is None,
            r.accounts@.len() == 0,
            r.events@.len() == 0,
            r.im_parts == im_parts,
            r.liq_parts == liq_parts,
            r.pool_account == pool_account,
            forall|x: u64| #[trigger] r.spec_position(x) == 0,
            forall|x: u64| #[trigger] r.spec_inventory(x) == 0,
            forall|x: u64| #[trigger] r.spec_margin(x) == 0,
    {
        let r = Engine {
            accounts: Vec::new(),
            price0: None,
            im_parts,
            liq_parts,
            pool_account,
            events: Vec::new(),
        };
        proof {
            assert forall|x: u64| #[trigger] find_idx(r.accounts@, x) == -1 by {
                lemma_find_idx(r.accounts@, x);
            }
        }
        r
    }

    /// Reads the raw position of `who`.
    pub fn position_of(&self, who: u64) -> (r: i128)
        ensures
            r as int == self.spec_position(who),
    {
        match find_index(&self.accounts, who) {
            Some(i) => self.accounts[i].position,
            None => 0,
        }
    }

    /// Reads the matched inventory of `who`.
    pub fn inventory_of(&self, who: u64) -> (r: i128)
        ensures
            r as int == self.spec_inventory(who),
    {
        match find_index(&self.accounts, who) {
            Some(i) => self.accounts[i].inventory,
            None => 0,
        }
    }

    /// Reads the posted margin of `who`.
    pub fn margin_of(&self, who: u64) -> (r: u128)
        ensures
            r as int == self.spec_margin(who),
    {
        match find_index(&self.accounts, who) {
            Some(i) => self.accounts[i].margin,
            None => 0,
        }
    }

    /// Total collateral held by the pool escrow account.
    pub fn total_collateral_balance(&self, tokens: &TokenLedger) -> (r: u128)
        ensures
            r == tokens.balance_of(self.pool_account),
    {
        tokens.balance(self.pool_account)
    }

    /// Rewrites the position and margin of `who`, creating the row if
    /// needed; inventory and every other account are untouched.
    fn set_position_margin(&mut self, who: u64, np: i128, nm: u128)
        requires
            old(self).wf(),
        ensures
            final(self).wf(),
            final(self).spec_position(who) == np,
            final(self).spec_margin(who) == nm,
            final(self).spec_inventory(who) == old(self).spec_inventory(who),
            forall|x: u64|
                x != who ==> #[trigger] final(self).spec_position(x) == old(self).spec_position(x)
                    && final(self).spec_inventory(x) == old(self).spec_inventory(x) && final(self).spec_margin(x) == old(self).spec_margin(x),
            final(self).price0 == old(self).price0,
            final(self).same_config(*old(self)),
            final(self).events@ == old(self).events@,
    {
        match find_index(&self.accounts, who) {
            Some(i) => {
                proof {
                    lemma_find_idx(self.accounts@, who);
                }
                let row = self.accounts[i];
                let newrow = AccountState { id: who, position: np, inventory: row.inventory, margin: nm };
                self.accounts.set(i, newrow);
                proof {
                    lemma_accessors_set(old(self).accounts@, i as int, newrow);
                }
            },
            None => {
                let newrow = AccountState { id: who, position: np, inventory: 0, margin: nm };
                self.accounts.push(newrow);
                proof {
                    lemma_accessors_push(old(self).accounts@, newrow);
                }
            },
        }
    }

    /// The result of `adjust`: which error a call is rejected with, if and
    /// only if, and on which states it succeeds.
    pub open spec fn adjust_result(
        self,
        tokens: TokenLedger,
        who: u64,
        d_position: i128,
        d_margin: i128,
    ) -> Result<(), Error> {
        let np = self.spec_position(who) + d_position;
        let nm = self.spec_margin(who) + d_margin;
        if np > i128::MAX || np < i128::MIN {
            Err(Error::Overflow)
        } else if nm > u128::MAX {
            Err(Error::Overflow)
        } else {
            match self.price0 {
                None => Err(Error::PriceNotSet),
                Some(praw) => {
                    if self.im_parts * praw > u128::MAX {
                        Err(Error::Overflow)
                    } else {
                        let needed = mul_div_ceil(iabs(np), self.im_parts * praw, FRACTION_PRICE_DENOM as int);
                        if needed > u128::MAX {
                            Err(Error::Overflow)
                        } else if nm < needed {
                            Err(Error::NotEnoughIM)
                        } else if d_margin > 0 {
                            tokens.transfer_result(who, self.pool_account, d_margin as u128)
                        } else if d_margin < 0 {
                            tokens.transfer_result(self.pool_account, who, iabs(d_margin as int) as u128)
                        } else {
                            Ok(())
                        }
                    }
                },
            }
        }
    }

    /// The state after a successful `adjust`: the caller's position and
    /// margin move by the requested deltas, nothing else in the account
    /// table moves, the collateral delta moves between caller and pool
    /// escrow, and the notifications are appended.
    pub open spec fn adjust_post(
        pre: Engine,
        pre_t: TokenLedger,
        post: Engine,
        post_t: TokenLedger,
        who: u64,
        d_position: i128,
        d_margin: i128,
    ) -> bool {
        let np = pre.spec_position(who) + d_position;
        let nm = pre.spec_margin(who) + d_margin;
        &&& post.spec_position(who) == np
        &&& post.spec_margin(who) == nm
        &&& post.spec_inventory(who) == pre.spec_inventory(who)
        &&& forall|x: u64|
            x != who ==> #[trigger] post.spec_position(x) == pre.spec_position(x)
                && post.spec_inventory(x) == pre.spec_inventory(x) && post.spec_margin(x)
                == pre.spec_margin(x)
        &&& post.price0 == pre.price0
        &&& post.same_config(pre)
        &&& post.events@ == (if d_margin != 0 {
            pre.events@.push(Event::CollateralUpdated(d_margin))
        } else {
            pre.events@
        }).push(Event::BalanceUpdated(who, np as i128))
        &&& (if d_margin == 0 || who == pre.pool_account {
            forall|x: u64| #[trigger] post_t.balance_of(x) == pre_t.balance_of(x)
        } else if d_margin > 0 {
            &&& post_t.balance_of(who) == pre_t.balance_of(who) - d_margin
            &&& post_t.balance_of(pre.pool_account) == pre_t.balance_of(pre.pool_account)
                + d_margin
            &&& forall|x: u64|
                x != who && x != pre.pool_account ==> #[trigger] post_t.balance_of(x)
                    == pre_t.balance_of(x)
        } else {
            &&& post_t.balance_of(who) == pre_t.balance_of(who) + iabs(d_margin as int)
            &&& post_t.balance_of(pre.pool_account) == pre_t.balance_of(pre.pool_account)
                - iabs(d_margin as int)
            &&& forall|x: u64|
                x != who && x != pre.pool_account ==> #[trigger] post_t.balance_of(x)
                    == pre_t.balance_of(x)
        })
    }

    /// The position-entry call. Applies the signed position delta and the
    /// signed collateral delta for `who`, subject to the initial-margin
    /// check at the current reference price; a positive collateral delta is
    /// deposited into the pool escrow, a negative one withdrawn from it. Any
    /// rejection leaves every ledger untouched.
    pub fn adjust(
        &mut self,
        tokens: &mut TokenLedger,
        who: u64,
        d_position: i128,
        d_margin: i128,
    ) -> (r: Result<(), Error>)
        requires
            old(self).wf(),
            old(tokens).wf(),
        ensures
            final(self).wf(),
            final(tokens).wf(),
            r == old(self).adjust_result(*old(tokens), who, d_position, d_margin),
            r is Err ==> final(self).accounts@ == old(self).accounts@ && final(self).events@
                == old(self).events@ && final(self).price0 == old(self).price0 && final(self).same_config(*old(self)) && final(tokens).accounts@ == old(tokens).accounts@,
            r is Ok ==> Engine::adjust_post(
                *old(self),
                *old(tokens),
                *final(self),
                *final(tokens),
                who,
                d_position,
                d_margin,
            ),
    {
        let pos0 = self.position_of(who);
        let np = match pos0.checked_add(d_position) {
            Some(v) => v,
            None => {
                return Err(Error::Overflow);
            },
        };
        let m0 = self.margin_of(who);
        let mut margin_short = false;
        let nm: u128 = if d_margin >= 0 {
            match m0.checked_add(d_margin as u128) {
                Some(v) => v,
                None => {
                    return Err(Error::Overflow);
                },
            }
        } else {
            let w = abs_u128(d_margin);
            if w > m0 {
                margin_short = true;
                0
            } else {
                m0 - w
            }
        };
        let praw = match self.price0 {
            Some(p) => p,
            None => {
                return Err(Error::PriceNotSet);
            },
        };
        let mag = abs_u128(np);
        let c = match (self.im_parts as u128).checked_mul(praw) {
            Some(v) => v,
            None => {
                return Err(Error::Overflow);
            },
        };
        let needed = match mul_rat_ceil(mag, c, FRACTION_PRICE_DENOM) {
            Some(v) => v,
            None => {
                return Err(Error::Overflow);
            },
        };
        if margin_short || nm < needed {
            return Err(Error::NotEnoughIM);
        }
        if d_margin > 0 {
            match tokens.transfer(who, self.pool_account, d_margin as u128) {
                Ok(_) => {},
                Err(e) => {
                    return Err(e);
                },
            }
        } else if d_margin < 0 {
            let w = abs_u128(d_margin);
            match tokens.transfer(self.pool_account, who, w) {
                Ok(_) => {},
                Err(e) => {
                    return Err(e);
                },
            }
        }
        self.set_position_margin(who, np, nm);
        let ghost mid: Engine = *self;
        if d_margin != 0 {
            self.events.push(Event::CollateralUpdated(d_margin));
        }
        self.events.push(Event::BalanceUpdated(who, np));
        proof {
            assert forall|x: u64|
                x != who implies #[trigger] self.spec_position(x) == old(self).spec_position(x)
                && self.spec_inventory(x) == old(self).spec_inventory(x) && self.spec_margin(x)
                == old(self).spec_margin(x) by {
                assert(mid.spec_position(x) == old(self).spec_position(x));
                assert(mid.spec_inventory(x) == old(self).spec_inventory(x));
                assert(mid.spec_margin(x) == old(self).spec_margin(x));
            }
        }
        Ok(())
    }

    /// The signed value encoded by a magnitude and a sign flag.
    pub open spec fn signed_of(amount: u128, positive: bool) -> int {
        if positive {
            amount as int
        } else {
            -(amount as int)
        }
    }

    /// Sign-and-magnitude front end of the position entry: rejects with
    /// `AmountConvertFailed` any magnitude beyond the signed range, then
    /// behaves exactly as `adjust` on the signed deltas.
    pub fn mint_or_burn(
        &mut self,
        tokens: &mut TokenLedger,
        who: u64,
        amount: u128,
        positive_amount: bool,
        collateral: u128,
        positive_collateral: bool,
    ) -> (r: Result<(), Error>)
        requires
            old(self).wf(),
            old(tokens).wf(),
        ensures
            final(self).wf(),
            final(tokens).wf(),
            amount > i128::MAX || collateral > i128::MAX ==> r == Err::<(), Error>(
                Error::AmountConvertFailed,
            ),
            amount <= i128::MAX && collateral <= i128::MAX ==> r == old(self).adjust_result(
                *old(tokens),
                who,
                Engine::signed_of(amount, positive_amount) as i128,
                Engine::signed_of(collateral, positive_collateral) as i128,
            ),
            r is Err ==> final(self).accounts@ == old(self).accounts@ && final(self).events@
                == old(self).events@ && final(self).price0 == old(self).price0 && final(self).same_config(*old(self)) && final(tokens).accounts@ == old(tokens).accounts@,
            r is Ok ==> Engine::adjust_post(
                *old(self),
                *old(tokens),
                *final(self),
                *final(tokens),
                who,
                Engine::signed_of(amount, positive_amount) as i128,
                Engine::signed_of(collateral, positive_collateral) as i128,
            ),
    {
        if amount > i128::MAX as u128 || collateral > i128::MAX as u128 {
            return Err(Error::AmountConvertFailed);
        }
        let mut amt = amount as i128;
        if !positive_amount {
            amt = -amt;
        }
        let mut col = collateral as i128;
        if !positive_collateral {
            col = -col;
        }
        self.adjust(tokens, who, amt, col)
    }
}

} // verus!

