//! The per-cycle settlement passes: mark-to-market revaluation, the
//! liquidation waterfall, and proportional netting, run in that fixed order
//! once per cycle.
//!
//! All three passes are batch operations with no single caller to report
//! to: their arithmetic saturates or clamps and never aborts, so one
//! pathological account cannot block settlement for the rest.

use vstd::prelude::*;
use crate::account::AccountState;
use crate::arith::{
    FRACTION_DENOM, FRACTION_PRICE_DENOM, PRICE_SCALE, abs_u128, iabs, imax, imin,
    lemma_fraction_le, lemma_mul_div_ceil_bounds, lemma_mul_div_floor_bounds,
    mul_div_ceil, mul_div_floor, mul_div_floor_sat, mul_rat_ceil, mul_rat_floor,
    mul_rat_floor_sat, signed_of_mag,
};
use crate::engine::Engine;

verus! {

/// Margin after one revaluation from price `p0` to `p1`: the clamp
/// `max(0, margin + delta * inventory)` with the fixed-point variation
/// magnitude `|p1 - p0| * |inventory| / PRICE_SCALE` rounded down and
/// saturated at `u128::MAX`, and the sum itself saturated at `u128::MAX`.
pub open spec fn mtm_margin(p0: int, p1: int, inv: int, m: int) -> int {
    let dmag = iabs(p1 - p0);
    let vmag = mul_div_floor_sat(dmag, iabs(inv), PRICE_SCALE as int);
    let gain = (p1 >= p0) == (inv >= 0);
    if gain {
        imin(m + vmag, u128::MAX as int)
    } else {
        imax(m - vmag, 0)
    }
}

/// The account table after a mark-to-market pass from `p0` to `p1`: every
/// margin is rewritten, positions and inventories are untouched.
pub open spec fn mtm_map(s: Seq<AccountState>, p0: int, p1: int) -> Seq<AccountState> {
    Seq::new(
        s.len(),
        |i: int|
            AccountState {
                margin: mtm_margin(p0, p1, s[i].inventory as int, s[i].margin as int) as u128,
                ..s[i]
            },
    )
}

/// The stored reference price, defaulting to `d` while unset.
pub open spec fn price_or(p: Option<u128>, d: u128) -> int {
    match p {
        Some(v) => v as int,
        None => d as int,
    }
}

/// Margin required to sustain position magnitude `mag` at price `praw`
/// under the fraction `parts`: exactly `ceil(parts * price * mag)`, except
/// that beyond the representable range the requirement saturates at
/// `u128::MAX` — conservative toward forcing liquidation, as requirements
/// always round up.
pub open spec fn required_margin(parts: int, praw: int, mag: int) -> int {
    if mag == 0 {
        0
    } else if parts * praw > u128::MAX {
        u128::MAX as int
    } else {
        imin(
            mul_div_ceil(mag, parts * praw, FRACTION_PRICE_DENOM as int),
            u128::MAX as int,
        )
    }
}

/// Largest position magnitude whose initial margin requirement stays
/// within `m` at price `praw`: `floor(m / (im * price))`, clamped to zero
/// when the fraction of the price itself overflows `u128` and saturated at
/// `u128::MAX`; surviving sizes always round down.
pub open spec fn sustainable_mag(im_parts: int, praw: int, m: int) -> int
    recommends
        im_parts > 0,
        praw > 0,
{
    if im_parts * praw > u128::MAX {
        0
    } else {
        imin(
            mul_div_floor(m, FRACTION_PRICE_DENOM as int, im_parts * praw),
            u128::MAX as int,
        )
    }
}

/// One account after the liquidation pass at price `praw`: exhausted
/// margin unwinds the whole account; a raw position already covered under
/// the liquidation fraction is untouched; otherwise the unmatched excess
/// is discarded, down to the matched inventory when even it is not covered
/// under the initial fraction (or the price is zero), else down to the
/// largest sustainable magnitude, signed like the inventory.
pub open spec fn liq_account(praw: int, im: int, liq: int, a: AccountState) -> AccountState {
    if a.margin == 0 {
        AccountState { position: 0, inventory: 0, ..a }
    } else if required_margin(liq, praw, iabs(a.position as int)) <= a.margin {
        a
    } else if praw == 0 || required_margin(im, praw, iabs(a.inventory as int)) > a.margin {
        AccountState { position: a.inventory, ..a }
    } else {
        let mag = sustainable_mag(im, praw, a.margin as int);
        AccountState {
            position: (if a.inventory < 0 {
                -mag
            } else {
                mag
            }) as i128,
            ..a
        }
    }
}

/// The account table after a liquidation pass at price `praw`; margins are
/// untouched.
pub open spec fn liq_map(s: Seq<AccountState>, praw: int, im: int, liq: int) -> Seq<
    AccountState,
> {
    Seq::new(s.len(), |i: int| liq_account(praw, im, liq, s[i]))
}

/// When even the liquidation fraction's requirement on a magnitude exceeds
/// the posted margin, the largest magnitude sustainable under the (no
/// smaller) initial fraction is strictly below that magnitude: liquidation
/// genuinely shrinks.
pub proof fn lemma_sustainable_below(liq: int, im: int, praw: int, mag: int, m: int)
    requires
        0 < liq <= im <= FRACTION_DENOM,
        praw > 0,
        mag >= 0,
        m >= 1,
        required_margin(liq, praw, mag) > m,
    ensures
        sustainable_mag(im, praw, m) < mag,
{
    let fpd = FRACTION_PRICE_DENOM as int;
    // A zero magnitude requires nothing, so the requirement exceeding the
    // margin forces mag >= 1.
    assert(mag >= 1);
    let b = liq * praw;
    let c = im * praw;
    assert(0 < b <= c) by (nonlinear_arith)
        requires
            b == liq * praw,
            c == im * praw,
            0 < liq <= im,
            praw > 0,
    ;
    if b > u128::MAX as int {
        // Even the initial fraction of the price overflows: nothing is
        // sustainable.
        assert(sustainable_mag(im, praw, m) == 0);
    } else {
        let w = mul_div_ceil(mag, b, fpd);
        assert(w > m);
        lemma_mul_div_ceil_bounds(mag, b, fpd);
        // fpd * w < mag * b + fpd, and m + 1 <= w, so m * fpd < mag * b.
        assert(m * fpd + fpd <= fpd * w) by (nonlinear_arith)
            requires
                fpd > 0,
                m + 1 <= w,
        ;
        assert(m * fpd < mag * b);
        assert(mag * b <= mag * c) by (nonlinear_arith)
            requires
                mag >= 0,
                b <= c,
        ;
        assert(mag * c == c * mag) by (nonlinear_arith);
        if c > u128::MAX as int {
            assert(sustainable_mag(im, praw, m) == 0);
        } else {
            let q = mul_div_floor(m, fpd, c);
            lemma_mul_div_floor_bounds(m, fpd, c);
            assert(c * q <= m * fpd);
            assert(c * q < c * mag);
            assert(q < mag) by (nonlinear_arith)
                requires
                    c > 0,
                    c * q < c * mag,
            ;
        }
    }
}

/// The positive part of a signed quantity.
pub open spec fn pos_part(p: int) -> int {
    if p > 0 {
        p
    } else {
        0
    }
}

/// The magnitude of the negative part of a signed quantity.
pub open spec fn neg_part(p: int) -> int {
    if p < 0 {
        -p
    } else {
        0
    }
}

/// Total long interest: the sum of all positive positions.
pub open spec fn sum_long(s: Seq<AccountState>) -> int
    decreases s.len(),
{
    if s.len() == 0 {
        0
    } else {
        sum_long(s.drop_last()) + pos_part(s.last().position as int)
    }
}

/// Total short interest: the sum of all short position magnitudes.
pub open spec fn sum_short(s: Seq<AccountState>) -> int
    decreases s.len(),
{
    if s.len() == 0 {
        0
    } else {
        sum_short(s.drop_last()) + neg_part(s.last().position as int)
    }
}

/// Side totals are sums of non-negative terms.
pub proof fn lemma_sums_nonneg(s: Seq<AccountState>)
    ensures
        sum_long(s) >= 0,
        sum_short(s) >= 0,
    decreases s.len(),
{
    if s.len() > 0 {
        lemma_sums_nonneg(s.drop_last());
    }
}

/// Fraction of the larger side that is matched, in parts per
/// `PRICE_SCALE`: `floor(min(l, sh) * PRICE_SCALE / max(l, sh))`.
pub open spec fn ratio_parts(l: int, sh: int) -> int
    recommends
        l > 0,
        sh > 0,
{
    mul_div_floor(imin(l, sh), PRICE_SCALE as int, imax(l, sh))
}

/// The matched ratio never exceeds one whole unit.
pub proof fn lemma_ratio_le_scale(l: int, sh: int)
    requires
        l > 0,
        sh > 0,
    ensures
        0 <= ratio_parts(l, sh) <= PRICE_SCALE,
{
    let mn = imin(l, sh);
    let mx = imax(l, sh);
    let s = PRICE_SCALE as int;
    lemma_mul_div_floor_bounds(mn, s, mx);
    assert(mn * s <= mx * s) by (nonlinear_arith)
        requires
            0 <= mn <= mx,
            s > 0,
    ;
    let q = mul_div_floor(mn, s, mx);
    assert(mx * q <= mx * s);
    assert(q <= s) by (nonlinear_arith)
        requires
            mx > 0,
            mx * q <= mx * s,
    ;
}

/// Inventory assigned to a position by netting with (saturated) side
/// totals `l` and `sh`: zero when either side is empty, the full position
/// on the filled (smaller, ties to shorts) side, and the pro-rata haircut
/// `sign(p) * floor(|p| * ratio / PRICE_SCALE)` on the larger side.
pub open spec fn net_inv(l: int, sh: int, p: int) -> int {
    if l == 0 || sh == 0 {
        0
    } else {
        let shorts_filled = sh <= l;
        if (p < 0 && shorts_filled) || (p >= 0 && !shorts_filled) {
            p
        } else {
            let h = mul_div_floor(iabs(p), ratio_parts(l, sh), PRICE_SCALE as int);
            if p < 0 {
                -h
            } else {
                h
            }
        }
    }
}

/// The account table after netting with side totals `l` and `sh`: every
/// inventory is recomputed from the raw positions; nothing else moves.
pub open spec fn net_map(s: Seq<AccountState>, l: int, sh: int) -> Seq<AccountState> {
    Seq::new(
        s.len(),
        |i: int|
            AccountState { inventory: net_inv(l, sh, s[i].position as int) as i128, ..s[i] },
    )
}

/// The account table after the netting pass, with each side total
/// saturated at `u128::MAX`.
pub open spec fn net_all(s: Seq<AccountState>) -> Seq<AccountState> {
    net_map(s, imin(sum_long(s), u128::MAX as int), imin(sum_short(s), u128::MAX as int))
}

/// The account table after mark-to-market and liquidation, before netting.
pub open spec fn cycle_mid(
    s: Seq<AccountState>,
    price0: Option<u128>,
    oracle: Option<u128>,
    im: int,
    liq: int,
) -> Seq<AccountState> {
    match oracle {
        None => match price0 {
            None => s,
            Some(p) => liq_map(s, p as int, im, liq),
        },
        Some(p1) => liq_map(mtm_map(s, price_or(price0, p1), p1 as int), p1 as int, im, liq),
    }
}

/// Computes `required_margin` for one account.
fn required_margin_exec(parts: u32, praw: u128, mag: u128) -> (r: u128)
    requires
        0 < parts <= FRACTION_DENOM,
    ensures
        r == required_margin(parts as int, praw as int, mag as int),
{
    if mag == 0 {
        return 0;
    }
    match (parts as u128).checked_mul(praw) {
        None => u128::MAX,
        Some(c) => {
            proof {
                lemma_mul_div_ceil_bounds(mag as int, c as int, FRACTION_PRICE_DENOM as int);
            }
            match mul_rat_ceil(mag, c, FRACTION_PRICE_DENOM) {
                Some(v) => v,
                None => u128::MAX,
            }
        },
    }
}

/// Computes `sustainable_mag` for one account.
fn sustainable_exec(im_parts: u32, praw: u128, m: u128) -> (r: u128)
    requires
        0 < im_parts,
        0 < praw,
    ensures
        r == sustainable_mag(im_parts as int, praw as int, m as int),
{
    match (im_parts as u128).checked_mul(praw) {
        None => 0,
        Some(c) => {
            proof {
                assert(c > 0) by (nonlinear_arith)
                    requires
                        c == im_parts as int * praw as int,
                        im_parts > 0,
                        praw > 0,
                ;
                lemma_mul_div_floor_bounds(m as int, FRACTION_PRICE_DENOM as int, c as int);
            }
            match mul_rat_floor(m, FRACTION_PRICE_DENOM, c) {
                Some(v) => v,
                None => u128::MAX,
            }
        },
    }
}

impl Engine {
    /// Mark-to-market pass. With no oracle price this is a no-op; otherwise
    /// the oracle price becomes the new reference price unconditionally and
    /// every account's margin absorbs `delta * inventory`, clamped at zero.
    /// Only margins change; positions and inventories are untouched.
    pub fn revalue(&mut self, oracle_price: Option<u128>)
        requires
            old(self).wf(),
        ensures
            final(self).wf(),
            final(self).same_config(*old(self)),
            final(self).events@ == old(self).events@,
            oracle_price is None ==> final(self).accounts@ == old(self).accounts@ && final(self).price0 == old(self).price0,
            oracle_price matches Some(p1) ==> final(self).price0 == Some(p1) && final(self).accounts@ == mtm_map(
                old(self).accounts@,
                price_or(old(self).price0, p1),
                p1 as int,
            ),
    {
        let p1 = match oracle_price {
            Some(p) => p,
            None => {
                return ;
            },
        };
        let p0 = match self.price0 {
            Some(p) => p,
            None => p1,
        };
        self.price0 = Some(p1);
        let up = p1 >= p0;
        let dmag = if up {
            p1 - p0
        } else {
            p0 - p1
        };
        let ghost target = mtm_map(old(self).accounts@, p0 as int, p1 as int);
        let n = self.accounts.len();
        let mut i: usize = 0;
        while i < n
            invariant
                i <= n,
                n == self.accounts@.len(),
                n == old(self).accounts@.len(),
                target == mtm_map(old(self).accounts@, p0 as int, p1 as int),
                dmag == iabs(p1 as int - p0 as int),
                up == (p1 >= p0),
                forall|j: int| i <= j < n ==> self.accounts@[j] == old(self).accounts@[j],
                forall|j: int| 0 <= j < i ==> self.accounts@[j] == target[j],
                self.price0 == Some(p1),
                self.same_config(*old(self)),
                self.events@ == old(self).events@,
                self.im_parts == old(self).im_parts,
                self.liq_parts == old(self).liq_parts,
            decreases n - i,
        {
            let row = self.accounts[i];
            let invmag = abs_u128(row.inventory);
            let vmag = mul_rat_floor_sat(dmag, invmag, PRICE_SCALE);
            let gain = up == (row.inventory >= 0);
            let nm = if gain {
                row.margin.saturating_add(vmag)
            } else {
                row.margin.saturating_sub(vmag)
            };
            self.accounts.set(i, AccountState { margin: nm, ..row });
            assert(self.accounts@[i as int] == target[i as int]);
            i = i + 1;
        }
        proof {
            assert(self.accounts@ =~= target);
            assert forall|a: int, b: int|
                0 <= a < b < self.accounts@.len() implies self.accounts@[a].id
                != self.accounts@[b].id by {
            }
        }
    }

    /// Liquidation pass. A no-op while the reference price is unset;
    /// otherwise every account is tiered as in `liq_account`: full unwind
    /// on exhausted margin, untouched when the raw position clears the
    /// liquidation bar, else shrunk. Margins never change here.
    pub fn liquidate(&mut self)
        requires
            old(self).wf(),
        ensures
            final(self).wf(),
            final(self).same_config(*old(self)),
            final(self).events@ == old(self).events@,
            final(self).price0 == old(self).price0,
            old(self).price0 is None ==> final(self).accounts@ == old(self).accounts@,
            old(self).price0 matches Some(p) ==> final(self).accounts@ == liq_map(
                old(self).accounts@,
                p as int,
                old(self).im_parts as int,
                old(self).liq_parts as int,
            ),
    {
        let praw = match self.price0 {
            Some(p) => p,
            None => {
                return ;
            },
        };
        let im = self.im_parts;
        let lq = self.liq_parts;
        let ghost target = liq_map(old(self).accounts@, praw as int, im as int, lq as int);
        let n = self.accounts.len();
        let mut i: usize = 0;
        while i < n
            invariant
                i <= n,
                n == self.accounts@.len(),
                n == old(self).accounts@.len(),
                0 < lq <= im <= FRACTION_DENOM,
                im == old(self).im_parts,
                lq == old(self).liq_parts,
                target == liq_map(old(self).accounts@, praw as int, im as int, lq as int),
                forall|j: int| i <= j < n ==> self.accounts@[j] == old(self).accounts@[j],
                forall|j: int| 0 <= j < i ==> self.accounts@[j] == target[j],
                self.price0 == old(self).price0,
                self.same_config(*old(self)),
                self.events@ == old(self).events@,
            decreases n - i,
        {
            let row = self.accounts[i];
            if row.margin == 0 {
                self.accounts.set(i, AccountState { position: 0, inventory: 0, ..row });
            } else {
                let posmag = abs_u128(row.position);
                let req_raw = required_margin_exec(lq, praw, posmag);
                if req_raw <= row.margin {
                    // Covered at the raw-position level: nothing to do.
                } else {
                    let invmag = abs_u128(row.inventory);
                    let req_inv = required_margin_exec(im, praw, invmag);
                    if praw == 0 || req_inv > row.margin {
                        self.accounts.set(i, AccountState { position: row.inventory, ..row });
                    } else {
                        let smag = sustainable_exec(im, praw, row.margin);
                        proof {
                            lemma_sustainable_below(
                                lq as int,
                                im as int,
                                praw as int,
                                posmag as int,
                                row.margin as int,
                            );
                        }
                        let np = signed_of_mag(smag, row.inventory < 0);
                        self.accounts.set(i, AccountState { position: np, ..row });
                    }
                }
            }
            assert(self.accounts@[i as int] == target[i as int]);
            i = i + 1;
        }
        proof {
            assert(self.accounts@ =~= target);
            assert forall|a: int, b: int|
                0 <= a < b < self.accounts@.len() implies self.accounts@[a].id
                != self.accounts@[b].id by {
            }
        }
    }

    /// Proportional netting pass. Recomputes every inventory from the raw
    /// positions: with one side empty all inventories are zero; otherwise
    /// the smaller side (ties to shorts) is fully matched and the larger
    /// side takes a pro-rata haircut rounded down. Positions, margins and
    /// the reference price are untouched.
    pub fn net_interest(&mut self)
        requires
            old(self).wf(),
        ensures
            final(self).wf(),
            final(self).same_config(*old(self)),
            final(self).events@ == old(self).events@,
            final(self).price0 == old(self).price0,
            final(self).accounts@ == net_all(old(self).accounts@),
    {
        let n = self.accounts.len();
        let mut lt: u128 = 0;
        let mut st: u128 = 0;
        let mut i: usize = 0;
        while i < n
            invariant
                i <= n,
                n == self.accounts@.len(),
                self.accounts@ == old(self).accounts@,
                self.price0 == old(self).price0,
                self.same_config(*old(self)),
                self.events@ == old(self).events@,
                lt == imin(sum_long(old(self).accounts@.take(i as int)), u128::MAX as int),
                st == imin(sum_short(old(self).accounts@.take(i as int)), u128::MAX as int),
            decreases n - i,
        {
            let row = self.accounts[i];
            let lp: u128 = if row.position > 0 {
                row.position as u128
            } else {
                0
            };
            let sp: u128 = if row.position < 0 {
                abs_u128(row.position)
            } else {
                0
            };
            proof {
                let pre = old(self).accounts@.take(i as int);
                let cur = old(self).accounts@.take(i as int + 1);
                assert(cur.drop_last() =~= pre);
                assert(cur.last() == old(self).accounts@[i as int]);
                lemma_sums_nonneg(pre);
            }
            lt = lt.saturating_add(lp);
            st = st.saturating_add(sp);
            i = i + 1;
        }
        proof {
            assert(old(self).accounts@.take(n as int) =~= old(self).accounts@);
        }
        let ghost l = lt as int;
        let ghost sh = st as int;
        let ghost target = net_map(old(self).accounts@, l, sh);
        if lt == 0 || st == 0 {
            // One side is empty: nothing can be matched this cycle.
            let mut k: usize = 0;
            while k < n
                invariant
                    k <= n,
                    n == self.accounts@.len(),
                    n == old(self).accounts@.len(),
                    l == 0 || sh == 0,
                    target == net_map(old(self).accounts@, l, sh),
                    forall|j: int| k <= j < n ==> self.accounts@[j] == old(self).accounts@[j],
                    forall|j: int| 0 <= j < k ==> self.accounts@[j] == target[j],
                    self.price0 == old(self).price0,
                    self.same_config(*old(self)),
                    self.events@ == old(self).events@,
                decreases n - k,
            {
                let row = self.accounts[k];
                self.accounts.set(k, AccountState { inventory: 0, ..row });
                assert(self.accounts@[k as int] == target[k as int]);
                k = k + 1;
            }
        } else {
            let shorts_filled = st <= lt;
            let mn = if shorts_filled {
                st
            } else {
                lt
            };
            let mx = if shorts_filled {
                lt
            } else {
                st
            };
            proof {
                lemma_ratio_le_scale(l, sh);
            }
            let rp = mul_rat_floor(mn, PRICE_SCALE, mx).unwrap();
            let mut k: usize = 0;
            while k < n
                invariant
                    k <= n,
                    n == self.accounts@.len(),
                    n == old(self).accounts@.len(),
                    l > 0 && sh > 0,
                    shorts_filled == (sh <= l),
                    rp == ratio_parts(l, sh),
                    0 <= rp <= PRICE_SCALE,
                    target == net_map(old(self).accounts@, l, sh),
                    forall|j: int| k <= j < n ==> self.accounts@[j] == old(self).accounts@[j],
                    forall|j: int| 0 <= j < k ==> self.accounts@[j] == target[j],
                    self.price0 == old(self).price0,
                    self.same_config(*old(self)),
                    self.events@ == old(self).events@,
                decreases n - k,
            {
                let row = self.accounts[k];
                let filled = (row.position < 0 && shorts_filled) || (row.position >= 0
                    && !shorts_filled);
                let ninv = if filled {
                    row.position
                } else {
                    let mag = abs_u128(row.position);
                    proof {
                        lemma_fraction_le(mag as int, rp as int, PRICE_SCALE as int);
                        lemma_mul_div_floor_bounds(mag as int, rp as int, PRICE_SCALE as int);
                    }
                    let h = mul_rat_floor(mag, rp, PRICE_SCALE).unwrap();
                    signed_of_mag(h, row.position < 0)
                };
                self.accounts.set(k, AccountState { inventory: ninv, ..row });
                assert(self.accounts@[k as int] == target[k as int]);
                k = k + 1;
            }
        }
        proof {
            assert(self.accounts@ =~= target);
            assert(net_all(old(self).accounts@) == target);
            assert forall|a: int, b: int|
                0 <= a < b < self.accounts@.len() implies self.accounts@[a].id
                != self.accounts@[b].id by {
            }
        }
    }

    /// One settlement cycle: mark-to-market, then liquidation, then
    /// netting, in that fixed order. The oracle feed is consulted exactly
    /// once, through the value handed in by the cycle driver.
    pub fn run_cycle(&mut self, oracle_price: Option<u128>)
        requires
            old(self).wf(),
        ensures
            final(self).wf(),
            final(self).same_config(*old(self)),
            final(self).events@ == old(self).events@,
            final(self).price0 == (match oracle_price {
                Some(p) => Some(p),
                None => old(self).price0,
            }),
            final(self).accounts@ == net_all(
                cycle_mid(
                    old(self).accounts@,
                    old(self).price0,
                    oracle_price,
                    old(self).im_parts as int,
                    old(self).liq_parts as int,
                ),
            ),
    {
        self.revalue(oracle_price);
        self.liquidate();
        self.net_interest();
    }
}

} // verus!
