//! System-wide laws of the settlement engine, stated and proved over the
//! spec-level transforms that the pass contracts are written in.

use vstd::prelude::*;
use crate::account::AccountState;
use crate::arith::{
    FRACTION_DENOM, PRICE_SCALE, iabs, lemma_div_bounds, lemma_fraction_le,
    lemma_mul_div_floor_bounds, mul_div_floor,
};
use crate::settle::{
    liq_account, lemma_sums_nonneg, lemma_sustainable_below, lemma_ratio_le_scale, mtm_margin,
    net_all, net_inv, net_map, neg_part, pos_part, ratio_parts, required_margin, sum_long,
    sum_short, sustainable_mag,
};

verus! {

/// Sum of the long (positive) parts of all inventories.
pub open spec fn sum_pos_inv(s: Seq<AccountState>) -> int
    decreases s.len(),
{
    if s.len() == 0 {
        0
    } else {
        sum_pos_inv(s.drop_last()) + pos_part(s.last().inventory as int)
    }
}

/// Sum of the short (negative) part magnitudes of all inventories.
pub open spec fn sum_neg_inv(s: Seq<AccountState>) -> int
    decreases s.len(),
{
    if s.len() == 0 {
        0
    } else {
        sum_neg_inv(s.drop_last()) + neg_part(s.last().inventory as int)
    }
}

/// Number of accounts with a strictly long position.
pub open spec fn count_long(s: Seq<AccountState>) -> int
    decreases s.len(),
{
    if s.len() == 0 {
        0
    } else {
        count_long(s.drop_last()) + (if s.last().position > 0 {
            1int
        } else {
            0int
        })
    }
}

/// Number of accounts with a strictly short position.
pub open spec fn count_short(s: Seq<AccountState>) -> int
    decreases s.len(),
{
    if s.len() == 0 {
        0
    } else {
        count_short(s.drop_last()) + (if s.last().position < 0 {
            1int
        } else {
            0int
        })
    }
}

/// With an empty side, netting matches nothing: every inventory is zero.
proof fn lemma_net_empty_side(s: Seq<AccountState>, l: int, sh: int)
    requires
        l == 0 || sh == 0,
    ensures
        sum_pos_inv(net_map(s, l, sh)) == 0,
        sum_neg_inv(net_map(s, l, sh)) == 0,
    decreases s.len(),
{
    let t = net_map(s, l, sh);
    if s.len() > 0 {
        lemma_net_empty_side(s.drop_last(), l, sh);
        assert(t.drop_last() =~= net_map(s.drop_last(), l, sh));
        assert(t.last().inventory as int == 0);
    }
}

/// Netting sums with shorts filled (`0 < sh <= l`): the short side of the
/// inventories reproduces the short total exactly, and the long side is
/// the ratio of the long total up to one unit of rounding per long
/// account.
proof fn lemma_net_sums_shorts_filled(s: Seq<AccountState>, l: int, sh: int)
    requires
        0 < sh <= l,
    ensures
        sum_neg_inv(net_map(s, l, sh)) == sum_short(s),
        PRICE_SCALE as int * sum_pos_inv(net_map(s, l, sh)) <= ratio_parts(l, sh) * sum_long(s),
        ratio_parts(l, sh) * sum_long(s) <= PRICE_SCALE as int * (sum_pos_inv(net_map(s, l, sh))
            + count_long(s)),
    decreases s.len(),
{
    let t = net_map(s, l, sh);
    let rp = ratio_parts(l, sh);
    let scale = PRICE_SCALE as int;
    lemma_ratio_le_scale(l, sh);
    if s.len() == 0 {
        assert(t.len() == 0);
    } else {
        let d = s.drop_last();
        lemma_net_sums_shorts_filled(d, l, sh);
        assert(t.drop_last() =~= net_map(d, l, sh));
        let e = s.last();
        let p = e.position as int;
        assert(t.last() == AccountState { inventory: net_inv(l, sh, p) as i128, ..e });
        let sp0 = sum_pos_inv(net_map(d, l, sh));
        let sl0 = sum_long(d);
        if p < 0 {
            assert(net_inv(l, sh, p) == p);
            assert(rp * sum_long(s) == rp * sl0);
        } else {
            let h = mul_div_floor(iabs(p), rp, scale);
            assert(net_inv(l, sh, p) == h);
            lemma_fraction_le(p, rp, scale);
            lemma_mul_div_floor_bounds(p, rp, scale);
            assert(t.last().inventory as int == h);
            assert(sum_pos_inv(t) == sp0 + h);
            assert(rp * (sl0 + p) == rp * sl0 + p * rp) by (nonlinear_arith);
            assert(scale * (sp0 + h) == scale * sp0 + scale * h) by (nonlinear_arith);
            if p == 0 {
                assert(h == 0);
                assert(rp * sum_long(s) == rp * sl0);
            } else {
                assert(scale * (sp0 + h + count_long(s)) == scale * (sp0 + count_long(d)) + scale
                    * h + scale) by (nonlinear_arith)
                    requires
                        count_long(s) == count_long(d) + 1,
                ;
            }
        }
    }
}

/// Netting sums with longs filled (`0 < l < sh`): symmetric to the case
/// above.
proof fn lemma_net_sums_longs_filled(s: Seq<AccountState>, l: int, sh: int)
    requires
        0 < l < sh,
    ensures
        sum_pos_inv(net_map(s, l, sh)) == sum_long(s),
        PRICE_SCALE as int * sum_neg_inv(net_map(s, l, sh)) <= ratio_parts(l, sh) * sum_short(s),
        ratio_parts(l, sh) * sum_short(s) <= PRICE_SCALE as int * (sum_neg_inv(net_map(s, l, sh))
            + count_short(s)),
    decreases s.len(),
{
    let t = net_map(s, l, sh);
    let rp = ratio_parts(l, sh);
    let scale = PRICE_SCALE as int;
    lemma_ratio_le_scale(l, sh);
    if s.len() == 0 {
        assert(t.len() == 0);
    } else {
        let d = s.drop_last();
        lemma_net_sums_longs_filled(d, l, sh);
        assert(t.drop_last() =~= net_map(d, l, sh));
        let e = s.last();
        let p = e.position as int;
        assert(t.last() == AccountState { inventory: net_inv(l, sh, p) as i128, ..e });
        let sn0 = sum_neg_inv(net_map(d, l, sh));
        let ss0 = sum_short(d);
        if p >= 0 {
            assert(net_inv(l, sh, p) == p);
            assert(rp * sum_short(s) == rp * ss0);
        } else {
            let h = mul_div_floor(iabs(p), rp, scale);
            assert(net_inv(l, sh, p) == -h);
            lemma_fraction_le(-p, rp, scale);
            lemma_mul_div_floor_bounds(-p, rp, scale);
            assert(t.last().inventory as int == -h);
            assert(sum_neg_inv(t) == sn0 + h);
            assert(rp * (ss0 + (-p)) == rp * ss0 + (-p) * rp) by (nonlinear_arith);
            assert(scale * (sn0 + h) == scale * sn0 + scale * h) by (nonlinear_arith);
            assert(scale * (sn0 + h + count_short(s)) == scale * (sn0 + count_short(d)) + scale
                * h + scale) by (nonlinear_arith)
                requires
                    count_short(s) == count_short(d) + 1,
            ;
        }
    }
}

/// Netting balance: after the netting pass the matched long and short
/// inventory totals agree: the filled side's total is reproduced exactly,
/// the haircut side's total never exceeds it, and it falls short by at
/// most one unit per account on the haircut side plus the quantization of
/// the ratio (the larger side total divided by `PRICE_SCALE`). With one
/// side empty nothing is matched at all.
pub proof fn lemma_netting_balance(s: Seq<AccountState>)
    requires
        sum_long(s) <= u128::MAX,
        sum_short(s) <= u128::MAX,
    ensures
        ({
            let t = net_all(s);
            let l = sum_long(s);
            let sh = sum_short(s);
            let scale = PRICE_SCALE as int;
            &&& (l == 0 || sh == 0) ==> sum_pos_inv(t) == 0 && sum_neg_inv(t) == 0
            &&& (0 < sh <= l) ==> sum_neg_inv(t) == sh && sum_pos_inv(t) <= sh && sh
                - sum_pos_inv(t) <= count_long(s) + l / scale
            &&& (0 < l < sh) ==> sum_pos_inv(t) == l && sum_neg_inv(t) <= l && l - sum_neg_inv(t)
                <= count_short(s) + sh / scale
        }),
{
    let l = sum_long(s);
    let sh = sum_short(s);
    let scale = PRICE_SCALE as int;
    lemma_sums_nonneg(s);
    assert(net_all(s) == net_map(s, l, sh));
    let t = net_map(s, l, sh);
    if l == 0 || sh == 0 {
        lemma_net_empty_side(s, l, sh);
    } else if sh <= l {
        lemma_net_sums_shorts_filled(s, l, sh);
        let rp = ratio_parts(l, sh);
        let sp = sum_pos_inv(t);
        let nl = count_long(s);
        assert(rp == mul_div_floor(sh, scale, l));
        lemma_mul_div_floor_bounds(sh, scale, l);
        // l * rp <= sh * scale < l * rp + l, and scale * sp <= rp * l.
        assert(rp * l == l * rp) by (nonlinear_arith);
        assert(rp * sum_long(s) == rp * l);
        assert(scale * sp <= sh * scale);
        assert(sp <= sh) by (nonlinear_arith)
            requires
                scale > 0,
                scale * sp <= sh * scale,
        ;
        // sh * scale < scale * (sp + nl) + l, so scale * (sh - sp - nl) < l.
        assert(sh * scale < rp * l + l);
        assert(sh * scale < scale * (sp + nl) + l);
        let x = sh - sp - nl;
        assert(scale * x < l) by (nonlinear_arith)
            requires
                x == sh - sp - nl,
                sh * scale < scale * (sp + nl) + l,
        ;
        lemma_div_bounds(l, scale);
        if x > 0 {
            assert(scale * x <= l);
            vstd::arithmetic::div_mod::lemma_div_is_ordered(scale * x, l, scale);
            vstd::arithmetic::div_mod::lemma_div_multiples_vanish(x, scale);
            assert(x <= l / scale);
        }
    } else {
        lemma_net_sums_longs_filled(s, l, sh);
        let rp = ratio_parts(l, sh);
        let sn = sum_neg_inv(t);
        let ns = count_short(s);
        assert(rp == mul_div_floor(l, scale, sh));
        lemma_mul_div_floor_bounds(l, scale, sh);
        assert(rp * sh == sh * rp) by (nonlinear_arith);
        assert(rp * sum_short(s) == rp * sh);
        assert(scale * sn <= l * scale);
        assert(sn <= l) by (nonlinear_arith)
            requires
                scale > 0,
                scale * sn <= l * scale,
        ;
        assert(l * scale < rp * sh + sh);
        assert(l * scale < scale * (sn + ns) + sh);
        let x = l - sn - ns;
        assert(scale * x < sh) by (nonlinear_arith)
            requires
                x == l - sn - ns,
                l * scale < scale * (sn + ns) + sh,
        ;
        lemma_div_bounds(sh, scale);
        if x > 0 {
            assert(scale * x <= sh);
            vstd::arithmetic::div_mod::lemma_div_is_ordered(scale * x, sh, scale);
            vstd::arithmetic::div_mod::lemma_div_multiples_vanish(x, scale);
            assert(x <= sh / scale);
        }
    }
}

/// Margin can never be negative: every stored margin is an unsigned
/// balance, and the mark-to-market rewrite clamps at exactly zero before
/// storing, so the clamp is visible in the formula itself.
pub proof fn lemma_margin_never_negative(s: Seq<AccountState>, p0: int, p1: int)
    ensures
        forall|i: int| 0 <= i < s.len() ==> 0 <= #[trigger] s[i].margin,
        forall|inv: int, m: int| m >= 0 ==> 0 <= #[trigger] mtm_margin(p0, p1, inv, m),
{
    assert forall|inv: int, m: int| m >= 0 implies 0 <= #[trigger] mtm_margin(p0, p1, inv, m) by {
        let dmag = iabs(p1 - p0);
        lemma_mul_div_floor_bounds(dmag, iabs(inv), PRICE_SCALE as int);
    }
}

/// Liquidation monotonicity: for an account whose matched inventory does
/// not exceed its raw position in magnitude, the liquidation pass never
/// increases the position magnitude, never increases the inventory
/// magnitude, and never changes the margin. (An account that shrank its
/// raw position below its still-unnetted inventory can instead have its
/// position restored up to that inventory.)
pub proof fn lemma_liquidation_monotone(praw: int, im: int, liq: int, a: AccountState)
    requires
        0 < liq <= im <= FRACTION_DENOM,
        praw >= 0,
        iabs(a.inventory as int) <= iabs(a.position as int),
    ensures
        ({
            let b = liq_account(praw, im, liq, a);
            &&& iabs(b.position as int) <= iabs(a.position as int)
            &&& iabs(b.inventory as int) <= iabs(a.inventory as int)
            &&& b.margin == a.margin
        }),
{
    let b = liq_account(praw, im, liq, a);
    if a.margin == 0 {
    } else if required_margin(liq, praw, iabs(a.position as int)) <= a.margin {
    } else if praw == 0 || required_margin(im, praw, iabs(a.inventory as int)) > a.margin {
    } else {
        let mag = sustainable_mag(im, praw, a.margin as int);
        lemma_sustainable_below(liq, im, praw, iabs(a.position as int), a.margin as int);
        assert(0 <= mag) by {
            assert(im * praw > 0) by (nonlinear_arith)
                requires
                    im > 0,
                    praw > 0,
            ;
            if im * praw <= u128::MAX {
                lemma_mul_div_floor_bounds(
                    a.margin as int,
                    crate::arith::FRACTION_PRICE_DENOM as int,
                    im * praw,
                );
            }
        }
    }
}

} // verus!
