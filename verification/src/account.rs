//! Per-account ledger rows and the spec-level view of the account table.
//!
//! The ledger is a sequence of rows with pairwise-distinct account ids; an
//! account that has no row is read as all zeroes, matching implicit account
//! creation at first mutation.

use vstd::prelude::*;

verus! {

/// One ledger row: raw signed position intent, matched inventory from the
/// last netting pass, and posted collateral.
#[derive(Clone, Copy, Debug, PartialEq, Eq, Structural)]
pub struct AccountState {
    /// Account identity.
    pub id: u64,
    /// Raw signed exposure intent; positive is long, negative is short.
    pub position: i128,
    /// Matched exposure after the last netting pass.
    pub inventory: i128,
    /// Posted collateral in the native settlement currency; never negative.
    pub margin: u128,
}

/// All rows carry distinct account ids.
pub open spec fn ids_unique(s: Seq<AccountState>) -> bool {
    forall|i: int, j: int| 0 <= i < j < s.len() ==> s[i].id != s[j].id
}

/// Index of the first row for `id`, or -1 when the account has no row.
pub open spec fn find_idx(s: Seq<AccountState>, id: u64) -> int
    decreases s.len(),
{
    if s.len() == 0 {
        -1
    } else if s[0].id == id {
        0
    } else {
        let r = find_idx(s.drop_first(), id);
        if r < 0 {
            -1
        } else {
            r + 1
        }
    }
}

/// Raw position of `id`; zero when the account has no row.
pub open spec fn position_at(s: Seq<AccountState>, id: u64) -> int {
    let i = find_idx(s, id);
    if i < 0 {
        0
    } else {
        s[i].position as int
    }
}

/// Matched inventory of `id`; zero when the account has no row.
pub open spec fn inventory_at(s: Seq<AccountState>, id: u64) -> int {
    let i = find_idx(s, id);
    if i < 0 {
        0
    } else {
        s[i].inventory as int
    }
}

/// Posted margin of `id`; zero when the account has no row.
pub open spec fn margin_at(s: Seq<AccountState>, id: u64) -> int {
    let i = find_idx(s, id);
    if i < 0 {
        0
    } else {
        s[i].margin as int
    }
}

/// `find_idx` lands in range, on a row with the right id, and only after
/// rows with other ids.
pub proof fn lemma_find_idx(s: Seq<AccountState>, id: u64)
    ensures
        -1 <= find_idx(s, id) < s.len(),
        find_idx(s, id) == -1 ==> (forall|j: int| 0 <= j < s.len() ==> s[j].id != id),
        find_idx(s, id) >= 0 ==> s[find_idx(s, id)].id == id,
        find_idx(s, id) >= 0 ==> (forall|j: int| 0 <= j < find_idx(s, id) ==> s[j].id != id),
    decreases s.len(),
{
    if s.len() == 0 {
    } else if s[0].id == id {
    } else {
        let d = s.drop_first();
        lemma_find_idx(d, id);
        if find_idx(d, id) < 0 {
            assert forall|j: int| 0 <= j < s.len() implies s[j].id != id by {
                if j > 0 {
                    assert(d[j - 1] == s[j]);
                }
            }
        } else {
            assert forall|j: int| 0 <= j < find_idx(s, id) implies s[j].id != id by {
                if j > 0 {
                    assert(d[j - 1] == s[j]);
                }
            }
            assert(d[find_idx(d, id)] == s[find_idx(s, id)]);
        }
    }
}

/// The first row whose id is `id` is exactly where `find_idx` points.
pub proof fn lemma_find_idx_at(s: Seq<AccountState>, id: u64, i: int)
    requires
        0 <= i < s.len(),
        s[i].id == id,
        forall|j: int| 0 <= j < i ==> s[j].id != id,
    ensures
        find_idx(s, id) == i,
    decreases s.len(),
{
    if i == 0 {
    } else {
        assert(forall|j: int| 0 <= j < s.drop_first().len() ==> s.drop_first()[j] == s[j + 1]);
        lemma_find_idx_at(s.drop_first(), id, i - 1);
    }
}

/// An id found on no row at all is not found by `find_idx`.
pub proof fn lemma_find_idx_absent(s: Seq<AccountState>, id: u64)
    requires
        forall|j: int| 0 <= j < s.len() ==> s[j].id != id,
    ensures
        find_idx(s, id) == -1,
    decreases s.len(),
{
    if s.len() > 0 {
        assert(forall|j: int| 0 <= j < s.drop_first().len() ==> s.drop_first()[j] == s[j + 1]);
        lemma_find_idx_absent(s.drop_first(), id);
    }
}

/// Two tables whose rows carry the same ids position every id identically.
pub proof fn lemma_find_idx_same_ids(s: Seq<AccountState>, t: Seq<AccountState>, id: u64)
    requires
        s.len() == t.len(),
        forall|j: int| 0 <= j < s.len() ==> s[j].id == t[j].id,
    ensures
        find_idx(s, id) == find_idx(t, id),
    decreases s.len(),
{
    if s.len() > 0 {
        assert(forall|j: int| 0 <= j < s.drop_first().len() ==> s.drop_first()[j] == s[j + 1]);
        assert(forall|j: int| 0 <= j < t.drop_first().len() ==> t.drop_first()[j] == t[j + 1]);
        lemma_find_idx_same_ids(s.drop_first(), t.drop_first(), id);
    }
}

/// Appending a fresh row leaves every other id where it was and places the
/// new id on the appended row.
pub proof fn lemma_find_idx_push(s: Seq<AccountState>, a: AccountState, id: u64)
    ensures
        find_idx(s, id) >= 0 ==> find_idx(s.push(a), id) == find_idx(s, id),
        find_idx(s, id) == -1 && a.id == id ==> find_idx(s.push(a), id) == s.len(),
        find_idx(s, id) == -1 && a.id != id ==> find_idx(s.push(a), id) == -1,
{
    lemma_find_idx(s, id);
    let t = s.push(a);
    assert(forall|j: int| 0 <= j < s.len() ==> t[j] == s[j]);
    if find_idx(s, id) >= 0 {
        lemma_find_idx_at(t, id, find_idx(s, id));
    } else if a.id == id {
        lemma_find_idx_at(t, id, s.len() as int);
    } else {
        lemma_find_idx_absent(t, id);
    }
}

/// Overwriting the row at `i` without changing its id moves no id, and reads
/// of every other id are unchanged.
pub proof fn lemma_accessors_update(s: Seq<AccountState>, i: int, a: AccountState)
    requires
        0 <= i < s.len(),
        a.id == s[i].id,
    ensures
        find_idx(s.update(i, a), a.id) == find_idx(s, a.id),
        forall|x: u64|
            x != a.id ==> #[trigger] position_at(s.update(i, a), x) == position_at(s, x)
                && inventory_at(s.update(i, a), x) == inventory_at(s, x) && margin_at(
                s.update(i, a),
                x,
            ) == margin_at(s, x),
{
    let t = s.update(i, a);
    assert forall|x: u64| true implies #[trigger] find_idx(t, x) == find_idx(s, x) by {
        lemma_find_idx_same_ids(s, t, x);
    }
    assert forall|x: u64|
        x != a.id implies #[trigger] position_at(t, x) == position_at(s, x) && inventory_at(t, x)
        == inventory_at(s, x) && margin_at(t, x) == margin_at(s, x) by {
        lemma_find_idx(s, x);
        let r = find_idx(s, x);
        if r >= 0 {
            assert(s[r].id == x);
            assert(r != i);
            assert(t[r] == s[r]);
        }
    }
}

/// Overwriting the row at `i` of a table with distinct ids, keeping its id,
/// rewrites exactly that id's row and no other.
pub proof fn lemma_accessors_set(s: Seq<AccountState>, i: int, a: AccountState)
    requires
        0 <= i < s.len(),
        a.id == s[i].id,
        ids_unique(s),
    ensures
        ids_unique(s.update(i, a)),
        position_at(s.update(i, a), a.id) == a.position,
        inventory_at(s.update(i, a), a.id) == a.inventory,
        margin_at(s.update(i, a), a.id) == a.margin,
        forall|x: u64|
            x != a.id ==> #[trigger] position_at(s.update(i, a), x) == position_at(s, x)
                && inventory_at(s.update(i, a), x) == inventory_at(s, x) && margin_at(
                s.update(i, a),
                x,
            ) == margin_at(s, x),
{
    assert forall|j: int| 0 <= j < i implies s[j].id != a.id by {
        assert(s[j].id != s[i].id);
    }
    lemma_find_idx_at(s, a.id, i);
    lemma_accessors_update(s, i, a);
    let t = s.update(i, a);
    lemma_find_idx_same_ids(s, t, a.id);
}

/// Appending a row for an id with no row yet gives that id the appended
/// fields and leaves every other id unchanged.
pub proof fn lemma_accessors_push(s: Seq<AccountState>, a: AccountState)
    requires
        ids_unique(s),
        find_idx(s, a.id) == -1,
    ensures
        ids_unique(s.push(a)),
        position_at(s.push(a), a.id) == a.position,
        inventory_at(s.push(a), a.id) == a.inventory,
        margin_at(s.push(a), a.id) == a.margin,
        forall|x: u64|
            x != a.id ==> #[trigger] position_at(s.push(a), x) == position_at(s, x)
                && inventory_at(s.push(a), x) == inventory_at(s, x) && margin_at(s.push(a), x)
                == margin_at(s, x),
{
    let t = s.push(a);
    lemma_find_idx(s, a.id);
    assert(forall|j: int| 0 <= j < s.len() ==> t[j] == s[j]);
    lemma_find_idx_at(t, a.id, s.len() as int);
    assert forall|x: u64|
        x != a.id implies #[trigger] position_at(t, x) == position_at(s, x) && inventory_at(t, x)
        == inventory_at(s, x) && margin_at(t, x) == margin_at(s, x) by {
        lemma_find_idx(s, x);
        let r = find_idx(s, x);
        if r >= 0 {
            lemma_find_idx_at(t, x, r);
        } else {
            lemma_find_idx_absent(t, x);
        }
    }
}

/// Looks up the row index of `who`, with the result tied to `find_idx`.
pub(crate) fn find_index(v: &Vec<AccountState>, who: u64) -> (r: Option<usize>)
    ensures
        match r {
            Some(i) => i < v@.len() && find_idx(v@, who) == i as int,
            None => find_idx(v@, who) == -1,
        },
{
    let n = v.len();
    let mut i: usize = 0;
    while i < n
        invariant
            i <= n,
            n == v@.len(),
            forall|j: int| 0 <= j < i ==> v@[j].id != who,
        decreases n - i,
    {
        if v[i].id == who {
            proof {
                lemma_find_idx_at(v@, who, i as int);
            }
            return Some(i);
        }
        i = i + 1;
    }
    proof {
        lemma_find_idx_absent(v@, who);
    }
    None
}

} // verus!
