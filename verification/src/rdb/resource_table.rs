//! The table "resources": the balance of each owner in each asset type.
//!
//! A balance is positive: the row of a balance that reaches 0 is deleted, and
//! no balance goes below 0.

use super::error::{Error, SQLITE_CONSTRAINT, SQLITE_CONSTRAINT_CHECK, SQLITE_TOOBIG};
use crate::data_types::{AssetValue, Resource, ResourceId, ResourceKey};
use vstd::prelude::*;

verus! {

/// The balances of a table: each key that has a row, with its positive balance.
pub type Balances = Map<ResourceKey, int>;

/// The balance under `key`: 0 where the table has no row.
pub open spec fn balance(balances: Balances, key: ResourceKey) -> int {
    if balances.contains_key(key) {
        balances[key]
    } else {
        0
    }
}

/// The balances with `value` under `key`: no row is kept for the balance 0.
pub open spec fn with_balance(balances: Balances, key: ResourceKey, value: int) -> Balances {
    if value == 0 {
        balances.remove(key)
    } else {
        balances.insert(key, value)
    }
}

/// Every balance is positive, and is an amount.
pub open spec fn balances_wf(balances: Balances) -> bool {
    forall|key: ResourceKey| balances.contains_key(key) ==> 0 < #[trigger] balances[key] <= i64::MAX
}

/// What a run of statements leaves behind: the balances, and the result code
/// of the statement that failed, if one did.
pub struct BalanceOutcome {
    pub balances: Balances,
    pub error: Option<i32>,
}

/// The changes that an update asks for: each key with the amount to add to its balance.
pub open spec fn deltas_view(deltas: Seq<(ResourceId, AssetValue)>) -> Seq<(ResourceKey, int)> {
    Seq::new(deltas.len(), |i: int| (deltas[i].0@, deltas[i].1 as int))
}

/// The outcome of adding `amount`, which is positive, to the balance under `key`.
pub open spec fn deposited(balances: Balances, key: ResourceKey, amount: int) -> BalanceOutcome {
    if balance(balances, key) + amount > i64::MAX {
        BalanceOutcome { balances, error: Some(SQLITE_TOOBIG) }
    } else {
        BalanceOutcome {
            balances: balances.insert(key, balance(balances, key) + amount),
            error: None,
        }
    }
}

/// The outcome of adding `amount`, which is negative, to the balance under `key`.
pub open spec fn withdrawn(balances: Balances, key: ResourceKey, amount: int) -> BalanceOutcome {
    if !balances.contains_key(key) {
        BalanceOutcome { balances, error: Some(SQLITE_CONSTRAINT_CHECK) }
    } else if balances[key] + amount < 0 {
        BalanceOutcome { balances, error: Some(SQLITE_CONSTRAINT) }
    } else {
        BalanceOutcome { balances: with_balance(balances, key, balances[key] + amount), error: None }
    }
}

/// The outcome of the deposits among `deltas`, in their order, up to the first that fails.
pub open spec fn deposits_applied(balances: Balances, deltas: Seq<(ResourceKey, int)>) -> BalanceOutcome
    decreases deltas.len(),
{
    if deltas.len() == 0 {
        BalanceOutcome { balances, error: None }
    } else {
        let before = deposits_applied(balances, deltas.drop_last());
        if before.error is Some || deltas.last().1 <= 0 {
            before
        } else {
            deposited(before.balances, deltas.last().0, deltas.last().1)
        }
    }
}

/// The outcome of the withdrawals among `deltas`, in their order, up to the first that fails.
pub open spec fn withdrawals_applied(balances: Balances, deltas: Seq<(ResourceKey, int)>) -> BalanceOutcome
    decreases deltas.len(),
{
    if deltas.len() == 0 {
        BalanceOutcome { balances, error: None }
    } else {
        let before = withdrawals_applied(balances, deltas.drop_last());
        if before.error is Some || deltas.last().1 >= 0 {
            before
        } else {
            withdrawn(before.balances, deltas.last().0, deltas.last().1)
        }
    }
}

/// The outcome of an update: all the deposits first, then the withdrawals.
/// What was done before a failure stays done.
pub open spec fn balances_updated(balances: Balances, deltas: Seq<(ResourceKey, int)>) -> BalanceOutcome {
    let after_deposits = deposits_applied(balances, deltas);
    if after_deposits.error is Some {
        after_deposits
    } else {
        withdrawals_applied(after_deposits.balances, deltas)
    }
}

/// Some identifier of `ids` stands for `key`.
pub open spec fn key_named(ids: Seq<ResourceId>, key: ResourceKey) -> bool {
    exists|i: int| 0 <= i < ids.len() && (#[trigger] ids[i])@ == key
}

/// The balances under `ids`: one entry for each key that has a balance, in
/// the order in which `ids` names it first.
pub open spec fn balances_fetched(balances: Balances, ids: Seq<ResourceId>) -> Seq<
    (ResourceId, AssetValue),
>
    decreases ids.len(),
{
    if ids.len() == 0 {
        Seq::empty()
    } else {
        let front = balances_fetched(balances, ids.drop_last());
        let id = ids.last();
        if balances.contains_key(id@) && !key_named(ids.drop_last(), id@) {
            front.push((id, balances[id@] as AssetValue))
        } else {
            front
        }
    }
}

/// The sum of the amounts of the rows under `key`.
pub open spec fn rows_balance(rows: Seq<Resource>, key: ResourceKey) -> int
    decreases rows.len(),
{
    if rows.len() == 0 {
        0
    } else {
        rows_balance(rows.drop_last(), key) + if rows.last().id_@ == key {
            rows.last().value_ as int
        } else {
            0
        }
    }
}

/// The constraints on the rows: each key has one row at most, and every amount is positive.
pub open spec fn rows_wf(rows: Seq<Resource>) -> bool {
    &&& forall|i: int| 0 <= i < rows.len() ==> (#[trigger] rows[i]).value_ > 0
    &&& forall|i: int, j: int| 0 <= i < j < rows.len() ==> rows[i].id_@ != rows[j].id_@
}

/// The balances that the rows hold.
pub open spec fn rows_balances(rows: Seq<Resource>) -> Balances {
    Map::new(|key: ResourceKey| rows_balance(rows, key) != 0, |key: ResourceKey| rows_balance(rows, key))
}

/// The balance under a key is the amount of its row, and 0 for a key without a row.
pub proof fn lemma_rows_balance(rows: Seq<Resource>, key: ResourceKey)
    requires
        rows_wf(rows),
    ensures
        forall|i: int| 0 <= i < rows.len() && (#[trigger] rows[i]).id_@ == key ==> rows_balance(rows, key)
            == rows[i].value_,
        (forall|i: int| 0 <= i < rows.len() ==> (#[trigger] rows[i]).id_@ != key) ==> rows_balance(rows, key)
            == 0,
        rows_balance(rows, key) >= 0,
    decreases rows.len(),
{
    if rows.len() > 0 {
        let front = rows.drop_last();
        assert forall|i: int| 0 <= i < front.len() implies (#[trigger] front[i]).value_ > 0 by {
            assert(front[i] == rows[i]);
        }
        assert forall|i: int, j: int| 0 <= i < j < front.len() implies front[i].id_@
            != front[j].id_@ by {
            assert(front[i] == rows[i] && front[j] == rows[j]);
        }
        lemma_rows_balance(front, key);
        let last = rows.len() - 1;
        assert(rows[last].value_ > 0);
        if rows.last().id_@ == key {
            assert forall|i: int| 0 <= i < front.len() implies (#[trigger] front[i]).id_@ != key by {
                assert(front[i] == rows[i]);
                assert(rows[i].id_@ != rows[last].id_@);
            }
            assert forall|i: int| 0 <= i < rows.len() && (#[trigger] rows[i]).id_@
                == key implies rows_balance(rows, key) == rows[i].value_ by {
                if i < last {
                    assert(rows[i].id_@ != rows[last].id_@);
                }
            }
        } else {
            assert forall|i: int| 0 <= i < rows.len() && (#[trigger] rows[i]).id_@
                == key implies rows_balance(rows, key) == rows[i].value_ by {
                assert(front[i] == rows[i]);
            }
            if forall|i: int| 0 <= i < rows.len() ==> (#[trigger] rows[i]).id_@ != key {
                assert forall|i: int| 0 <= i < front.len() implies (#[trigger] front[i]).id_@ != key by {
                    assert(front[i] == rows[i]);
                }
            }
        }
    }
}

/// The balances of rows that meet their constraints are positive.
pub proof fn lemma_rows_balances_wf(rows: Seq<Resource>)
    requires
        rows_wf(rows),
    ensures
        balances_wf(rows_balances(rows)),
{
    assert forall|key: ResourceKey| rows_balances(rows).contains_key(key) implies 0
        < #[trigger] rows_balances(rows)[key] <= i64::MAX by {
        lemma_rows_balance(rows, key);
        if exists|i: int| 0 <= i < rows.len() && (#[trigger] rows[i]).id_@ == key {
            let i = choose|i: int| 0 <= i < rows.len() && (#[trigger] rows[i]).id_@ == key;
            assert(rows_balance(rows, key) == rows[i].value_);
        }
    }
}

/// Once a deposit has failed, the deposits that follow are not made.
pub proof fn lemma_deposits_stop(balances: Balances, deltas: Seq<(ResourceKey, int)>, k: int)
    requires
        0 <= k <= deltas.len(),
        deposits_applied(balances, deltas.take(k)).error is Some,
    ensures
        deposits_applied(balances, deltas) == deposits_applied(balances, deltas.take(k)),
    decreases deltas.len() - k,
{
    if k == deltas.len() {
        assert(deltas.take(k) == deltas);
    } else {
        assert(deltas.drop_last().take(k) == deltas.take(k));
        lemma_deposits_stop(balances, deltas.drop_last(), k);
    }
}

/// Once a withdrawal has failed, the withdrawals that follow are not made.
pub proof fn lemma_withdrawals_stop(balances: Balances, deltas: Seq<(ResourceKey, int)>, k: int)
    requires
        0 <= k <= deltas.len(),
        withdrawals_applied(balances, deltas.take(k)).error is Some,
    ensures
        withdrawals_applied(balances, deltas) == withdrawals_applied(balances, deltas.take(k)),
    decreases deltas.len() - k,
{
    if k == deltas.len() {
        assert(deltas.take(k) == deltas);
    } else {
        assert(deltas.drop_last().take(k) == deltas.take(k));
        lemma_withdrawals_stop(balances, deltas.drop_last(), k);
    }
}

/// The sum of the positive amounts that `deltas` holds for `key`.
pub open spec fn deposit_sum(deltas: Seq<(ResourceKey, int)>, key: ResourceKey) -> int
    decreases deltas.len(),
{
    if deltas.len() == 0 {
        0
    } else {
        deposit_sum(deltas.drop_last(), key) + if deltas.last().0 == key && deltas.last().1 > 0 {
            deltas.last().1
        } else {
            0
        }
    }
}

/// The sum of the negative amounts that `deltas` holds for `key`.
pub open spec fn withdrawal_sum(deltas: Seq<(ResourceKey, int)>, key: ResourceKey) -> int
    decreases deltas.len(),
{
    if deltas.len() == 0 {
        0
    } else {
        withdrawal_sum(deltas.drop_last(), key) + if deltas.last().0 == key && deltas.last().1 < 0 {
            deltas.last().1
        } else {
            0
        }
    }
}

/// The sum of all the amounts that `deltas` holds for `key`.
pub open spec fn delta_sum(deltas: Seq<(ResourceKey, int)>, key: ResourceKey) -> int {
    deposit_sum(deltas, key) + withdrawal_sum(deltas, key)
}

/// The sums of the deposits are not negative, and grow with the list.
pub proof fn lemma_deposit_sum_grows(deltas: Seq<(ResourceKey, int)>, key: ResourceKey)
    ensures
        0 <= deposit_sum(deltas, key),
        deltas.len() > 0 ==> deposit_sum(deltas.drop_last(), key) <= deposit_sum(deltas, key),
    decreases deltas.len(),
{
    if deltas.len() > 0 {
        lemma_deposit_sum_grows(deltas.drop_last(), key);
    }
}

/// The sums of the withdrawals are not positive, and fall with the list.
pub proof fn lemma_withdrawal_sum_falls(deltas: Seq<(ResourceKey, int)>, key: ResourceKey)
    ensures
        withdrawal_sum(deltas, key) <= 0,
        deltas.len() > 0 ==> withdrawal_sum(deltas, key) <= withdrawal_sum(deltas.drop_last(), key),
    decreases deltas.len(),
{
    if deltas.len() > 0 {
        lemma_withdrawal_sum_falls(deltas.drop_last(), key);
    }
}

/// The deposits all succeed exactly if no balance grows beyond the greatest
/// amount; each balance has then grown by the sum of its deposits.
pub proof fn lemma_deposits_sum(balances: Balances, deltas: Seq<(ResourceKey, int)>)
    requires
        balances_wf(balances),
    ensures
        deposits_applied(balances, deltas).error is None <==> forall|key: ResourceKey|
            balance(balances, key) + #[trigger] deposit_sum(deltas, key) <= i64::MAX,
        deposits_applied(balances, deltas).error is None ==> forall|key: ResourceKey|
            #[trigger] balance(deposits_applied(balances, deltas).balances, key) == balance(
                balances,
                key,
            ) + deposit_sum(deltas, key),
        balances_wf(deposits_applied(balances, deltas).balances),
    decreases deltas.len(),
{
    if deltas.len() > 0 {
        let front = deltas.drop_last();
        let (k, d) = deltas.last();
        let before = deposits_applied(balances, front);
        let after = deposits_applied(balances, deltas);
        lemma_deposits_sum(balances, front);
        assert forall|key: ResourceKey|
            deposit_sum(front, key) <= #[trigger] deposit_sum(deltas, key) by {
            lemma_deposit_sum_grows(deltas, key);
        }
        if after.error is None {
            assert(before.error is None);
            assert forall|key: ResourceKey| balance(balances, key) + #[trigger] deposit_sum(
                deltas,
                key,
            ) <= i64::MAX by {
                assert(balance(before.balances, key) == balance(balances, key) + deposit_sum(
                    front,
                    key,
                ));
                assert(balance(balances, key) + deposit_sum(front, key) <= i64::MAX);
            }
            assert forall|key: ResourceKey| #[trigger] balance(after.balances, key) == balance(
                balances,
                key,
            ) + deposit_sum(deltas, key) by {
                assert(balance(before.balances, key) == balance(balances, key) + deposit_sum(
                    front,
                    key,
                ));
            }
        }
        if forall|key: ResourceKey|
            balance(balances, key) + #[trigger] deposit_sum(deltas, key) <= i64::MAX {
            assert forall|key: ResourceKey| balance(balances, key) + #[trigger] deposit_sum(
                front,
                key,
            ) <= i64::MAX by {
                assert(deposit_sum(front, key) <= deposit_sum(deltas, key));
            }
            assert(before.error is None);
            assert(balance(before.balances, k) == balance(balances, k) + deposit_sum(front, k));
            assert(balance(balances, k) + deposit_sum(deltas, k) <= i64::MAX);
            assert(after.error is None);
        }
        assert forall|key: ResourceKey| after.balances.contains_key(key) implies 0
            < #[trigger] after.balances[key] <= i64::MAX by {
            if before.balances.contains_key(key) {
                assert(0 < before.balances[key] <= i64::MAX);
            }
        }
    } else {
        assert forall|key: ResourceKey| balance(balances, key) + #[trigger] deposit_sum(
            deltas,
            key,
        ) <= i64::MAX by {
            if balances.contains_key(key) {
                assert(balances[key] > 0);
            }
        }
    }
}

/// The withdrawals all succeed exactly if no balance falls below 0; each
/// balance has then fallen by the sum of its withdrawals.
pub proof fn lemma_withdrawals_sum(balances: Balances, deltas: Seq<(ResourceKey, int)>)
    requires
        balances_wf(balances),
    ensures
        withdrawals_applied(balances, deltas).error is None <==> forall|key: ResourceKey|
            balance(balances, key) + #[trigger] withdrawal_sum(deltas, key) >= 0,
        withdrawals_applied(balances, deltas).error is None ==> forall|key: ResourceKey|
            #[trigger] balance(withdrawals_applied(balances, deltas).balances, key) == balance(
                balances,
                key,
            ) + withdrawal_sum(deltas, key),
        balances_wf(withdrawals_applied(balances, deltas).balances),
    decreases deltas.len(),
{
    if deltas.len() > 0 {
        let front = deltas.drop_last();
        let (k, d) = deltas.last();
        let before = withdrawals_applied(balances, front);
        let after = withdrawals_applied(balances, deltas);
        lemma_withdrawals_sum(balances, front);
        assert forall|key: ResourceKey|
            #[trigger] withdrawal_sum(deltas, key) <= withdrawal_sum(front, key) by {
            lemma_withdrawal_sum_falls(deltas, key);
        }
        if after.error is None {
            assert(before.error is None);
            assert forall|key: ResourceKey| balance(balances, key) + #[trigger] withdrawal_sum(
                deltas,
                key,
            ) >= 0 by {
                assert(balance(before.balances, key) == balance(balances, key) + withdrawal_sum(
                    front,
                    key,
                ));
                assert(balance(balances, key) + withdrawal_sum(front, key) >= 0);
            }
            assert forall|key: ResourceKey| #[trigger] balance(after.balances, key) == balance(
                balances,
                key,
            ) + withdrawal_sum(deltas, key) by {
                assert(balance(before.balances, key) == balance(balances, key) + withdrawal_sum(
                    front,
                    key,
                ));
            }
        }
        if forall|key: ResourceKey|
            balance(balances, key) + #[trigger] withdrawal_sum(deltas, key) >= 0 {
            assert forall|key: ResourceKey| balance(balances, key) + #[trigger] withdrawal_sum(
                front,
                key,
            ) >= 0 by {
                assert(withdrawal_sum(deltas, key) <= withdrawal_sum(front, key));
            }
            assert(before.error is None);
            assert(balance(before.balances, k) == balance(balances, k) + withdrawal_sum(front, k));
            assert(balance(balances, k) + withdrawal_sum(deltas, k) >= 0);
            if d < 0 {
                assert(deltas.last().0 == k && deltas.last().1 == d);
                assert(withdrawal_sum(deltas, k) == withdrawal_sum(front, k) + d);
                assert(balance(before.balances, k) + d >= 0);
                assert(before.balances.contains_key(k));
                assert(after == withdrawn(before.balances, k, d));
            }
            assert(after.error is None);
        }
        assert forall|key: ResourceKey| after.balances.contains_key(key) implies 0
            < #[trigger] after.balances[key] <= i64::MAX by {
            if before.balances.contains_key(key) {
                assert(0 < before.balances[key] <= i64::MAX);
            }
        }
    } else {
        assert forall|key: ResourceKey| balance(balances, key) + #[trigger] withdrawal_sum(
            deltas,
            key,
        ) >= 0 by {
            if balances.contains_key(key) {
                assert(balances[key] > 0);
            }
        }
    }
}

/// An update succeeds exactly if, for every resource, the balance together
/// with the deposits fits and the balance together with all the amounts is
/// not negative. Each balance is then the old one plus the sum of its
/// amounts, and a resource whose sum reaches 0 has no row.
pub proof fn lemma_update_balance_sum(balances: Balances, deltas: Seq<(ResourceKey, int)>)
    requires
        balances_wf(balances),
    ensures
        balances_updated(balances, deltas).error is None <==> (forall|key: ResourceKey|
            balance(balances, key) + #[trigger] deposit_sum(deltas, key) <= i64::MAX)
            && (forall|key: ResourceKey|
            balance(balances, key) + #[trigger] delta_sum(deltas, key) >= 0),
        balances_updated(balances, deltas).error is None ==> forall|key: ResourceKey|
            #[trigger] balance(balances_updated(balances, deltas).balances, key) == balance(
                balances,
                key,
            ) + delta_sum(deltas, key),
        balances_updated(balances, deltas).error is None ==> forall|key: ResourceKey|
            #[trigger] balances_updated(balances, deltas).balances.contains_key(key) <==> balance(
                balances,
                key,
            ) + delta_sum(deltas, key) > 0,
        balances_wf(balances_updated(balances, deltas).balances),
{
    lemma_deposits_sum(balances, deltas);
    let middle = deposits_applied(balances, deltas);
    lemma_withdrawals_sum(middle.balances, deltas);
    let after = balances_updated(balances, deltas);
    if middle.error is None {
        assert forall|key: ResourceKey|
            balance(middle.balances, key) + withdrawal_sum(deltas, key) == balance(balances, key)
                + #[trigger] delta_sum(deltas, key) by {
            assert(balance(middle.balances, key) == balance(balances, key) + deposit_sum(
                deltas,
                key,
            ));
        }
        if after.error is None {
            assert forall|key: ResourceKey| balance(balances, key) + #[trigger] delta_sum(
                deltas,
                key,
            ) >= 0 by {
                assert(balance(middle.balances, key) + withdrawal_sum(deltas, key) >= 0);
            }
            assert forall|key: ResourceKey| #[trigger] balance(after.balances, key) == balance(
                balances,
                key,
            ) + delta_sum(deltas, key) by {
                assert(balance(after.balances, key) == balance(middle.balances, key)
                    + withdrawal_sum(deltas, key));
                assert(balance(middle.balances, key) == balance(balances, key) + deposit_sum(
                    deltas,
                    key,
                ));
            }
            assert forall|key: ResourceKey| #[trigger] after.balances.contains_key(key) <==> balance(
                balances,
                key,
            ) + delta_sum(deltas, key) > 0 by {
                assert(balance(after.balances, key) == balance(balances, key) + delta_sum(
                    deltas,
                    key,
                ));
                if after.balances.contains_key(key) {
                    assert(after.balances[key] > 0);
                }
            }
        }
        if forall|key: ResourceKey| balance(balances, key) + #[trigger] delta_sum(deltas, key) >= 0 {
            assert forall|key: ResourceKey| balance(middle.balances, key)
                + #[trigger] withdrawal_sum(deltas, key) >= 0 by {
                assert(balance(balances, key) + delta_sum(deltas, key) >= 0);
                assert(balance(middle.balances, key) == balance(balances, key) + deposit_sum(
                    deltas,
                    key,
                ));
            }
        }
    }
}

/// Fetching one resource gives its balance, and nothing for a resource without a row.
pub proof fn lemma_fetch_one(balances: Balances, id: ResourceId)
    ensures
        balances_fetched(balances, seq![id]) == if balances.contains_key(id@) {
            seq![(id, balances[id@] as AssetValue)]
        } else {
            Seq::empty()
        },
{
    let one = seq![id];
    assert(one.drop_last() == Seq::<ResourceId>::empty());
    assert(one.last() == id);
    assert(balances_fetched(balances, Seq::<ResourceId>::empty()) == Seq::<
        (ResourceId, AssetValue),
    >::empty());
    assert(!key_named(Seq::<ResourceId>::empty(), id@));
    if balances.contains_key(id@) {
        assert(balances_fetched(balances, one) =~= seq![(id, balances[id@] as AssetValue)]);
    }
}

/// Some entry of `fetched` speaks of the balance under `key`.
pub open spec fn fetched_names(fetched: Seq<(ResourceId, AssetValue)>, key: ResourceKey) -> bool {
    exists|i: int| 0 <= i < fetched.len() && (#[trigger] fetched[i]).0@ == key
}

/// The entries of `balances_fetched` are a map: a key has an entry exactly
/// if it is asked for and has a balance, it has one entry, and the entry is
/// its balance.
pub proof fn lemma_fetched_is_a_map(balances: Balances, ids: Seq<ResourceId>)
    requires
        balances_wf(balances),
    ensures
        forall|i: int, j: int|
            0 <= i < j < balances_fetched(balances, ids).len() ==> balances_fetched(
                balances,
                ids,
            )[i].0@ != balances_fetched(balances, ids)[j].0@,
        forall|i: int|
            0 <= i < balances_fetched(balances, ids).len() ==> balances.contains_key(
                (#[trigger] balances_fetched(balances, ids)[i]).0@,
            ) && balances_fetched(balances, ids)[i].1 == balances[balances_fetched(
                balances,
                ids,
            )[i].0@] && balances_fetched(balances, ids)[i].1 > 0,
        forall|key: ResourceKey|
            #[trigger] fetched_names(balances_fetched(balances, ids), key) <==> key_named(ids, key)
                && balances.contains_key(key),
    decreases ids.len(),
{
    let fetched = balances_fetched(balances, ids);
    if ids.len() > 0 {
        let front_ids = ids.drop_last();
        let last = ids.last();
        let front = balances_fetched(balances, front_ids);
        lemma_fetched_is_a_map(balances, front_ids);
        assert forall|key: ResourceKey| key_named(ids, key) <==> key_named(front_ids, key) || key
            == last@ by {
            if key_named(front_ids, key) {
                let i = choose|i: int| 0 <= i < front_ids.len() && (#[trigger] front_ids[i])@ == key;
                assert(ids[i] == front_ids[i]);
            }
            if key == last@ {
                assert(ids[ids.len() - 1]@ == key);
            }
            if key_named(ids, key) {
                let i = choose|i: int| 0 <= i < ids.len() && (#[trigger] ids[i])@ == key;
                if i < front_ids.len() {
                    assert(front_ids[i] == ids[i]);
                }
            }
        }
        assert forall|i: int, j: int| 0 <= i < j < fetched.len() implies fetched[i].0@
            != fetched[j].0@ by {
            if j < front.len() {
                assert(fetched[i] == front[i] && fetched[j] == front[j]);
            } else {
                assert(fetched[i] == front[i]);
                if front[i].0@ == last@ {
                    assert(fetched_names(front, last@));
                }
            }
        }
        assert forall|i: int| 0 <= i < fetched.len() implies balances.contains_key(
            (#[trigger] fetched[i]).0@,
        ) && fetched[i].1 == balances[fetched[i].0@] && fetched[i].1 > 0 by {
            if i < front.len() {
                assert(fetched[i] == front[i]);
            } else {
                assert(0 < balances[last@] <= i64::MAX);
            }
        }
        assert forall|key: ResourceKey| #[trigger] fetched_names(fetched, key) <==> key_named(
            ids,
            key,
        ) && balances.contains_key(key) by {
            if fetched_names(fetched, key) {
                let i = choose|i: int| 0 <= i < fetched.len() && (#[trigger] fetched[i]).0@ == key;
                if i < front.len() {
                    assert(front[i] == fetched[i]);
                    assert(fetched_names(front, key));
                }
            }
            if key_named(ids, key) && balances.contains_key(key) {
                if fetched_names(front, key) {
                    let i = choose|i: int| 0 <= i < front.len() && (#[trigger] front[i]).0@ == key;
                    assert(fetched[i] == front[i]);
                } else {
                    assert(key == last@);
                    assert(fetched[front.len() as int].0@ == key);
                }
            }
        }
    } else {
        assert forall|key: ResourceKey| #[trigger] fetched_names(fetched, key) <==> key_named(
            ids,
            key,
        ) && balances.contains_key(key) by {}
    }
}

/// The table "resources".
pub struct ResourcesTable {
    rows: Vec<Resource>,
}

impl View for ResourcesTable {
    type V = Balances;

    closed spec fn view(&self) -> Balances {
        rows_balances(self.rows@)
    }
}

impl ResourcesTable {
    /// The constraints of the table hold.
    pub closed spec fn wf(&self) -> bool {
        rows_wf(self.rows@)
    }

    /// In a table that meets its constraints every balance is positive.
    pub proof fn lemma_positive(&self)
        requires
            self.wf(),
        ensures
            balances_wf(self@),
    {
        lemma_rows_balances_wf(self.rows@);
    }

    /// An empty table.
    pub fn new() -> (t: Self)
        ensures
            t.wf(),
            t@ == Map::<ResourceKey, int>::empty(),
    {
        let t = ResourcesTable { rows: Vec::new() };
        assert(t@ =~= Map::<ResourceKey, int>::empty());
        t
    }

    /// A copy of the table.
    pub fn copy(&self) -> (t: Self)
        ensures
            t@ == self@,
            self.wf() ==> t.wf(),
    {
        let mut rows: Vec<Resource> = Vec::new();
        let mut i: usize = 0;
        while i < self.rows.len()
            invariant
                i <= self.rows@.len(),
                rows@ == self.rows@.take(i as int),
            decreases self.rows@.len() - i,
        {
            rows.push(self.rows[i]);
            assert(rows@ =~= self.rows@.take(i + 1));
            i = i + 1;
        }
        assert(self.rows@.take(i as int) =~= self.rows@);
        ResourcesTable { rows }
    }

    /// The position of the row under `id`.
    fn position(&self, id: &ResourceId) -> (r: Option<usize>)
        ensures
            match r {
                Some(j) => j < self.rows@.len() && self.rows@[j as int].id_@ == id@,
                None => forall|i: int| 0 <= i < self.rows@.len() ==> (#[trigger] self.rows@[i]).id_@ != id@,
            },
    {
        let mut i: usize = 0;
        while i < self.rows.len()
            invariant
                i <= self.rows@.len(),
                forall|j: int| 0 <= j < i ==> (#[trigger] self.rows@[j]).id_@ != id@,
            decreases self.rows@.len() - i,
        {
            if self.rows[i].id_.same(id) {
                return Some(i);
            }
            i = i + 1;
        }
        None
    }

    /// The balance under `id`, if there is one.
    pub fn get(&self, id: &ResourceId) -> (r: Option<AssetValue>)
        requires
            self.wf(),
        ensures
            r is Some <==> self@.contains_key(id@),
            r is Some ==> r->Some_0 == self@[id@],
    {
        proof {
            lemma_rows_balance(self.rows@, id@);
        }
        match self.position(id) {
            Some(j) => Some(self.rows[j].value_),
            None => None,
        }
    }

    /// Adds `amount` to the balance under `id`.
    pub fn deposit(&mut self, id: &ResourceId, amount: AssetValue) -> (r: Result<(), Error>)
        requires
            old(self).wf(),
            0 < amount,
        ensures
            final(self).wf(),
            final(self)@ == deposited(old(self)@, id@, amount as int).balances,
            match r {
                Ok(_) => deposited(old(self)@, id@, amount as int).error is None,
                Err(e) => deposited(old(self)@, id@, amount as int).error == Some(e.code),
            },
    {
        let ghost before = self.rows@;
        proof {
            lemma_rows_balance(before, id@);
        }
        match self.position(id) {
            Some(j) => {
                let held = self.rows[j].value_;
                if held > i64::MAX - amount {
                    return Err(Error::new(SQLITE_TOOBIG));
                }
                self.rows.set(j, Resource { id_: self.rows[j].id_, value_: held + amount });
                proof {
                    let after = self.rows@;
                    assert forall|a: int, b: int| 0 <= a < b < after.len() implies after[a].id_@
                        != after[b].id_@ by {
                        assert(before[a].id_@ != before[b].id_@);
                    }
                    assert forall|a: int| 0 <= a < after.len() implies (#[trigger] after[a]).value_
                        > 0 by {
                        assert(before[a].value_ > 0);
                    }
                    assert forall|key: ResourceKey| rows_balance(after, key) == if key == id@ {
                        held + amount
                    } else {
                        rows_balance(before, key)
                    } by {
                        lemma_rows_balance(before, key);
                        lemma_rows_balance(after, key);
                        if key == id@ {
                            assert(after[j as int].id_@ == key);
                        } else {
                            if exists|i: int| 0 <= i < before.len() && (#[trigger] before[i]).id_@ == key {
                                let i = choose|i: int|
                                    0 <= i < before.len() && (#[trigger] before[i]).id_@ == key;
                                assert(after[i].id_@ == key);
                                assert(after[i] == before[i]);
                            } else {
                                assert forall|i: int| 0 <= i < after.len() implies (#[trigger] after[i]).id_@
                                    != key by {
                                    assert(before[i].id_@ != key);
                                }
                            }
                        }
                    }
                    assert(self@ =~= deposited(old(self)@, id@, amount as int).balances);
                }
                Ok(())
            },
            None => {
                self.rows.push(Resource { id_: *id, value_: amount });
                proof {
                    let after = self.rows@;
                    assert(after.drop_last() == before);
                    assert forall|a: int, b: int| 0 <= a < b < after.len() implies after[a].id_@
                        != after[b].id_@ by {
                        assert(after[a] == before[a]);
                        if b < before.len() {
                            assert(after[b] == before[b]);
                        }
                    }
                    assert forall|a: int| 0 <= a < after.len() implies (#[trigger] after[a]).value_
                        > 0 by {
                        if a < before.len() {
                            assert(after[a] == before[a]);
                        }
                    }
                    assert(self@ =~= deposited(old(self)@, id@, amount as int).balances);
                }
                Ok(())
            },
        }
    }

    /// Takes `-amount` from the balance under `id`.
    pub fn withdraw(&mut self, id: &ResourceId, amount: AssetValue) -> (r: Result<(), Error>)
        requires
            old(self).wf(),
            amount < 0,
        ensures
            final(self).wf(),
            final(self)@ == withdrawn(old(self)@, id@, amount as int).balances,
            match r {
                Ok(_) => withdrawn(old(self)@, id@, amount as int).error is None,
                Err(e) => withdrawn(old(self)@, id@, amount as int).error == Some(e.code),
            },
    {
        let ghost before = self.rows@;
        proof {
            lemma_rows_balance(before, id@);
        }
        match self.position(id) {
            None => Err(Error::new(SQLITE_CONSTRAINT_CHECK)),
            Some(j) => {
                let held = self.rows[j].value_;
                assert(before[j as int].value_ > 0);
                let left = held + amount;
                if left < 0 {
                    return Err(Error::new(SQLITE_CONSTRAINT));
                }
                if left == 0 {
                    self.rows.swap_remove(j);
                    proof {
                        let after = self.rows@;
                        let last = before.len() - 1;
                        assert forall|a: int| 0 <= a < after.len() implies (#[trigger] after[a])
                            == before[if a == j { last } else { a }] by {}
                        assert forall|a: int, b: int| 0 <= a < b < after.len() implies after[a].id_@
                            != after[b].id_@ by {
                            let a0 = if a == j { last } else { a };
                            let b0 = if b == j { last } else { b };
                            assert(after[a] == before[a0] && after[b] == before[b0]);
                            if a0 < b0 {
                                assert(before[a0].id_@ != before[b0].id_@);
                            } else {
                                assert(before[b0].id_@ != before[a0].id_@);
                            }
                        }
                        assert forall|a: int| 0 <= a < after.len() implies (#[trigger] after[a]).value_
                            > 0 by {
                            assert(before[if a == j { last } else { a }].value_ > 0);
                        }
                        assert forall|key: ResourceKey| rows_balance(after, key) == if key == id@ {
                            0
                        } else {
                            rows_balance(before, key)
                        } by {
                            lemma_rows_balance(before, key);
                            lemma_rows_balance(after, key);
                            if key == id@ {
                                assert forall|i: int| 0 <= i < after.len() implies (#[trigger] after[i]).id_@
                                    != key by {
                                    let i0 = if i == j { last } else { i };
                                    assert(after[i] == before[i0]);
                                    if i0 < j {
                                        assert(before[i0].id_@ != before[j as int].id_@);
                                    } else {
                                        assert(before[j as int].id_@ != before[i0].id_@);
                                    }
                                }
                            } else {
                                if exists|i: int| 0 <= i < before.len() && (#[trigger] before[i]).id_@ == key {
                                    let i = choose|i: int|
                                        0 <= i < before.len() && (#[trigger] before[i]).id_@ == key;
                                    let i1 = if i == last { j as int } else { i };
                                    assert(after[i1] == before[i]);
                                    assert(after[i1].id_@ == key);
                                } else {
                                    assert forall|i: int| 0 <= i < after.len() implies (#[trigger] after[i]).id_@
                                        != key by {
                                        let i0 = if i == j { last } else { i };
                                        assert(after[i] == before[i0]);
                                        assert(before[i0].id_@ != key);
                                    }
                                }
                            }
                        }
                        assert(self@ =~= withdrawn(old(self)@, id@, amount as int).balances);
                    }
                } else {
                    self.rows.set(j, Resource { id_: self.rows[j].id_, value_: left });
                    proof {
                        let after = self.rows@;
                        assert forall|a: int, b: int| 0 <= a < b < after.len() implies after[a].id_@
                            != after[b].id_@ by {
                            assert(before[a].id_@ != before[b].id_@);
                        }
                        assert forall|a: int| 0 <= a < after.len() implies (#[trigger] after[a]).value_
                            > 0 by {
                            assert(before[a].value_ > 0);
                        }
                        assert forall|key: ResourceKey| rows_balance(after, key) == if key == id@ {
                            left as int
                        } else {
                            rows_balance(before, key)
                        } by {
                            lemma_rows_balance(before, key);
                            lemma_rows_balance(after, key);
                            if key == id@ {
                                assert(after[j as int].id_@ == key);
                            } else {
                                if exists|i: int| 0 <= i < before.len() && (#[trigger] before[i]).id_@ == key {
                                    let i = choose|i: int|
                                        0 <= i < before.len() && (#[trigger] before[i]).id_@ == key;
                                    assert(after[i].id_@ == key);
                                    assert(after[i] == before[i]);
                                } else {
                                    assert forall|i: int| 0 <= i < after.len() implies (#[trigger] after[i]).id_@
                                        != key by {
                                        assert(before[i].id_@ != key);
                                    }
                                }
                            }
                        }
                        assert(self@ =~= withdrawn(old(self)@, id@, amount as int).balances);
                    }
                }
                Ok(())
            },
        }
    }

    /// Applies `deltas`: first every deposit, in order, then every withdrawal,
    /// in order. It stops at the first statement that fails; what was done
    /// before stays done.
    pub fn update_balance(&mut self, deltas: &[(ResourceId, AssetValue)]) -> (r: Result<(), Error>)
        requires
            old(self).wf(),
        ensures
            final(self).wf(),
            final(self)@ == balances_updated(old(self)@, deltas_view(deltas@)).balances,
            match r {
                Ok(_) => balances_updated(old(self)@, deltas_view(deltas@)).error is None,
                Err(e) => balances_updated(old(self)@, deltas_view(deltas@)).error == Some(e.code),
            },
    {
        let ghost start = self@;
        let ghost all = deltas_view(deltas@);
        let mut k: usize = 0;
        while k < deltas.len()
            invariant
                k <= deltas@.len(),
                self.wf(),
                start == old(self)@,
                all == deltas_view(deltas@),
                deposits_applied(start, all.take(k as int)) == (BalanceOutcome {
                    balances: self@,
                    error: None,
                }),
            decreases deltas@.len() - k,
        {
            proof {
                assert(all.take(k + 1).drop_last() == all.take(k as int));
                assert(all.take(k + 1).last() == all[k as int]);
            }
            if deltas[k].1 > 0 {
                match self.deposit(&deltas[k].0, deltas[k].1) {
                    Ok(_) => {},
                    Err(e) => {
                        proof {
                            lemma_deposits_stop(start, all, k + 1);
                            let stopped = deposits_applied(start, all.take(k + 1));
                            assert(stopped.error == Some(e.code));
                            assert(stopped.balances == self@);
                            assert(deposits_applied(start, all) == stopped);
                            assert(balances_updated(start, all) == stopped);
                        }
                        return Err(e);
                    },
                }
            }
            k = k + 1;
        }
        assert(all.take(k as int) == all);
        let ghost middle = self@;
        let mut k: usize = 0;
        while k < deltas.len()
            invariant
                k <= deltas@.len(),
                self.wf(),
                start == old(self)@,
                all == deltas_view(deltas@),
                deposits_applied(start, all) == (BalanceOutcome { balances: middle, error: None }),
                withdrawals_applied(middle, all.take(k as int)) == (BalanceOutcome {
                    balances: self@,
                    error: None,
                }),
            decreases deltas@.len() - k,
        {
            proof {
                assert(all.take(k + 1).drop_last() == all.take(k as int));
                assert(all.take(k + 1).last() == all[k as int]);
            }
            if deltas[k].1 < 0 {
                match self.withdraw(&deltas[k].0, deltas[k].1) {
                    Ok(_) => {},
                    Err(e) => {
                        proof {
                            lemma_withdrawals_stop(middle, all, k + 1);
                            let stopped = withdrawals_applied(middle, all.take(k + 1));
                            assert(stopped.error == Some(e.code));
                            assert(stopped.balances == self@);
                            assert(withdrawals_applied(middle, all) == stopped);
                            assert(balances_updated(start, all) == stopped);
                        }
                        return Err(e);
                    },
                }
            }
            k = k + 1;
        }
        assert(all.take(k as int) == all);
        Ok(())
    }

    /// The balances under `ids`.
    pub fn fetch(&self, ids: &[ResourceId]) -> (r: Vec<(ResourceId, AssetValue)>)
        requires
            self.wf(),
        ensures
            r@ == balances_fetched(self@, ids@),
    {
        let mut found: Vec<(ResourceId, AssetValue)> = Vec::new();
        let mut k: usize = 0;
        while k < ids.len()
            invariant
                k <= ids@.len(),
                self.wf(),
                found@ == balances_fetched(self@, ids@.take(k as int)),
            decreases ids@.len() - k,
        {
            proof {
                assert(ids@.take(k + 1).drop_last() == ids@.take(k as int));
                assert(ids@.take(k + 1).last() == ids@[k as int]);
            }
            if !Self::named_before(ids, k) {
                match self.get(&ids[k]) {
                    Some(value) => {
                        found.push((ids[k], value));
                    },
                    None => {},
                }
            }
            k = k + 1;
        }
        assert(ids@.take(k as int) =~= ids@);
        found
    }

    /// Whether the key of `ids[k]` is named in `ids` before the position `k` too.
    fn named_before(ids: &[ResourceId], k: usize) -> (r: bool)
        requires
            k < ids@.len(),
        ensures
            r == key_named(ids@.take(k as int), ids@[k as int]@),
    {
        let mut i: usize = 0;
        while i < k
            invariant
                i <= k < ids@.len(),
                forall|j: int| 0 <= j < i ==> (#[trigger] ids@[j])@ != ids@[k as int]@,
            decreases k - i,
        {
            if ids[i].same(&ids[k]) {
                assert(ids@.take(k as int)[i as int]@ == ids@[k as int]@);
                return true;
            }
            i = i + 1;
        }
        assert forall|j: int| 0 <= j < ids@.take(k as int).len() implies (#[trigger] ids@.take(
            k as int,
        )[j])@ != ids@[k as int]@ by {
            assert(ids@.take(k as int)[j] == ids@[j]);
        }
        false
    }
}

} // verus!
