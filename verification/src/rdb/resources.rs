//! The operations on the table "resources".

use super::connection::TablesView;
use super::error::{Error, SQLITE_ERROR};
use super::resource_table::{
    balances_fetched, balances_updated, deltas_view, Balances, ResourcesTable,
};
use super::session::{Master, Slave};
use crate::data_types::{AssetValue, ResourceId};
use vstd::prelude::*;

verus! {

/// The tables with `balances` as the table "resources".
pub open spec fn with_resources(tables: TablesView, balances: Balances) -> TablesView {
    TablesView { main_chain: tables.main_chain, acids: tables.acids, resources: Some(balances) }
}

/// Creates the table "resources", empty, unless it exists.
pub fn create_table<S: Master>(session: &mut S) -> (r: Result<(), Error>)
    requires
        old(session).wf(),
    ensures
        r is Ok,
        final(session).wf(),
        final(session).saved() == old(session).saved(),
        final(session).tables() == with_resources(
            old(session).tables(),
            match old(session).tables().resources {
                Some(balances) => balances,
                None => Map::empty(),
            },
        ),
{
    let con = session.connection_mut();
    if con.resources.is_none() {
        con.resources = Some(ResourcesTable::new());
    }
    Ok(())
}

/// Adds each amount of `balances` to the balance of its resource: the
/// positive amounts first, then the negative ones. A negative amount that
/// finds no balance, or more than the balance holds, fails; the update stops
/// there, and the statements before it stay done.
pub fn update_balance<S: Master>(balances: &[(ResourceId, AssetValue)], session: &mut S) -> (r:
    Result<(), Error>)
    requires
        old(session).wf(),
    ensures
        final(session).wf(),
        final(session).saved() == old(session).saved(),
        match old(session).tables().resources {
            None => r == Err::<(), Error>(Error { code: SQLITE_ERROR }) && final(session).tables()
                == old(session).tables(),
            Some(held) => {
                &&& final(session).tables() == with_resources(
                    old(session).tables(),
                    balances_updated(held, deltas_view(balances@)).balances,
                )
                &&& match r {
                    Ok(_) => balances_updated(held, deltas_view(balances@)).error is None,
                    Err(e) => balances_updated(held, deltas_view(balances@)).error == Some(e.code),
                }
            },
        },
{
    let con = session.connection_mut();
    match &mut con.resources {
        None => Err(Error::new(SQLITE_ERROR)),
        Some(table) => table.update_balance(balances),
    }
}

/// The balance of each resource of `resource_ids` that has one.
pub fn fetch<S: Slave>(resource_ids: &[ResourceId], session: &S) -> (r: Result<
    Vec<(ResourceId, AssetValue)>,
    Error,
>)
    requires
        session.wf(),
    ensures
        match session.tables().resources {
            None => r is Err && r->Err_0.code == SQLITE_ERROR,
            Some(held) => r is Ok && r->Ok_0@ == balances_fetched(held, resource_ids@),
        },
{
    match &session.connection().resources {
        None => Err(Error::new(SQLITE_ERROR)),
        Some(table) => Ok(table.fetch(resource_ids)),
    }
}

} // verus!
