//! The operations on the table "main_chain".

use super::chain_table::{
    chain_asc, chain_desc, chain_fetched, chain_has_height, chain_has_id, chain_id_at,
    chain_popped, chain_pushed, MainChainTable,
};
use super::connection::TablesView;
use super::error::{Error, SQLITE_CONSTRAINT, SQLITE_ERROR};
use super::session::{Master, Slave};
use crate::data_types::{BlockHeight, ChainIndex, Id};
use std::collections::BTreeMap;
use vstd::prelude::*;

verus! {

/// The tables with `rows` as the table "main_chain".
pub open spec fn with_main_chain(tables: TablesView, rows: Seq<ChainIndex>) -> TablesView {
    TablesView { main_chain: Some(rows), acids: tables.acids, resources: tables.resources }
}

/// Creates the table "main_chain", empty, unless it exists.
pub fn create_table<S: Master>(session: &mut S) -> (r: Result<(), Error>)
    requires
        old(session).wf(),
    ensures
        r is Ok,
        final(session).wf(),
        final(session).saved() == old(session).saved(),
        final(session).tables() == with_main_chain(
            old(session).tables(),
            match old(session).tables().main_chain {
                Some(rows) => rows,
                None => Seq::empty(),
            },
        ),
{
    let con = session.connection_mut();
    if con.main_chain.is_none() {
        con.main_chain = Some(MainChainTable::new());
    }
    Ok(())
}

/// Inserts `chain_index` into "main_chain". A height or an id that the table
/// holds already is rejected, and the table stays as it was.
pub fn push<S: Master>(chain_index: &ChainIndex, session: &mut S) -> (r: Result<(), Error>)
    requires
        old(session).wf(),
    ensures
        final(session).wf(),
        final(session).saved() == old(session).saved(),
        match old(session).tables().main_chain {
            None => r == Err::<(), Error>(Error { code: SQLITE_ERROR }) && final(session).tables()
                == old(session).tables(),
            Some(rows) => {
                &&& r is Ok <==> !chain_has_height(rows, chain_index.height() as int)
                    && !chain_has_id(rows, chain_index.spec_id())
                &&& r is Ok ==> final(session).tables() == with_main_chain(
                    old(session).tables(),
                    chain_pushed(rows, *chain_index),
                )
                &&& r is Err ==> r->Err_0.code == SQLITE_CONSTRAINT && final(session).tables()
                    == old(session).tables()
            },
        },
{
    let con = session.connection_mut();
    match &mut con.main_chain {
        None => Err(Error::new(SQLITE_ERROR)),
        Some(table) => table.push(chain_index),
    }
}

/// Deletes the row of the greatest height from "main_chain", if the table has a row.
pub fn pop<S: Master>(session: &mut S) -> (r: Result<(), Error>)
    requires
        old(session).wf(),
    ensures
        final(session).wf(),
        final(session).saved() == old(session).saved(),
        match old(session).tables().main_chain {
            None => r == Err::<(), Error>(Error { code: SQLITE_ERROR }) && final(session).tables()
                == old(session).tables(),
            Some(rows) => r is Ok && final(session).tables() == with_main_chain(
                old(session).tables(),
                chain_popped(rows),
            ),
        },
{
    let con = session.connection_mut();
    match &mut con.main_chain {
        None => Err(Error::new(SQLITE_ERROR)),
        Some(table) => {
            table.pop();
            Ok(())
        },
    }
}

/// The rows of "main_chain" at the heights `heights`, as a map from the height to the id.
pub fn fetch<S: Slave>(heights: &[BlockHeight], session: &S) -> (r: Result<
    BTreeMap<BlockHeight, Id>,
    Error,
>)
    requires
        session.wf(),
    ensures
        match session.tables().main_chain {
            None => r is Err && r->Err_0.code == SQLITE_ERROR,
            Some(rows) => r is Ok && r->Ok_0@ == chain_fetched(rows, heights@),
        },
{
    match &session.connection().main_chain {
        None => Err(Error::new(SQLITE_ERROR)),
        Some(table) => Ok(table.fetch(heights)),
    }
}

/// The id of the row of "main_chain" at `height`, if there is one.
pub fn fetch_one<S: Slave>(height: BlockHeight, session: &S) -> (r: Result<Option<Id>, Error>)
    requires
        session.wf(),
    ensures
        match session.tables().main_chain {
            None => r is Err && r->Err_0.code == SQLITE_ERROR,
            Some(rows) => r == Ok::<Option<Id>, Error>(chain_id_at(rows, height as int)),
        },
{
    match &session.connection().main_chain {
        None => Err(Error::new(SQLITE_ERROR)),
        Some(table) => Ok(table.fetch_one(height)),
    }
}

/// At most `limit` rows of "main_chain" whose height is at least `min_height`, lowest first.
pub fn fetch_asc<S: Slave>(min_height: BlockHeight, limit: u32, session: &S) -> (r: Result<
    Vec<ChainIndex>,
    Error,
>)
    requires
        session.wf(),
    ensures
        match session.tables().main_chain {
            None => r is Err && r->Err_0.code == SQLITE_ERROR,
            Some(rows) => r is Ok && r->Ok_0@ == chain_asc(rows, min_height as int, limit as nat),
        },
{
    match &session.connection().main_chain {
        None => Err(Error::new(SQLITE_ERROR)),
        Some(table) => Ok(table.fetch_asc(min_height, limit)),
    }
}

/// At most `limit` rows of "main_chain" whose height is at most `max_height`, highest first.
pub fn fetch_desc<S: Slave>(max_height: BlockHeight, limit: u32, session: &S) -> (r: Result<
    Vec<ChainIndex>,
    Error,
>)
    requires
        session.wf(),
    ensures
        match session.tables().main_chain {
            None => r is Err && r->Err_0.code == SQLITE_ERROR,
            Some(rows) => r is Ok && r->Ok_0@ == chain_desc(rows, max_height as int, limit as nat),
        },
{
    match &session.connection().main_chain {
        None => Err(Error::new(SQLITE_ERROR)),
        Some(table) => Ok(table.fetch_desc(max_height, limit)),
    }
}

} // verus!
