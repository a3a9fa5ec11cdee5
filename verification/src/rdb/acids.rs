//! The operations on the table "acids".

use super::acid_table::{
    acids_accepted, acids_at_height, acids_demoted, acids_mempool, acids_promotable,
    acids_promoted, acids_refused, acids_states, AcidRow, AcidsTable,
};
use super::chain_table::at_most;
use super::connection::TablesView;
use super::error::{Error, SQLITE_ERROR, SQLITE_FULL};
use super::session::{Master, Slave};
use crate::data_types::{AcidChainRelation, ChainIndex, Id};
use vstd::prelude::*;

verus! {

/// The tables with `rows` as the table "acids".
pub open spec fn with_acids(tables: TablesView, rows: Seq<AcidRow>) -> TablesView {
    TablesView { main_chain: tables.main_chain, acids: Some(rows), resources: tables.resources }
}

/// Creates the table "acids", empty, unless it exists.
pub fn create_table<S: Master>(session: &mut S) -> (r: Result<(), Error>)
    requires
        old(session).wf(),
    ensures
        r is Ok,
        final(session).wf(),
        final(session).saved() == old(session).saved(),
        final(session).tables() == with_acids(
            old(session).tables(),
            match old(session).tables().acids {
                Some(rows) => rows,
                None => Seq::empty(),
            },
        ),
{
    let con = session.connection_mut();
    if con.acids.is_none() {
        con.acids = Some(AcidsTable::new());
    }
    Ok(())
}

/// Puts each record of `acids` into the mempool, unless the table knows it already.
pub fn accept_to_mempool<S: Master>(acids: &[Id], session: &mut S) -> (r: Result<(), Error>)
    requires
        old(session).wf(),
    ensures
        final(session).wf(),
        final(session).saved() == old(session).saved(),
        match old(session).tables().acids {
            None => r == Err::<(), Error>(Error { code: SQLITE_ERROR }) && final(session).tables()
                == old(session).tables(),
            Some(rows) => {
                &&& final(session).tables() == with_acids(
                    old(session).tables(),
                    acids_accepted(rows, acids@),
                )
                &&& r is Err <==> acids_refused(rows, acids@)
                &&& r is Err ==> r->Err_0.code == SQLITE_FULL
            },
        },
{
    let con = session.connection_mut();
    match &mut con.acids {
        None => Err(Error::new(SQLITE_ERROR)),
        Some(table) => table.accept(acids),
    }
}

/// Moves each record of `acids` that waits in the mempool to the block
/// `chain_index`, and returns the number of rows that changed.
pub fn mempool_to_chain<S: Master>(chain_index: &ChainIndex, acids: &[Id], session: &mut S) -> (r:
    Result<usize, Error>)
    requires
        old(session).wf(),
    ensures
        final(session).wf(),
        final(session).saved() == old(session).saved(),
        match old(session).tables().acids {
            None => r is Err && r->Err_0.code == SQLITE_ERROR && final(session).tables() == old(
                session,
            ).tables(),
            Some(rows) => {
                &&& r == Ok::<usize, Error>(acids_promotable(rows, acids@) as usize)
                &&& acids_promotable(rows, acids@) <= usize::MAX
                &&& final(session).tables() == with_acids(
                    old(session).tables(),
                    acids_promoted(rows, acids@, chain_index.height()),
                )
            },
        },
{
    let con = session.connection_mut();
    match &mut con.acids {
        None => Err(Error::new(SQLITE_ERROR)),
        Some(table) => Ok(table.promote(chain_index.height(), acids)),
    }
}

/// Moves every record of the block `chain_index` back to the mempool, and
/// returns the number of rows that changed.
pub fn chain_to_mempool<S: Master>(chain_index: &ChainIndex, session: &mut S) -> (r: Result<
    usize,
    Error,
>)
    requires
        old(session).wf(),
    ensures
        final(session).wf(),
        final(session).saved() == old(session).saved(),
        match old(session).tables().acids {
            None => r is Err && r->Err_0.code == SQLITE_ERROR && final(session).tables() == old(
                session,
            ).tables(),
            Some(rows) => {
                &&& r == Ok::<usize, Error>(acids_at_height(rows, chain_index.height()) as usize)
                &&& acids_at_height(rows, chain_index.height()) <= usize::MAX
                &&& final(session).tables() == with_acids(
                    old(session).tables(),
                    acids_demoted(rows, chain_index.height()),
                )
            },
        },
{
    let con = session.connection_mut();
    match &mut con.acids {
        None => Err(Error::new(SQLITE_ERROR)),
        Some(table) => Ok(table.demote(chain_index.height())),
    }
}

/// Where each record of `acids` stands: in a block of the main chain, or in
/// the mempool. A record that the table does not know has no entry.
pub fn fetch_state<S: Slave>(acids: &[Id], session: &S) -> (r: Result<
    Vec<AcidChainRelation>,
    Error,
>)
    requires
        session.wf(),
    ensures
        match (session.tables().acids, session.tables().main_chain) {
            (Some(rows), Some(chain)) => r is Ok && r->Ok_0@ == acids_states(rows, chain, acids@),
            _ => r is Err && r->Err_0.code == SQLITE_ERROR,
        },
{
    let con = session.connection();
    match (&con.acids, &con.main_chain) {
        (Some(table), Some(chain)) => Ok(table.states(chain, acids)),
        _ => Err(Error::new(SQLITE_ERROR)),
    }
}

/// At most `limit` records of the mempool, in the order in which they came,
/// from the row number `min_seq` on.
pub fn fetch_mempool<S: Slave>(min_seq: Option<i64>, limit: u32, session: &S) -> (r: Result<
    Vec<(i64, Id)>,
    Error,
>)
    requires
        session.wf(),
    ensures
        match session.tables().acids {
            None => r is Err && r->Err_0.code == SQLITE_ERROR,
            Some(rows) => r is Ok && r->Ok_0@ == at_most(
                acids_mempool(
                    rows,
                    match min_seq {
                        Some(m) => m as int,
                        None => 0,
                    },
                ),
                limit as nat,
            ),
        },
{
    match &session.connection().acids {
        None => Err(Error::new(SQLITE_ERROR)),
        Some(table) => Ok(table.mempool(min_seq, limit)),
    }
}

} // verus!
