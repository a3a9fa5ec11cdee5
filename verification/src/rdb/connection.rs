//! The connection: the tables of the relational index, held in memory.

use super::acid_table::{acids_wf, AcidRow, AcidsTable};
use super::chain_table::{chain_ids_unique, chain_sorted, MainChainTable};
use super::resource_table::{balances_wf, Balances, ResourcesTable};
use crate::data_types::ChainIndex;
use vstd::prelude::*;

verus! {

/// What the tables hold. A table that has not been created is `None`.
pub struct TablesView {
    /// The rows of "main_chain", in order of height.
    pub main_chain: Option<Seq<ChainIndex>>,
    /// The rows of "acids", in order of their numbers.
    pub acids: Option<Seq<AcidRow>>,
    /// The balances of "resources".
    pub resources: Option<Balances>,
}

impl TablesView {
    /// The constraints of every table that exists hold.
    pub open spec fn wf(self) -> bool {
        &&& self.main_chain is Some ==> chain_sorted(self.main_chain->Some_0) && chain_ids_unique(
            self.main_chain->Some_0,
        )
        &&& self.acids is Some ==> acids_wf(self.acids->Some_0)
        &&& self.resources is Some ==> balances_wf(self.resources->Some_0)
    }

    /// A database without a table.
    pub open spec fn empty() -> TablesView {
        TablesView { main_chain: None, acids: None, resources: None }
    }
}

/// The single connection to the database. It owns the tables.
pub struct Connection {
    pub main_chain: Option<MainChainTable>,
    pub acids: Option<AcidsTable>,
    pub resources: Option<ResourcesTable>,
}

impl View for Connection {
    type V = TablesView;

    open spec fn view(&self) -> TablesView {
        TablesView {
            main_chain: match self.main_chain {
                Some(t) => Some(t@),
                None => None,
            },
            acids: match self.acids {
                Some(t) => Some(t@),
                None => None,
            },
            resources: match self.resources {
                Some(t) => Some(t@),
                None => None,
            },
        }
    }
}

impl Connection {
    /// The constraints of every table that exists hold.
    pub open spec fn wf(&self) -> bool {
        &&& self.main_chain is Some ==> self.main_chain->Some_0.wf()
        &&& self.acids is Some ==> self.acids->Some_0.wf()
        &&& self.resources is Some ==> self.resources->Some_0.wf()
    }

    /// What a connection that meets its constraints holds meets them too.
    pub proof fn lemma_view_wf(&self)
        requires
            self.wf(),
        ensures
            self@.wf(),
    {
        if self.resources is Some {
            self.resources->Some_0.lemma_positive();
        }
    }

    /// Opens a database in memory. It has no table yet.
    pub fn open_memory_db() -> (r: Result<Connection, super::error::Error>)
        ensures
            r is Ok,
            r->Ok_0.wf(),
            r->Ok_0@ == TablesView::empty(),
    {
        Ok(Connection { main_chain: None, acids: None, resources: None })
    }

    /// A copy of the connection's tables.
    pub fn copy(&self) -> (c: Connection)
        ensures
            c@ == self@,
            self.wf() ==> c.wf(),
    {
        Connection {
            main_chain: match &self.main_chain {
                Some(t) => Some(t.copy()),
                None => None,
            },
            acids: match &self.acids {
                Some(t) => Some(t.copy()),
                None => None,
            },
            resources: match &self.resources {
                Some(t) => Some(t.copy()),
                None => None,
            },
        }
    }
}

} // verus!
