//! Sessions: the exclusive use of the connection, with transactions.

use super::connection::{Connection, TablesView};
use super::error::Error;
use vstd::prelude::*;

verus! {

/// A session to the relational index.
///
/// While a transaction is open the session keeps the tables as they were when
/// it began, and `rollback` brings them back.
pub trait Session {
    /// The session is sound: its tables meet their constraints.
    spec fn wf(&self) -> bool;

    /// What the tables hold now.
    spec fn tables(&self) -> TablesView;

    /// What the tables held when the open transaction began; `None` outside a transaction.
    spec fn saved(&self) -> Option<TablesView>;

    /// The tables of a sound session meet their constraints.
    proof fn lemma_tables_wf(&self)
        requires
            self.wf(),
        ensures
            self.tables().wf(),
            self.saved() is Some ==> self.saved()->Some_0.wf(),
    ;

    /// Whether a transaction is open.
    fn is_transaction(&self) -> (b: bool)
        requires
            self.wf(),
        ensures
            b == (self.saved() is Some),
    ;

    /// Opens a transaction.
    fn begin_transaction(&mut self) -> (r: Result<(), Error>)
        requires
            old(self).wf(),
            old(self).saved() is None,
        ensures
            r is Ok,
            final(self).wf(),
            final(self).tables() == old(self).tables(),
            final(self).saved() == Some(old(self).tables()),
    ;

    /// Closes the open transaction and keeps what it did.
    fn commit(&mut self) -> (r: Result<(), Error>)
        requires
            old(self).wf(),
            old(self).saved() is Some,
        ensures
            r is Ok,
            final(self).wf(),
            final(self).tables() == old(self).tables(),
            final(self).saved() is None,
    ;

    /// Closes the open transaction and undoes what it did.
    fn rollback(&mut self) -> (r: Result<(), Error>)
        requires
            old(self).wf(),
            old(self).saved() is Some,
        ensures
            r is Ok,
            final(self).wf(),
            final(self).tables() == old(self).saved()->Some_0,
            final(self).saved() is None,
    ;
}

/// A session that reads.
pub trait Slave: Session {
    /// The connection, to read from.
    fn connection(&self) -> (c: &Connection)
        requires
            self.wf(),
        ensures
            c.wf(),
            c@ == self.tables(),
    ;
}

/// A session that reads and writes.
pub trait Master: Slave {
    /// The connection, to write to.
    fn connection_mut(&mut self) -> (c: &mut Connection)
        requires
            old(self).wf(),
        ensures
            c.wf(),
            c@ == old(self).tables(),
            final(self).tables() == final(c)@,
            final(self).saved() == old(self).saved(),
            final(c).wf() ==> final(self).wf(),
    ;
}

/// The state that both kinds of session share.
pub struct SessionState {
    con: Connection,
    saved: Option<Connection>,
}

impl SessionState {
    /// The tables, and those kept for a rollback, meet their constraints.
    pub closed spec fn wf(&self) -> bool {
        &&& self.con.wf()
        &&& self.saved is Some ==> self.saved->Some_0.wf()
    }

    /// What the tables hold now.
    pub closed spec fn tables(&self) -> TablesView {
        self.con@
    }

    /// What the tables held when the open transaction began.
    pub closed spec fn saved(&self) -> Option<TablesView> {
        match self.saved {
            Some(c) => Some(c@),
            None => None,
        }
    }

    /// The tables of a sound session meet their constraints.
    pub proof fn lemma_tables_wf(&self)
        requires
            self.wf(),
        ensures
            self.tables().wf(),
            self.saved() is Some ==> self.saved()->Some_0.wf(),
    {
        self.con.lemma_view_wf();
        if self.saved is Some {
            self.saved->Some_0.lemma_view_wf();
        }
    }

    /// A session on `con`, outside a transaction.
    pub fn new(con: Connection) -> (s: Self)
        requires
            con.wf(),
        ensures
            s.wf(),
            s.tables() == con@,
            s.saved() is None,
    {
        SessionState { con, saved: None }
    }

    /// Ends the session: an open transaction is rolled back, and the connection is handed back.
    pub fn close(self) -> (con: Connection)
        requires
            self.wf(),
        ensures
            con.wf(),
            con@ == match self.saved() {
                Some(t) => t,
                None => self.tables(),
            },
    {
        match self.saved {
            Some(saved) => saved,
            None => self.con,
        }
    }

    /// Whether a transaction is open.
    pub fn is_transaction(&self) -> (b: bool)
        ensures
            b == (self.saved() is Some),
    {
        self.saved.is_some()
    }

    /// Opens a transaction: the tables are kept as they are, for a rollback.
    pub fn begin_transaction(&mut self) -> (r: Result<(), Error>)
        requires
            old(self).wf(),
            old(self).saved() is None,
        ensures
            r is Ok,
            final(self).wf(),
            final(self).tables() == old(self).tables(),
            final(self).saved() == Some(old(self).tables()),
    {
        self.saved = Some(self.con.copy());
        Ok(())
    }

    /// Closes the open transaction and keeps what it did.
    pub fn commit(&mut self) -> (r: Result<(), Error>)
        requires
            old(self).wf(),
            old(self).saved() is Some,
        ensures
            r is Ok,
            final(self).wf(),
            final(self).tables() == old(self).tables(),
            final(self).saved() is None,
    {
        self.saved = None;
        Ok(())
    }

    /// Closes the open transaction and brings the tables back to what they
    /// held when it began.
    pub fn rollback(&mut self) -> (r: Result<(), Error>)
        requires
            old(self).wf(),
            old(self).saved() is Some,
        ensures
            r is Ok,
            final(self).wf(),
            final(self).tables() == old(self).saved()->Some_0,
            final(self).saved() is None,
    {
        let saved = self.saved.take();
        match saved {
            Some(con) => {
                self.con = con;
            },
            None => {},
        }
        Ok(())
    }

    /// The connection, to read from.
    pub fn connection(&self) -> (c: &Connection)
        requires
            self.wf(),
        ensures
            c.wf(),
            c@ == self.tables(),
    {
        &self.con
    }

    /// The connection, to write to.
    pub fn connection_mut(&mut self) -> (c: &mut Connection)
        requires
            old(self).wf(),
        ensures
            c.wf(),
            c@ == old(self).tables(),
            final(self).tables() == final(c)@,
            final(self).saved() == old(self).saved(),
            final(c).wf() ==> final(self).wf(),
    {
        &mut self.con
    }
}

/// A session that reads and writes.
pub struct MasterSession {
    state: SessionState,
}

/// A session that reads.
pub struct SlaveSession {
    state: SessionState,
}

impl MasterSession {
    /// A session on `con`, outside a transaction.
    pub fn new(con: Connection) -> (s: Self)
        requires
            con.wf(),
        ensures
            s.wf(),
            s.tables() == con@,
            s.saved() is None,
    {
        MasterSession { state: SessionState::new(con) }
    }

    /// Ends the session: an open transaction is rolled back, and the connection is handed back.
    pub fn close(self) -> (con: Connection)
        requires
            self.wf(),
        ensures
            con.wf(),
            con@ == match self.saved() {
                Some(t) => t,
                None => self.tables(),
            },
    {
        self.state.close()
    }
}

impl SlaveSession {
    /// A session on `con`, outside a transaction.
    pub fn new(con: Connection) -> (s: Self)
        requires
            con.wf(),
        ensures
            s.wf(),
            s.tables() == con@,
            s.saved() is None,
    {
        SlaveSession { state: SessionState::new(con) }
    }

    /// Ends the session: an open transaction is rolled back, and the connection is handed back.
    pub fn close(self) -> (con: Connection)
        requires
            self.wf(),
        ensures
            con.wf(),
            con@ == match self.saved() {
                Some(t) => t,
                None => self.tables(),
            },
    {
        self.state.close()
    }
}

impl Session for MasterSession {
    closed spec fn wf(&self) -> bool {
        self.state.wf()
    }

    closed spec fn tables(&self) -> TablesView {
        self.state.tables()
    }

    closed spec fn saved(&self) -> Option<TablesView> {
        self.state.saved()
    }

    proof fn lemma_tables_wf(&self) {
        self.state.lemma_tables_wf();
    }

    fn is_transaction(&self) -> (b: bool) {
        self.state.is_transaction()
    }

    fn begin_transaction(&mut self) -> (r: Result<(), Error>) {
        self.state.begin_transaction()
    }

    fn commit(&mut self) -> (r: Result<(), Error>) {
        self.state.commit()
    }

    fn rollback(&mut self) -> (r: Result<(), Error>) {
        self.state.rollback()
    }
}

impl Slave for MasterSession {
    fn connection(&self) -> (c: &Connection) {
        self.state.connection()
    }
}

impl Master for MasterSession {
    fn connection_mut(&mut self) -> (c: &mut Connection) {
        self.state.connection_mut()
    }
}

impl Session for SlaveSession {
    closed spec fn wf(&self) -> bool {
        self.state.wf()
    }

    closed spec fn tables(&self) -> TablesView {
        self.state.tables()
    }

    closed spec fn saved(&self) -> Option<TablesView> {
        self.state.saved()
    }

    proof fn lemma_tables_wf(&self) {
        self.state.lemma_tables_wf();
    }

    fn is_transaction(&self) -> (b: bool) {
        self.state.is_transaction()
    }

    fn begin_transaction(&mut self) -> (r: Result<(), Error>) {
        self.state.begin_transaction()
    }

    fn commit(&mut self) -> (r: Result<(), Error>) {
        self.state.commit()
    }

    fn rollback(&mut self) -> (r: Result<(), Error>) {
        self.state.rollback()
    }
}

impl Slave for SlaveSession {
    fn connection(&self) -> (c: &Connection) {
        self.state.connection()
    }
}

} // verus!
