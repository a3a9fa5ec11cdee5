//! The relational index: the main chain, the mempool and the balances.

pub mod acid_table;
pub mod acids;
pub mod chain_table;
pub mod connection;
pub mod error;
pub mod main_chain;
pub mod resource_table;
pub mod resources;
pub mod session;

pub use connection::{Connection, TablesView};
pub use error::Error;
pub use session::{Master, MasterSession, Session, Slave, SlaveSession};

use vstd::prelude::*;

verus! {

/// The tables, each one created: a missing table stands empty.
pub open spec fn all_created(tables: TablesView) -> TablesView {
    TablesView {
        main_chain: Some(
            match tables.main_chain {
                Some(rows) => rows,
                None => Seq::empty(),
            },
        ),
        acids: Some(
            match tables.acids {
                Some(rows) => rows,
                None => Seq::empty(),
            },
        ),
        resources: Some(
            match tables.resources {
                Some(balances) => balances,
                None => Map::empty(),
            },
        ),
    }
}

/// Creates the tables that do not exist yet. Those that exist are left as they are.
pub fn create_table<S: Master>(session: &mut S) -> (r: Result<(), Error>)
    requires
        old(session).wf(),
    ensures
        r is Ok,
        final(session).wf(),
        final(session).saved() == old(session).saved(),
        final(session).tables() == all_created(old(session).tables()),
{
    let _ = main_chain::create_table(session);
    let _ = acids::create_table(session);
    let _ = resources::create_table(session);
    Ok(())
}

/// The state of the module: the connection, and which thread holds the
/// session on it. One session exists at a time.
pub struct Environment {
    session_owner: Option<u64>,
    connection: Option<Connection>,
}

impl Environment {
    /// The connection is here exactly while no session holds it.
    pub closed spec fn wf(&self) -> bool {
        &&& self.session_owner is None <==> self.connection is Some
        &&& self.connection is Some ==> self.connection->Some_0.wf()
    }

    /// The thread that holds the session, if there is a session.
    pub closed spec fn owner(&self) -> Option<u64> {
        self.session_owner
    }

    /// What the tables hold, while no session is open.
    pub closed spec fn tables(&self) -> TablesView {
        self.connection->Some_0@
    }

    /// A database in memory without a table, and no session.
    pub fn new() -> (env: Self)
        ensures
            env.wf(),
            env.owner() is None,
            env.tables() == TablesView::empty(),
    {
        Environment {
            session_owner: None,
            connection: Some(Connection { main_chain: None, acids: None, resources: None }),
        }
    }

    /// Creates the tables that do not exist yet.
    pub fn init(&mut self) -> (r: Result<(), Error>)
        requires
            old(self).wf(),
            old(self).owner() is None,
        ensures
            r is Ok,
            final(self).wf(),
            final(self).owner() is None,
            final(self).tables() == all_created(old(self).tables()),
    {
        match self.connection.take() {
            Some(con) => {
                let mut session = MasterSession::new(con);
                let _ = create_table(&mut session);
                self.connection = Some(session.close());
            },
            None => {},
        }
        Ok(())
    }

    /// Takes the connection for the thread `thread`, if no session holds it.
    fn acquire(&mut self, thread: u64) -> (r: Option<Connection>)
        requires
            old(self).wf(),
            old(self).owner() != Some(thread),
        ensures
            final(self).wf(),
            match r {
                Some(con) => old(self).owner() is None && final(self).owner() == Some(thread)
                    && con.wf() && con@ == old(self).tables(),
                None => old(self).owner() is Some && final(self).owner() == old(self).owner(),
            },
    {
        match self.connection.take() {
            Some(con) => {
                self.session_owner = Some(thread);
                Some(con)
            },
            None => None,
        }
    }

    /// Takes the connection back from the session that held it.
    fn release(&mut self, con: Connection)
        requires
            old(self).wf(),
            old(self).owner() is Some,
            con.wf(),
        ensures
            final(self).wf(),
            final(self).owner() is None,
            final(self).tables() == con@,
    {
        self.session_owner = None;
        self.connection = Some(con);
    }
}

/// Opens a session that reads and writes, for the thread `thread`.
///
/// It returns `None` while another thread holds a session: the caller waits
/// and asks again. A thread that holds a session must not ask for another.
pub fn master(env: &mut Environment, thread: u64) -> (r: Option<MasterSession>)
    requires
        old(env).wf(),
        old(env).owner() != Some(thread),
    ensures
        final(env).wf(),
        r is Some <==> old(env).owner() is None,
        match r {
            Some(session) => final(env).owner() == Some(thread) && session.wf()
                && session.tables() == old(env).tables() && session.saved() is None,
            None => final(env).owner() == old(env).owner(),
        },
{
    match env.acquire(thread) {
        Some(con) => Some(MasterSession::new(con)),
        None => None,
    }
}

/// Opens a session that reads, for the thread `thread`.
///
/// It returns `None` while another thread holds a session: the caller waits
/// and asks again. A thread that holds a session must not ask for another.
pub fn slave(env: &mut Environment, thread: u64) -> (r: Option<SlaveSession>)
    requires
        old(env).wf(),
        old(env).owner() != Some(thread),
    ensures
        final(env).wf(),
        r is Some <==> old(env).owner() is None,
        match r {
            Some(session) => final(env).owner() == Some(thread) && session.wf()
                && session.tables() == old(env).tables() && session.saved() is None,
            None => final(env).owner() == old(env).owner(),
        },
{
    match env.acquire(thread) {
        Some(con) => Some(SlaveSession::new(con)),
        None => None,
    }
}

/// Ends the session `session`: an open transaction is rolled back, and the
/// connection is free for the next session.
pub fn close_master(session: MasterSession, env: &mut Environment)
    requires
        old(env).wf(),
        old(env).owner() is Some,
        session.wf(),
    ensures
        final(env).wf(),
        final(env).owner() is None,
        final(env).tables() == match session.saved() {
            Some(tables) => tables,
            None => session.tables(),
        },
{
    env.release(session.close());
}

/// Ends the session `session`: an open transaction is rolled back, and the
/// connection is free for the next session.
pub fn close_slave(session: SlaveSession, env: &mut Environment)
    requires
        old(env).wf(),
        old(env).owner() is Some,
        session.wf(),
    ensures
        final(env).wf(),
        final(env).owner() is None,
        final(env).tables() == match session.saved() {
            Some(tables) => tables,
            None => session.tables(),
        },
{
    env.release(session.close());
}

} // verus!
