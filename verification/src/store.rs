//! The database session, and the log of what was asked and answered.
//!
//! What a database answers is not known beforehand: it rests on the file, on
//! other connections to it, and on the schema. So nothing is claimed of the
//! answers. What is kept is a record: a [`Session`] logs each statement with the
//! values bound to it and with the answer that came back, and the contracts of
//! this crate speak of that log.

use rusqlite::Connection;
use vstd::prelude::*;

use crate::carved::text_view;
use crate::sql::{bundle_read_sql, bundle_write_sql, round_lookup_sql};

verus! {

/// rusqlite's handle on an SQLite database. Nothing is known of what is inside.
#[verifier::external_type_specification]
#[verifier::external_body]
pub struct ExConnection(Connection);

/// A value as it is bound to a statement, or as a row holds it.
pub ghost enum Cell {
    Null,
    Integer(int),
    Text(Seq<char>),
    Blob(Seq<u8>),
}

/// A text, or no value.
pub open spec fn text_cell(text: Option<Seq<char>>) -> Cell {
    match text {
        Some(text) => Cell::Text(text),
        None => Cell::Null,
    }
}

/// The characters of an optional text.
pub open spec fn str_view(text: Option<&str>) -> Option<Seq<char>> {
    match text {
        Some(text) => Some(text@),
        None => None,
    }
}

/// How the database failed to answer.
#[derive(Debug, Clone, PartialEq, Eq)]
pub struct StoreFault {
    /// The statement ran, and there was no row to return.
    pub no_rows: bool,
    /// The failure in the words of the database library.
    pub message: String,
}

/// A [`StoreFault`] as the contracts speak of it.
pub ghost struct Fault {
    pub no_rows: bool,
    pub message: Seq<char>,
}

impl View for StoreFault {
    type V = Fault;

    open spec fn view(&self) -> Fault {
        Fault { no_rows: self.no_rows, message: self.message@ }
    }
}

/// What a bundle's row holds of the delegation that it describes.
#[derive(Debug, Clone, PartialEq, Eq)]
pub struct StoredBundle {
    pub van_comm_rand: Option<Vec<u8>>,
    pub delegation_tx_hash: Option<String>,
}

/// A [`StoredBundle`] as the contracts speak of it.
pub ghost struct Stored {
    pub van_comm_rand: Option<Seq<u8>>,
    pub delegation_tx_hash: Option<Seq<char>>,
}

impl View for StoredBundle {
    type V = Stored;

    open spec fn view(&self) -> Stored {
        Stored {
            van_comm_rand: match self.van_comm_rand {
                Some(bytes) => Some(bytes@),
                None => None,
            },
            delegation_tx_hash: text_view(self.delegation_tx_hash),
        }
    }
}

/// The answer to a round lookup, as the contracts speak of it.
pub open spec fn found_view(reply: Result<bool, StoreFault>) -> Result<bool, Fault> {
    match reply {
        Ok(found) => Ok(found),
        Err(fault) => Err(fault@),
    }
}

/// The answer to a bundle read, as the contracts speak of it.
pub open spec fn stored_view(reply: Result<StoredBundle, StoreFault>) -> Result<Stored, Fault> {
    match reply {
        Ok(stored) => Ok(stored@),
        Err(fault) => Err(fault@),
    }
}

/// The answer to a bundle write, as the contracts speak of it.
pub open spec fn changed_view(reply: Result<usize, StoreFault>) -> Result<nat, Fault> {
    match reply {
        Ok(rows) => Ok(rows as nat),
        Err(fault) => Err(fault@),
    }
}

/// A statement with the values bound to its parameters, the first to number 1.
pub ghost struct Request {
    pub sql: Seq<char>,
    pub params: Seq<Cell>,
}

/// A statement that was run, with its answer.
pub ghost enum Exchange {
    /// A query for one truth value.
    Lookup { request: Request, found: Result<bool, Fault> },
    /// A query for one secret and transaction hash.
    Read { request: Request, stored: Result<Stored, Fault> },
    /// A change, answered with the number of rows that it touched.
    Write { request: Request, touched: Result<nat, Fault> },
}

/// A use of one connection, which logs the statements that are run through it.
pub struct Session<'a> {
    conn: &'a Connection,
    log: Ghost<Seq<Exchange>>,
}

/// A [`Session`] as the contracts speak of it.
pub ghost struct SessionView<'a> {
    /// The connection that the statements go to.
    pub connection: &'a Connection,
    /// The statements that were run, in order.
    pub log: Seq<Exchange>,
}

impl<'a> View for Session<'a> {
    type V = SessionView<'a>;

    closed spec fn view(&self) -> SessionView<'a> {
        SessionView { connection: self.conn, log: self.log@ }
    }
}

impl<'a> SessionView<'a> {
    /// The session after one more exchange, on the same connection.
    pub open spec fn logged(self, exchange: Exchange) -> SessionView<'a> {
        SessionView { connection: self.connection, log: self.log.push(exchange) }
    }
}

impl<'a> Session<'a> {
    /// Starts a session on a connection, with nothing in its log.
    pub fn new(conn: &'a Connection) -> (session: Self)
        ensures
            session@ == (SessionView { connection: conn, log: Seq::<Exchange>::empty() }),
    {
        Session { conn, log: Ghost(Seq::empty()) }
    }

    /// Runs the round lookup, a query for one truth value with two texts bound to
    /// it, through `rusqlite::Connection::query_row`, and takes the first column
    /// of the first row with `rusqlite::Row::get`.
    ///
    /// The contract says that the session keeps its connection, and that the log
    /// grows by this statement, these values in this order, and the answer that
    /// is returned. Which answer comes back rests on the database, and nothing
    /// is said of it.
    #[verifier::external_body]
    pub(crate) fn query_flag(&mut self, sql: &str, first: &str, second: &str) -> (reply: Result<
        bool,
        StoreFault,
    >)
        requires
            sql@ == round_lookup_sql(),
        ensures
            final(self)@ == old(self)@.logged(
                Exchange::Lookup {
                    request: Request {
                        sql: sql@,
                        params: seq![Cell::Text(first@), Cell::Text(second@)],
                    },
                    found: found_view(reply),
                },
            ),
    {
        self.conn.query_row(sql, (first, second), |row| row.get(0)).map_err(
            |error| StoreFault {
                no_rows: matches!(error, rusqlite::Error::QueryReturnedNoRows),
                message: error.to_string(),
            },
        )
    }

    /// Runs the bundle read, a query for one secret and transaction hash with two
    /// texts and a number bound to it, through `rusqlite::Connection::query_row`,
    /// and takes the first two columns of the first row with `rusqlite::Row::get`.
    ///
    /// The contract says that the session keeps its connection, and that the log
    /// grows by this statement, these values in this order, and the answer that
    /// is returned. Which answer comes back rests on the database, and nothing
    /// is said of it.
    #[verifier::external_body]
    pub(crate) fn query_stored(
        &mut self,
        sql: &str,
        first: &str,
        second: &str,
        third: i64,
    ) -> (reply: Result<StoredBundle, StoreFault>)
        requires
            sql@ == bundle_read_sql(),
        ensures
            final(self)@ == old(self)@.logged(
                Exchange::Read {
                    request: Request {
                        sql: sql@,
                        params: seq![
                            Cell::Text(first@),
                            Cell::Text(second@),
                            Cell::Integer(third as int),
                        ],
                    },
                    stored: stored_view(reply),
                },
            ),
    {
        self.conn.query_row(
            sql,
            (first, second, third),
            |row| Ok(StoredBundle { van_comm_rand: row.get(0)?, delegation_tx_hash: row.get(1)? }),
        ).map_err(
            |error| StoreFault {
                no_rows: matches!(error, rusqlite::Error::QueryReturnedNoRows),
                message: error.to_string(),
            },
        )
    }

    /// Runs the bundle write, a change with seven values bound to it, through
    /// `rusqlite::Connection::execute`.
    ///
    /// The contract says that the session keeps its connection, and that the log
    /// grows by this statement, these values in this order, and the answer that
    /// is returned: the number of rows that changed, or the failure. Which answer
    /// comes back rests on the database, and nothing is said of it.
    #[verifier::external_body]
    pub(crate) fn execute(
        &mut self,
        sql: &str,
        first: &[u8],
        second: &[u8],
        third: i64,
        fourth: Option<&str>,
        fifth: &str,
        sixth: &str,
        seventh: i64,
    ) -> (reply: Result<usize, StoreFault>)
        requires
            sql@ == bundle_write_sql(),
        ensures
            final(self)@ == old(self)@.logged(
                Exchange::Write {
                    request: Request {
                        sql: sql@,
                        params: seq![
                            Cell::Blob(first@),
                            Cell::Blob(second@),
                            Cell::Integer(third as int),
                            text_cell(str_view(fourth)),
                            Cell::Text(fifth@),
                            Cell::Text(sixth@),
                            Cell::Integer(seventh as int),
                        ],
                    },
                    touched: changed_view(reply),
                },
            ),
    {
        self.conn.execute(sql, (first, second, third, fourth, fifth, sixth, seventh)).map_err(
            |error| StoreFault {
                no_rows: matches!(error, rusqlite::Error::QueryReturnedNoRows),
                message: error.to_string(),
            },
        )
    }
}

} // verus!
