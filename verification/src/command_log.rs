use vstd::prelude::*;

use crate::command::{Command, Persistent};
use crate::madeleine_error::MadeleineError;
use crate::replay::records_from;

verus! {

/// The capability contract of a durable log: an append-only sequence of
/// serialized command records. Index in `records()` equals the record's
/// sequence number; sequence numbers are contiguous from the first record
/// and are never reassigned.
pub trait DurableLog: Sized {
    /// Every record ever appended, in sequence order.
    spec fn records(&self) -> Seq<Seq<u8>>;

    /// Durably append one record. On success the record is durable before
    /// the call returns, and the assigned sequence number is its position in
    /// the log; on failure the log is unchanged.
    fn append(&mut self, record: &[u8]) -> (r: Result<u64, MadeleineError>)
        ensures
            r matches Ok(seq) ==> {
                &&& final(self).records() == old(self).records().push(record@)
                &&& seq as nat == old(self).records().len()
            },
            r matches Err(e) ==> {
                &&& final(self).records() == old(self).records()
                &&& (e is StorageFailure || e is SerializationFailure)
            },
    ;

    /// The count of records ever appended.
    fn len(&self) -> (r: Result<u64, MadeleineError>)
        ensures
            r matches Ok(n) ==> n as nat == self.records().len(),
            r matches Err(e) ==> e is StorageFailure,
    ;

    /// The records with sequence number at least `start`, in increasing
    /// order. Each call yields an independent copy; this is used by the
    /// replay protocol.
    fn read_from(&self, start: u64) -> (r: Result<Vec<Vec<u8>>, MadeleineError>)
        ensures
            r matches Ok(v) ==> v.deep_view() == records_from(self.records(), start as int),
            r matches Err(e) ==> e is StorageFailure,
    ;
}

#[verifier::external_type_specification]
#[verifier::external_body]
pub struct ExConnection(rusqlite::Connection);

/// The rows of the `commands` table of this connection's database, in rowid
/// order: the byte bodies of every record ever appended through it. The
/// contracts below model the single-writer discipline the design demands:
/// while this connection is open, nothing else writes to the database.
pub uninterp spec fn stored_records(conn: rusqlite::Connection) -> Seq<Seq<u8>>;

/// Relies on rusqlite::Connection::open and rusqlite::Connection::execute:
/// opens (creating it if missing) the database at `path` and creates the
/// `commands` table when it does not exist yet, which adds no row.
#[verifier::external_body]
fn open_log(path: &str) -> (r: Result<rusqlite::Connection, MadeleineError>) {
    let conn = rusqlite::Connection::open(path).map_err(|_| MadeleineError::StorageFailure)?;
    conn.execute(
        "CREATE TABLE IF NOT EXISTS commands (\
         seq INTEGER PRIMARY KEY AUTOINCREMENT, ulid TEXT NOT NULL, body BLOB NOT NULL)",
        (),
    ).map_err(|_| MadeleineError::StorageFailure)?;
    Ok(conn)
}

/// Relies on rusqlite::Connection::execute with a single-row INSERT: on
/// success exactly the given record body is added at the end of the table;
/// a failed statement changes no row.
#[verifier::external_body]
fn insert_record(conn: &mut rusqlite::Connection, record: &[u8], id: &str) -> (r: Result<
    (),
    MadeleineError,
>)
    ensures
        r is Ok ==> stored_records(*final(conn)) == stored_records(*old(conn)).push(record@),
        r is Err ==> stored_records(*final(conn)) == stored_records(*old(conn)),
{
    match conn.execute("INSERT INTO commands (ulid, body) VALUES (?1, ?2)", (id, record)) {
        Ok(_) => Ok(()),
        Err(_) => Err(MadeleineError::StorageFailure),
    }
}

/// Relies on rusqlite::Connection::query_row with SELECT COUNT(*): returns
/// the number of rows of the `commands` table.
#[verifier::external_body]
fn count_records(conn: &rusqlite::Connection) -> (r: Result<u64, MadeleineError>)
    ensures
        r matches Ok(n) ==> n as nat == stored_records(*conn).len(),
{
    conn.query_row("SELECT COUNT(*) FROM commands", (), |row| row.get(0))
        .map(|n: i64| n as u64)
        .map_err(|_| MadeleineError::StorageFailure)
}

/// Relies on rusqlite::Statement::query_map over SELECT ... ORDER BY seq
/// with an OFFSET: returns the bodies of the rows from position `start` on,
/// in rowid order. A start beyond the widest signed offset is bound as that
/// widest value: a table never holds that many rows, so every row is
/// skipped either way, while a negative bind would skip none.
#[verifier::external_body]
fn select_records_from(conn: &rusqlite::Connection, start: u64) -> (r: Result<
    Vec<Vec<u8>>,
    MadeleineError,
>)
    ensures
        r matches Ok(v) ==> v.deep_view() == records_from(stored_records(*conn), start as int),
{
    let mut stmt = conn.prepare("SELECT body FROM commands ORDER BY seq LIMIT -1 OFFSET ?1")
        .map_err(|_| MadeleineError::StorageFailure)?;
    let offset: i64 = i64::try_from(start).unwrap_or(i64::MAX);
    let rows = stmt.query_map([offset], |row| row.get(0))
        .map_err(|_| MadeleineError::StorageFailure)?;
    let mut out: Vec<Vec<u8>> = Vec::new();
    for row in rows {
        out.push(row.map_err(|_| MadeleineError::StorageFailure)?);
    }
    Ok(out)
}

/// Relies on ulid::Ulid::generate and ulid::Ulid::to_string: a fresh,
/// time-ordered identifier in canonical text form. It depends on the clock
/// and on randomness, so nothing is claimed about its value; it serves only
/// as a tamper-evident tag beside each record.
#[verifier::external_body]
fn fresh_record_id() -> String {
    ulid::Ulid::generate().to_string()
}

/// An append-only log of commands, backed by one table of an embedded
/// relational store on disk.
pub struct CommandLog {
    conn: rusqlite::Connection,
}

impl CommandLog {
    /// Constructor function: opens or creates the backing database at
    /// `path`. The log keeps whatever records the medium already holds, so
    /// nothing is known of `records()` beyond what later calls report.
    pub fn new(path: &str) -> (r: Result<CommandLog, MadeleineError>)
        ensures
            r matches Err(e) ==> e is StorageFailure,
    {
        match open_log(path) {
            Ok(conn) => Ok(CommandLog { conn }),
            Err(_) => Err(MadeleineError::StorageFailure),
        }
    }

    /// Append a command to the log, serializing it first.
    pub fn append_command<C: Command>(&mut self, command: C) -> (r: Result<u64, MadeleineError>)
        ensures
            r matches Ok(seq) ==> {
                &&& final(self).records() == old(self).records().push(command.encoding())
                &&& seq as nat == old(self).records().len()
            },
            r matches Err(e) ==> {
                &&& final(self).records() == old(self).records()
                &&& (e is StorageFailure || e is SerializationFailure)
            },
    {
        let bytes = command.encode();
        self.append(bytes.as_slice())
    }
}

impl DurableLog for CommandLog {
    closed spec fn records(&self) -> Seq<Seq<u8>> {
        stored_records(self.conn)
    }

    fn append(&mut self, record: &[u8]) -> (r: Result<u64, MadeleineError>) {
        let seq = match count_records(&self.conn) {
            Ok(n) => n,
            Err(_) => {
                return Err(MadeleineError::StorageFailure);
            },
        };
        let id = fresh_record_id();
        match insert_record(&mut self.conn, record, id.as_str()) {
            Ok(_) => Ok(seq),
            Err(_) => Err(MadeleineError::StorageFailure),
        }
    }

    fn len(&self) -> (r: Result<u64, MadeleineError>) {
        match count_records(&self.conn) {
            Ok(n) => Ok(n),
            Err(_) => Err(MadeleineError::StorageFailure),
        }
    }

    fn read_from(&self, start: u64) -> (r: Result<Vec<Vec<u8>>, MadeleineError>) {
        match select_records_from(&self.conn, start) {
            Ok(v) => Ok(v),
            Err(_) => Err(MadeleineError::StorageFailure),
        }
    }
}

} // verus!
