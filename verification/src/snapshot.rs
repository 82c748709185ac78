use vstd::prelude::*;

use crate::madeleine_error::MadeleineError;

verus! {

/// A full checkpoint of state: the serialized state together with the
/// sequence number of the last log record it reflects, tagged with a
/// monotonically increasing identifier.
pub struct Snapshot {
    /// The snapshot's identifier: how many snapshots preceded it.
    pub id: u64,
    /// The sequence number of the last log record reflected in `state`.
    pub log_offset: u64,
    /// The serialized state.
    pub state: Vec<u8>,
}

/// The capability contract of a snapshot store: it persists checkpoints
/// atomically and hands back the most recent one. A reader never observes a
/// torn snapshot; a failed write leaves the previously latest one in place.
pub trait SnapshotStore: Sized {
    /// Every snapshot ever completed, in order: the log offset it was taken
    /// at and the serialized state. A snapshot's identifier is its position.
    spec fn snapshots(&self) -> Seq<(u64, Seq<u8>)>;

    /// Atomically persist a new snapshot and return its identifier, the
    /// next one in order (0 for the first). On failure the store is
    /// unchanged and the previously latest snapshot stays latest.
    fn write(&mut self, log_offset: u64, state: &[u8]) -> (r: Result<u64, MadeleineError>)
        ensures
            r matches Ok(id) ==> {
                &&& final(self).snapshots() == old(self).snapshots().push((log_offset, state@))
                &&& id as nat == old(self).snapshots().len()
            },
            r matches Err(e) ==> {
                &&& final(self).snapshots() == old(self).snapshots()
                &&& e is SnapshotFailure
            },
    ;

    /// The most recently completed snapshot, or none if no snapshot has
    /// ever been taken.
    fn read_latest(&self) -> (r: Result<Option<Snapshot>, MadeleineError>)
        ensures
            r matches Ok(opt) ==> match opt {
                Some(s) => {
                    &&& self.snapshots().len() > 0
                    &&& s.id as nat == self.snapshots().len() - 1
                    &&& s.log_offset == self.snapshots().last().0
                    &&& s.state@ == self.snapshots().last().1
                },
                None => self.snapshots().len() == 0,
            },
            r matches Err(e) ==> e is SnapshotFailure,
    ;
}

/// The rows of the `snapshots` table of this connection's database, in
/// rowid order: the log offset and state body of every checkpoint ever
/// completed through it. The contracts below model the single-writer
/// discipline the design demands: while this connection is open, nothing
/// else writes to the database.
pub uninterp spec fn stored_snapshots(conn: rusqlite::Connection) -> Seq<(u64, Seq<u8>)>;

/// Relies on rusqlite::Connection::open and rusqlite::Connection::execute:
/// opens (creating it if missing) the database at `path` and creates the
/// `snapshots` table when it does not exist yet, which adds no row.
#[verifier::external_body]
fn open_snapshots(path: &str) -> (r: Result<rusqlite::Connection, MadeleineError>) {
    let conn = rusqlite::Connection::open(path).map_err(|_| MadeleineError::SnapshotFailure)?;
    conn.execute(
        "CREATE TABLE IF NOT EXISTS snapshots (\
         id INTEGER PRIMARY KEY AUTOINCREMENT, log_offset INTEGER NOT NULL, \
         state BLOB NOT NULL)",
        (),
    ).map_err(|_| MadeleineError::SnapshotFailure)?;
    Ok(conn)
}

/// Relies on rusqlite::Connection::execute with a single-row INSERT, which
/// the store commits atomically: on success exactly the given checkpoint is
/// added at the end of the table; a failed statement changes no row.
#[verifier::external_body]
fn insert_snapshot(conn: &mut rusqlite::Connection, log_offset: u64, state: &[u8]) -> (r: Result<
    (),
    MadeleineError,
>)
    ensures
        r is Ok ==> stored_snapshots(*final(conn)) == stored_snapshots(*old(conn)).push(
            (log_offset, state@),
        ),
        r is Err ==> stored_snapshots(*final(conn)) == stored_snapshots(*old(conn)),
{
    match conn.execute(
        "INSERT INTO snapshots (log_offset, state) VALUES (?1, ?2)",
        (log_offset as i64, state),
    ) {
        Ok(_) => Ok(()),
        Err(_) => Err(MadeleineError::SnapshotFailure),
    }
}

/// Relies on rusqlite::Connection::query_row with SELECT COUNT(*): returns
/// the number of rows of the `snapshots` table.
#[verifier::external_body]
fn count_snapshots(conn: &rusqlite::Connection) -> (r: Result<u64, MadeleineError>)
    ensures
        r matches Ok(n) ==> n as nat == stored_snapshots(*conn).len(),
{
    conn.query_row("SELECT COUNT(*) FROM snapshots", (), |row| row.get(0))
        .map(|n: i64| n as u64)
        .map_err(|_| MadeleineError::SnapshotFailure)
}

/// Relies on rusqlite::Connection::query_row over SELECT ... ORDER BY id
/// DESC LIMIT 1: returns the log offset and state of the last row of the
/// `snapshots` table, or nothing when the table is empty.
#[verifier::external_body]
fn select_latest_snapshot(conn: &rusqlite::Connection) -> (r: Result<
    Option<(u64, Vec<u8>)>,
    MadeleineError,
>)
    ensures
        r matches Ok(opt) ==> match opt {
            Some(row) => {
                &&& stored_snapshots(*conn).len() > 0
                &&& row.0 == stored_snapshots(*conn).last().0
                &&& row.1@ == stored_snapshots(*conn).last().1
            },
            None => stored_snapshots(*conn).len() == 0,
        },
{
    match conn.query_row(
        "SELECT log_offset, state FROM snapshots ORDER BY id DESC LIMIT 1",
        (),
        |row| Ok((row.get::<_, i64>(0)? as u64, row.get(1)?)),
    ) {
        Ok(row) => Ok(Some(row)),
        Err(rusqlite::Error::QueryReturnedNoRows) => Ok(None),
        Err(_) => Err(MadeleineError::SnapshotFailure),
    }
}

/// A snapshot store backed by one table of an embedded relational store on
/// disk; each insert is committed atomically, so the latest completed row
/// is never torn.
pub struct SnapshotTable {
    conn: rusqlite::Connection,
}

impl SnapshotTable {
    /// Opens or creates the backing database at `path`. The store keeps
    /// whatever snapshots the medium already holds.
    pub fn new(path: &str) -> (r: Result<SnapshotTable, MadeleineError>)
        ensures
            r matches Err(e) ==> e is SnapshotFailure,
    {
        match open_snapshots(path) {
            Ok(conn) => Ok(SnapshotTable { conn }),
            Err(_) => Err(MadeleineError::SnapshotFailure),
        }
    }
}

impl SnapshotStore for SnapshotTable {
    closed spec fn snapshots(&self) -> Seq<(u64, Seq<u8>)> {
        stored_snapshots(self.conn)
    }

    fn write(&mut self, log_offset: u64, state: &[u8]) -> (r: Result<u64, MadeleineError>) {
        let id = match count_snapshots(&self.conn) {
            Ok(n) => n,
            Err(_) => {
                return Err(MadeleineError::SnapshotFailure);
            },
        };
        match insert_snapshot(&mut self.conn, log_offset, state) {
            Ok(_) => Ok(id),
            Err(_) => Err(MadeleineError::SnapshotFailure),
        }
    }

    fn read_latest(&self) -> (r: Result<Option<Snapshot>, MadeleineError>) {
        let count = match count_snapshots(&self.conn) {
            Ok(n) => n,
            Err(_) => {
                return Err(MadeleineError::SnapshotFailure);
            },
        };
        match select_latest_snapshot(&self.conn) {
            Ok(Some(row)) => Ok(
                Some(Snapshot { id: count - 1, log_offset: row.0, state: row.1 }),
            ),
            Ok(None) => Ok(None),
            Err(_) => Err(MadeleineError::SnapshotFailure),
        }
    }
}

} // verus!
