use vstd::prelude::*;
use vstd::slice::slice_to_vec;

use crate::command_log::DurableLog;
use crate::madeleine_error::MadeleineError;
use crate::replay::records_from;
use crate::snapshot::{Snapshot, SnapshotStore};

verus! {

/// An exact copy of a byte slice.
fn copy_bytes(bytes: &[u8]) -> (r: Vec<u8>)
    ensures
        r@ == bytes@,
{
    slice_to_vec(bytes)
}

/// A durable log kept in memory. It honours the full `DurableLog` contract
/// and can be armed with a fault position: an append fails exactly while
/// the record with that sequence number would be assigned, and since a
/// failed append never grows the log past it, every later append fails
/// too. That makes the storage-fault behaviour of the engine observable;
/// a backend whose medium can genuinely fail reports its errors the same
/// way.
pub struct MemoryLog {
    records: Vec<Vec<u8>>,
    fail_at: Option<u64>,
}

impl MemoryLog {
    /// The sequence number at which `append` is set to fail, if any.
    pub closed spec fn fault(&self) -> Option<u64> {
        self.fail_at
    }

    /// A fresh, empty log that never fails.
    pub fn new() -> (r: MemoryLog)
        ensures
            r.records() == Seq::<Seq<u8>>::empty(),
            r.fault() is None,
    {
        MemoryLog { records: Vec::new(), fail_at: None }
    }

    /// A fresh, empty log whose append fails exactly while the record with
    /// sequence number `fail_at` would be assigned.
    pub fn with_fault(fail_at: u64) -> (r: MemoryLog)
        ensures
            r.records() == Seq::<Seq<u8>>::empty(),
            r.fault() == Some(fail_at),
    {
        MemoryLog { records: Vec::new(), fail_at: Some(fail_at) }
    }
}

impl DurableLog for MemoryLog {
    closed spec fn records(&self) -> Seq<Seq<u8>> {
        self.records.deep_view()
    }

    fn append(&mut self, record: &[u8]) -> (r: Result<u64, MadeleineError>)
        ensures
            r is Err <==> old(self).fault() == Some(old(self).records().len() as u64),
            final(self).fault() == old(self).fault(),
    {
        let seq = self.records.len();
        if let Some(f) = self.fail_at {
            if seq as u64 == f {
                return Err(MadeleineError::StorageFailure);
            }
        }
        self.records.push(copy_bytes(record));
        proof {
            assert(self.records.deep_view() =~~= old(self).records.deep_view().push(record@));
        }
        Ok(seq as u64)
    }

    fn len(&self) -> (r: Result<u64, MadeleineError>)
        ensures
            r is Ok,
    {
        Ok(self.records.len() as u64)
    }

    fn read_from(&self, start: u64) -> (r: Result<Vec<Vec<u8>>, MadeleineError>)
        ensures
            r is Ok,
    {
        let n = self.records.len();
        let mut out: Vec<Vec<u8>> = Vec::new();
        if start >= n as u64 {
            proof {
                assert(out.deep_view() =~~= records_from(self.records(), start as int));
            }
            return Ok(out);
        }
        let mut i: usize = start as usize;
        while i < n
            invariant
                start as int <= i as int <= n as int,
                n == self.records.len(),
                out.deep_view() =~~= self.records.deep_view().subrange(start as int, i as int),
            decreases n - i,
        {
            let ghost prev = out.deep_view();
            out.push(copy_bytes(self.records[i].as_slice()));
            proof {
                assert(out.deep_view() =~~= prev.push(self.records.deep_view()[i as int]));
                assert(out.deep_view() =~~= self.records.deep_view().subrange(
                    start as int,
                    i as int + 1,
                ));
            }
            i += 1;
        }
        proof {
            assert(out.deep_view() =~~= records_from(self.records(), start as int));
        }
        Ok(out)
    }
}

/// A snapshot store kept in memory, honouring the full `SnapshotStore`
/// contract.
pub struct MemorySnapshots {
    entries: Vec<(u64, Vec<u8>)>,
}

impl MemorySnapshots {
    /// A fresh, empty store.
    pub fn new() -> (r: MemorySnapshots)
        ensures
            r.snapshots() == Seq::<(u64, Seq<u8>)>::empty(),
    {
        let r = MemorySnapshots { entries: Vec::new() };
        proof {
            assert(r.snapshots() =~~= Seq::<(u64, Seq<u8>)>::empty());
        }
        r
    }
}

impl SnapshotStore for MemorySnapshots {
    closed spec fn snapshots(&self) -> Seq<(u64, Seq<u8>)> {
        Seq::new(self.entries@.len(), |i: int| (self.entries@[i].0, self.entries@[i].1@))
    }

    fn write(&mut self, log_offset: u64, state: &[u8]) -> (r: Result<u64, MadeleineError>)
        ensures
            r is Ok,
    {
        let id = self.entries.len() as u64;
        self.entries.push((log_offset, copy_bytes(state)));
        proof {
            assert(self.snapshots() =~~= old(self).snapshots().push((log_offset, state@)));
        }
        Ok(id)
    }

    fn read_latest(&self) -> (r: Result<Option<Snapshot>, MadeleineError>)
        ensures
            r is Ok,
    {
        let n = self.entries.len();
        if n == 0 {
            Ok(None)
        } else {
            let last = &self.entries[n - 1];
            Ok(
                Some(
                    Snapshot {
                        id: (n - 1) as u64,
                        log_offset: last.0,
                        state: copy_bytes(last.1.as_slice()),
                    },
                ),
            )
        }
    }
}

} // verus!
