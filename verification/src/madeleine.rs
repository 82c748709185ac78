use vstd::prelude::*;

use crate::command::{decoded_model, is_encoding_of, lemma_decoded_model, Command, Persistent};
use crate::command_log::DurableLog;
use crate::madeleine_error::MadeleineError;
use crate::replay::{records_from, replay};
use crate::snapshot::SnapshotStore;

verus! {

/// The sequence number at which replay starts for a store in the given
/// state: right after the offset of the latest snapshot, or at the first
/// record when no snapshot was ever taken.
pub open spec fn resume_start(snapshots: Seq<(u64, Seq<u8>)>) -> int {
    if snapshots.len() == 0 {
        0
    } else {
        snapshots.last().0 + 1
    }
}

/// Top-level struct providing the public interface for transparent object
/// persistence. It owns the current state exclusively and coordinates
/// "append, then apply" as one logical operation: a transition is applied
/// to the in-memory state only after the command that produced it is
/// durably logged, so after any crash every effect visible in memory has a
/// corresponding durable record. Taking the engine `&mut` for every
/// mutation is the single-writer discipline: at most one transition is in
/// flight at a time.
pub struct Madeleine<S: Persistent, L: DurableLog, P: SnapshotStore> {
    command_log: L,
    snapshot_store: P,
    internal_state: S,
}

impl<S: Persistent, L: DurableLog, P: SnapshotStore> Madeleine<S, L, P> {
    /// The committed in-memory state.
    pub closed spec fn committed(&self) -> S {
        self.internal_state
    }

    /// The model of the committed state.
    pub open spec fn state_model(&self) -> S::Model {
        self.committed().model()
    }

    /// The records of the engine's durable log.
    pub closed spec fn log_view(&self) -> Seq<Seq<u8>> {
        self.command_log.records()
    }

    /// The checkpoints of the engine's snapshot store.
    pub closed spec fn snapshots_view(&self) -> Seq<(u64, Seq<u8>)> {
        self.snapshot_store.snapshots()
    }

    /// Generalized constructor: takes ownership of the durable log and the
    /// snapshot store, builds the initial state with `constructor`, and
    /// starts running.
    pub fn new<F: FnOnce() -> S>(command_log: L, snapshot_store: P, constructor: F) -> (r: Self)
        requires
            constructor.requires(()),
        ensures
            r.log_view() == command_log.records(),
            r.snapshots_view() == snapshot_store.snapshots(),
            constructor.ensures((), r.committed()),
    {
        let internal_state = constructor();
        Madeleine { command_log, snapshot_store, internal_state }
    }

    /// The critical path: serialize the command, durably append it to the
    /// log, and only after the append succeeded apply the transition and
    /// replace the committed state. A failed append leaves the in-memory
    /// state untouched, so no effect is ever visible in memory without a
    /// durable record for it. Returns the assigned sequence number.
    pub fn execute_command<C: Command<SystemState = S>>(&mut self, command: C) -> (r: Result<
        u64,
        MadeleineError,
    >)
        ensures
            r matches Ok(seq) ==> {
                &&& final(self).log_view() == old(self).log_view().push(command.encoding())
                &&& seq as nat == old(self).log_view().len()
                &&& final(self).state_model() == C::transition(
                    command.model(),
                    old(self).state_model(),
                )
                &&& final(self).snapshots_view() == old(self).snapshots_view()
            },
            r matches Err(e) ==> {
                &&& final(self).log_view() == old(self).log_view()
                &&& final(self).committed() == old(self).committed()
                &&& final(self).snapshots_view() == old(self).snapshots_view()
                &&& (e is StorageFailure || e is SerializationFailure)
            },
    {
        let encoded = command.encode();
        match self.command_log.append(encoded.as_slice()) {
            Ok(seq) => {
                let current = self.internal_state.duplicate();
                let next = command.execute(current);
                self.internal_state = next;
                Ok(seq)
            },
            Err(e) => Err(e),
        }
    }

    /// A consistent point-in-time view of the current state: an explicit
    /// copy of the committed value. Reads are idempotent: with no
    /// intervening `execute_command`, repeated calls return values with the
    /// same model and encoding, because each returns exactly the committed
    /// state.
    pub fn tap(&self) -> (r: S)
        ensures
            r.model() == self.state_model(),
            r.encoding() == self.committed().encoding(),
    {
        self.internal_state.duplicate()
    }

    /// Terminal operation: consume the engine and yield ownership of the
    /// current state, releasing the log and snapshot resources.
    pub fn into_inner(self) -> (r: S)
        ensures
            r == self.committed(),
    {
        self.internal_state
    }

    /// The length of the command history.
    pub fn len(&self) -> (r: Result<u64, MadeleineError>)
        ensures
            r matches Ok(n) ==> n as nat == self.log_view().len(),
            r matches Err(e) ==> e is StorageFailure,
    {
        self.command_log.len()
    }

    /// Whether the command history is empty.
    pub fn is_empty(&self) -> (r: Result<bool, MadeleineError>)
        ensures
            r matches Ok(b) ==> (b <==> self.log_view().len() == 0),
            r matches Err(e) ==> e is StorageFailure,
    {
        match self.command_log.len() {
            Ok(n) => Ok(n == 0),
            Err(e) => Err(e),
        }
    }

    /// Capture the committed state together with the sequence number of the
    /// last log record reflected in it, and write it to the snapshot store.
    /// Does not mutate the state and does not truncate the log. With an
    /// empty log there is no last record to name, so nothing is written and
    /// the call fails closed.
    pub fn take_snapshot(&mut self) -> (r: Result<u64, MadeleineError>)
        ensures
            final(self).committed() == old(self).committed(),
            final(self).log_view() == old(self).log_view(),
            r matches Ok(id) ==> {
                &&& old(self).log_view().len() > 0
                &&& final(self).snapshots_view() == old(self).snapshots_view().push(
                    (
                        ((old(self).log_view().len() - 1) as u64),
                        old(self).committed().encoding(),
                    ),
                )
                &&& id as nat == old(self).snapshots_view().len()
            },
            r matches Err(e) ==> {
                &&& final(self).snapshots_view() == old(self).snapshots_view()
                &&& (e is SnapshotFailure || e is StorageFailure)
            },
            old(self).log_view().len() == 0 ==> r is Err,
    {
        let n = match self.command_log.len() {
            Ok(n) => n,
            Err(e) => {
                return Err(e);
            },
        };
        if n == 0 {
            return Err(MadeleineError::SnapshotFailure);
        }
        let state_bytes = self.internal_state.encode();
        self.snapshot_store.write(n - 1, state_bytes.as_slice())
    }

    /// The recovery protocol: seed the state from the latest snapshot (or
    /// from `default` when none exists), then fold in every log record past
    /// the snapshot's offset, in increasing sequence order, exactly
    /// reproducing the original update order. Replayed commands are not
    /// re-appended. A record that cannot be decoded is fatal and is named
    /// by sequence number; there is no partial recovery.
    pub fn resume<C: Command<SystemState = S>, F: FnOnce() -> S>(
        command_log: L,
        snapshot_store: P,
        default: F,
    ) -> (r: Result<Self, MadeleineError>)
        requires
            default.requires(()),
        ensures
            r matches Ok(eng) ==> {
                &&& eng.log_view() == command_log.records()
                &&& eng.snapshots_view() == snapshot_store.snapshots()
                &&& forall|j: int|
                    resume_start(snapshot_store.snapshots()) <= j < command_log.records().len()
                        ==> is_encoding_of::<C>(#[trigger] command_log.records()[j])
                &&& (if snapshot_store.snapshots().len() == 0 {
                    exists|seed: S|
                        {
                            &&& #[trigger] default.ensures((), seed)
                            &&& eng.state_model() == replay::<C>(
                                seed.model(),
                                records_from(command_log.records(), 0),
                            )
                        }
                } else {
                    {
                        let last = snapshot_store.snapshots().last();
                        &&& is_encoding_of::<S>(last.1)
                        &&& eng.state_model() == replay::<C>(
                            decoded_model::<S>(last.1),
                            records_from(command_log.records(), last.0 + 1),
                        )
                    }
                })
            },
            snapshot_store.snapshots().len() > 0 && snapshot_store.snapshots().last().0
                == u64::MAX ==> r is Err,
            r matches Err(MadeleineError::ReplayFailure(i)) ==> {
                let start = resume_start(snapshot_store.snapshots());
                &&& start <= i as int
                &&& (i as int) < command_log.records().len()
                &&& !is_encoding_of::<C>(command_log.records()[i as int])
                &&& forall|j: int|
                    start <= j < i as int ==> is_encoding_of::<C>(
                        #[trigger] command_log.records()[j],
                    )
            },
    {
        let latest = match snapshot_store.read_latest() {
            Ok(x) => x,
            Err(e) => {
                return Err(e);
            },
        };
        let (seed, start): (S, u64) = match latest {
            Some(snap) => {
                if snap.log_offset == u64::MAX {
                    return Err(MadeleineError::SnapshotFailure);
                }
                match S::decode(snap.state.as_slice()) {
                    Some(s) => (s, snap.log_offset + 1),
                    None => {
                        return Err(MadeleineError::SnapshotFailure);
                    },
                }
            },
            None => (default(), 0),
        };
        proof {
            lemma_decoded_model::<S>(seed);
        }
        let n = match command_log.len() {
            Ok(n) => n,
            Err(e) => {
                return Err(e);
            },
        };
        let tail = match command_log.read_from(start) {
            Ok(v) => v,
            Err(e) => {
                return Err(e);
            },
        };
        let ghost seed_model = seed.model();
        let ghost recs = command_log.records();
        let mut state = seed;
        let mut idx: usize = 0;
        while idx < tail.len()
            invariant
                tail.deep_view() == records_from(recs, start as int),
                recs == command_log.records(),
                start as int == resume_start(snapshot_store.snapshots()),
                n as nat == recs.len(),
                idx as int <= tail.deep_view().len(),
                state.model() == replay::<C>(seed_model, tail.deep_view().take(idx as int)),
                forall|j: int|
                    0 <= j < idx as int ==> is_encoding_of::<C>(#[trigger] tail.deep_view()[j]),
            decreases tail.len() - idx,
        {
            proof {
                assert(tail.deep_view().len() == tail@.len());
                assert(tail.deep_view()[idx as int] == tail@[idx as int]@);
            }
            match C::decode(tail[idx].as_slice()) {
                Some(cmd) => {
                    proof {
                        lemma_decoded_model::<C>(cmd);
                        assert(tail.deep_view().take(idx as int + 1).drop_last() =~~= tail
                            .deep_view().take(idx as int));
                        assert(tail.deep_view().take(idx as int + 1).last() == tail.deep_view()[idx as int]);
                    }
                    state = cmd.execute(state);
                },
                None => {
                    proof {
                        let s = start as int;
                        assert(records_from(recs, start as int).len() > 0);
                        assert((start as int + idx as int) < recs.len());
                        assert(recs[s + idx as int] == tail.deep_view()[idx as int]);
                        assert forall|j: int| s <= j < s + idx as int implies is_encoding_of::<
                            C,
                        >(#[trigger] recs[j]) by {
                            assert(recs[j] == tail.deep_view()[j - s]);
                            assert(is_encoding_of::<C>(tail.deep_view()[j - s]));
                        }
                    }
                    return Err(MadeleineError::ReplayFailure(start + idx as u64));
                },
            }
            idx += 1;
        }
        proof {
            assert(tail.deep_view().take(tail.deep_view().len() as int) =~~= tail.deep_view());
            assert forall|j: int|
                start as int <= j < recs.len() implies is_encoding_of::<C>(
                #[trigger] recs[j],
            ) by {
                assert(recs[j] == tail.deep_view()[j - start as int]);
            }
        }
        Ok(Madeleine { command_log, snapshot_store, internal_state: state })
    }
}

} // verus!
