use vstd::prelude::*;

use crate::command::{decoded_model, is_encoding_of, lemma_decoded_model, Command, Persistent};

verus! {

/// The state model reached by folding one log record into a state model:
/// the record is decoded and its transition applied.
pub open spec fn apply_record<C: Command>(
    state: <C::SystemState as Persistent>::Model,
    record: Seq<u8>,
) -> <C::SystemState as Persistent>::Model {
    C::transition(decoded_model::<C>(record), state)
}

/// The state model reached by folding every given log record, in increasing
/// sequence order, into `init`. Replay is a function of the starting state
/// and the records alone: this is what makes recovery deterministic.
pub open spec fn replay<C: Command>(
    init: <C::SystemState as Persistent>::Model,
    records: Seq<Seq<u8>>,
) -> <C::SystemState as Persistent>::Model
    decreases records.len(),
{
    if records.len() == 0 {
        init
    } else {
        apply_record::<C>(replay::<C>(init, records.drop_last()), records.last())
    }
}

/// The state model reached by executing the given commands, in order,
/// starting from `init`.
pub open spec fn apply_all<C: Command>(
    init: <C::SystemState as Persistent>::Model,
    commands: Seq<C>,
) -> <C::SystemState as Persistent>::Model
    decreases commands.len(),
{
    if commands.len() == 0 {
        init
    } else {
        C::transition(commands.last().model(), apply_all::<C>(init, commands.drop_last()))
    }
}

/// The suffix of the log from sequence number `start` on; empty when `start`
/// lies past the end of the log.
pub open spec fn records_from(records: Seq<Seq<u8>>, start: int) -> Seq<Seq<u8>> {
    if 0 <= start <= records.len() {
        records.subrange(start, records.len() as int)
    } else {
        Seq::empty()
    }
}

/// Round-trip law: a command decoded from another command's encoding means
/// the same thing, so executing it against any state produces the same
/// result as executing the original.
pub proof fn lemma_round_trip<C: Command>(
    c: C,
    d: C,
    state: <C::SystemState as Persistent>::Model,
)
    requires
        d.encoding() == c.encoding(),
    ensures
        d.model() == c.model(),
        C::transition(d.model(), state) == C::transition(c.model(), state),
{
    C::lemma_encoding_injective(c, d);
}

/// Replay determinism: replaying the encodings of a command sequence
/// reconstructs exactly the state that executing those commands produced.
pub proof fn lemma_replay_reconstructs<C: Command>(
    init: <C::SystemState as Persistent>::Model,
    commands: Seq<C>,
)
    ensures
        replay::<C>(init, commands.map_values(|c: C| c.encoding())) == apply_all::<C>(
            init,
            commands,
        ),
    decreases commands.len(),
{
    let records = commands.map_values(|c: C| c.encoding());
    if commands.len() == 0 {
        assert(records.len() == 0);
    } else {
        let front = commands.drop_last();
        lemma_replay_reconstructs::<C>(init, front);
        assert(records.drop_last() =~= front.map_values(|c: C| c.encoding()));
        let c = commands.last();
        lemma_decoded_model::<C>(c);
        assert(records.last() == c.encoding());
    }
}

/// Snapshot-plus-replay equivalence: folding the records after position `k`
/// into the state that the first `k` records produce reconstructs the same
/// state as folding every record directly.
pub proof fn lemma_snapshot_replay_equivalence<C: Command>(
    init: <C::SystemState as Persistent>::Model,
    records: Seq<Seq<u8>>,
    k: int,
)
    requires
        0 <= k <= records.len(),
    ensures
        replay::<C>(
            replay::<C>(init, records.subrange(0, k)),
            records.subrange(k, records.len() as int),
        ) == replay::<C>(init, records),
    decreases records.len(),
{
    let n = records.len() as int;
    if k == n {
        assert(records.subrange(0, k) =~= records);
        assert(records.subrange(k, n) =~= Seq::<Seq<u8>>::empty());
    } else {
        let front = records.drop_last();
        lemma_snapshot_replay_equivalence::<C>(init, front, k);
        assert(front.subrange(0, k) =~= records.subrange(0, k));
        assert(records.subrange(k, n).drop_last() =~= front.subrange(k, n - 1));
        assert(records.subrange(k, n).last() == records.last());
        assert(records.subrange(k, n).len() > 0);
    }
}

} // verus!
