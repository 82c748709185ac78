use vstd::bytes::{spec_u64_to_le_bytes, u64_from_le_bytes, u64_to_le_bytes};
use vstd::prelude::*;

verus! {

/// A value that the engine can persist: it has a mathematical model, a
/// deterministic byte encoding, and an explicit copy operation. Both command
/// payloads and system states implement this trait; the encoding is what the
/// durable log and the snapshot store hold on disk.
pub trait Persistent: Sized {
    /// The mathematical model of the value, used by every contract that
    /// speaks about it.
    type Model;

    /// The model of this value.
    spec fn model(&self) -> Self::Model;

    /// The deterministic byte encoding of this value. For a given logical
    /// value the encoding never varies, so a value can be re-read verbatim
    /// during replay.
    spec fn encoding(&self) -> Seq<u8>;

    /// Encode the value for durable storage.
    fn encode(&self) -> (r: Vec<u8>)
        ensures
            r@ == self.encoding(),
    ;

    /// Decode a value from bytes. Succeeds exactly on byte strings that are
    /// the encoding of some value, and then returns a value with that very
    /// encoding.
    fn decode(bytes: &[u8]) -> (r: Option<Self>)
        ensures
            r matches Some(v) ==> v.encoding() == bytes@,
            r is None ==> forall|v: Self| v.encoding() != bytes@,
    ;

    /// An explicit copy that preserves the model and the encoding.
    fn duplicate(&self) -> (r: Self)
        ensures
            r.model() == self.model(),
            r.encoding() == self.encoding(),
    ;

    /// The encoding determines the model: two values that encode to the same
    /// bytes mean the same thing. Together with the contract of `decode`,
    /// this makes deserialization a perfect inverse of serialization.
    proof fn lemma_encoding_injective(a: Self, b: Self)
        requires
            a.encoding() == b.encoding(),
        ensures
            a.model() == b.model(),
    ;
}

/// True of byte strings that are the encoding of some value of `T`.
pub open spec fn is_encoding_of<T: Persistent>(bytes: Seq<u8>) -> bool {
    exists|v: T| v.encoding() == bytes
}

/// The model of the value that `bytes` encodes. Meaningful only when
/// `is_encoding_of::<T>(bytes)` holds; by `Persistent::lemma_encoding_injective`
/// it is then uniquely determined.
pub open spec fn decoded_model<T: Persistent>(bytes: Seq<u8>) -> T::Model {
    (choose|v: T| v.encoding() == bytes).model()
}

/// Any decodable value has the model named by `decoded_model`.
pub proof fn lemma_decoded_model<T: Persistent>(v: T)
    ensures
        is_encoding_of::<T>(v.encoding()),
        decoded_model::<T>(v.encoding()) == v.model(),
{
    let w = choose|w: T| w.encoding() == v.encoding();
    T::lemma_encoding_injective(w, v);
}

/// This trait must be implemented by every command. A command is an
/// immutable, serializable value representing one requested state
/// transition; its transition is a pure function of the command and the old
/// state, because it will be re-executed verbatim during replay.
pub trait Command: Persistent {
    /// The type of the state the command transitions. This must correspond
    /// to the state type of the `Madeleine` instance the command is given to.
    type SystemState: Persistent;

    /// The state transition the command denotes, stated on models. It
    /// depends only on the command's model, so any value decoded from the
    /// command's encoding performs the very same transition.
    spec fn transition(
        cmd: Self::Model,
        old_state: <Self::SystemState as Persistent>::Model,
    ) -> <Self::SystemState as Persistent>::Model;

    /// Core logic for a command, left to the implementor to specify. By
    /// contract it cannot fail: any failure belongs to logging or
    /// serialization, never to business logic.
    fn execute(&self, old_state: Self::SystemState) -> (r: Self::SystemState)
        ensures
            r.model() == Self::transition(self.model(), old_state.model()),
    ;
}

/// The simplest persistent state: a bare counter register. Its model is the
/// number itself and its encoding is the number's eight little-endian bytes.
impl Persistent for u64 {
    type Model = u64;

    open spec fn model(&self) -> u64 {
        *self
    }

    open spec fn encoding(&self) -> Seq<u8> {
        spec_u64_to_le_bytes(*self)
    }

    fn encode(&self) -> (r: Vec<u8>) {
        u64_to_le_bytes(*self)
    }

    fn decode(bytes: &[u8]) -> (r: Option<u64>) {
        proof {
            vstd::bytes::lemma_auto_spec_u64_to_from_le_bytes();
        }
        if bytes.len() == 8 {
            Some(u64_from_le_bytes(bytes))
        } else {
            None
        }
    }

    fn duplicate(&self) -> (r: u64) {
        *self
    }

    proof fn lemma_encoding_injective(a: u64, b: u64) {
        vstd::bytes::lemma_auto_spec_u64_to_from_le_bytes();
    }
}

} // verus!
