use vstd::bytes::{
    lemma_auto_spec_u64_to_from_le_bytes, spec_u64_to_le_bytes, u64_from_le_bytes, u64_to_le_bytes,
};
use vstd::pervasive::VecAdditionalExecFns;
use vstd::prelude::*;
use vstd::slice::{slice_index_get, slice_subrange, slice_to_vec};

use crate::command::{Command, Persistent};

verus! {

/// Addition that stops at the largest representable value.
pub open spec fn sat_add(a: u64, b: u64) -> u64 {
    if a + b > u64::MAX {
        u64::MAX
    } else {
        (a + b) as u64
    }
}

/// Subtraction that stops at zero.
pub open spec fn sat_sub(a: u64, b: u64) -> u64 {
    if a >= b {
        (a - b) as u64
    } else {
        0
    }
}

fn add_saturating(a: u64, b: u64) -> (r: u64)
    ensures
        r == sat_add(a, b),
{
    if a > u64::MAX - b {
        u64::MAX
    } else {
        a + b
    }
}

fn sub_saturating(a: u64, b: u64) -> (r: u64)
    ensures
        r == sat_sub(a, b),
{
    if a >= b {
        a - b
    } else {
        0
    }
}

/// An exact copy of a byte slice.
fn copy_bytes(bytes: &[u8]) -> (r: Vec<u8>)
    ensures
        r@ == bytes@,
{
    slice_to_vec(bytes)
}

/// Whether two byte slices hold the same bytes.
fn bytes_eq(a: &[u8], b: &[u8]) -> (r: bool)
    ensures
        r <==> a@ == b@,
{
    if a.len() != b.len() {
        proof {
            assert(a@ != b@);
        }
        return false;
    }
    let n = a.len();
    let mut i: usize = 0;
    while i < n
        invariant
            i <= n,
            n == a@.len() && n == b@.len(),
            forall|j: int| 0 <= j < i as int ==> a@[j] == b@[j],
        decreases n - i,
    {
        if *slice_index_get(a, i) != *slice_index_get(b, i) {
            proof {
                assert(a@[i as int] != b@[i as int]);
            }
            return false;
        }
        i += 1;
    }
    proof {
        assert(a@ =~= b@);
    }
    true
}

/// One tallied key together with its current count.
pub struct Entry {
    key: Vec<u8>,
    value: u64,
}

/// A tally of counters keyed by byte strings: the reference system state
/// shipped with the library. Its model is a map from key to count; when a
/// key occurs more than once among the entries, the earliest occurrence
/// wins.
pub struct CounterState {
    entries: Vec<Entry>,
}

/// The map denoted by a sequence of key/count pairs, earliest pair winning.
pub open spec fn counter_map(entries: Seq<(Seq<u8>, u64)>) -> Map<Seq<u8>, u64>
    decreases entries.len(),
{
    if entries.len() == 0 {
        Map::empty()
    } else {
        counter_map(entries.drop_first()).insert(entries.first().0, entries.first().1)
    }
}

/// The count a map gives a key, with absent keys counting as zero.
pub open spec fn lookup_or_zero(m: Map<Seq<u8>, u64>, key: Seq<u8>) -> u64 {
    if m.contains_key(key) {
        m[key]
    } else {
        0
    }
}

/// The position of the earliest pair holding `key`, or the sequence's
/// length when no pair holds it.
spec fn key_index(entries: Seq<(Seq<u8>, u64)>, key: Seq<u8>) -> int
    decreases entries.len(),
{
    if entries.len() == 0 {
        0
    } else if entries.first().0 == key {
        0
    } else {
        1 + key_index(entries.drop_first(), key)
    }
}

proof fn lemma_key_index(entries: Seq<(Seq<u8>, u64)>, key: Seq<u8>)
    ensures
        0 <= key_index(entries, key) <= entries.len(),
        key_index(entries, key) < entries.len() ==> entries[key_index(entries, key)].0 == key,
        forall|j: int| 0 <= j < key_index(entries, key) ==> entries[j].0 != key,
    decreases entries.len(),
{
    if entries.len() > 0 && entries.first().0 != key {
        lemma_key_index(entries.drop_first(), key);
        assert forall|j: int| 0 <= j < key_index(entries, key) implies entries[j].0 != key by {
            if j == 0 {
                assert(entries[0] == entries.first());
            } else {
                assert(entries.drop_first()[j - 1] == entries[j]);
            }
        }
    }
}

proof fn lemma_counter_map_key_index(entries: Seq<(Seq<u8>, u64)>, key: Seq<u8>)
    ensures
        counter_map(entries).contains_key(key) <==> key_index(entries, key) < entries.len(),
        key_index(entries, key) < entries.len() ==> counter_map(entries)[key] == entries[key_index(
            entries,
            key,
        )].1,
    decreases entries.len(),
{
    if entries.len() > 0 {
        let tail = entries.drop_first();
        lemma_counter_map_key_index(tail, key);
        lemma_key_index(entries, key);
        if entries.first().0 != key {
            let ki = key_index(tail, key);
            assert(key_index(entries, key) == 1 + ki);
            if ki < tail.len() {
                assert(tail[ki] == entries[ki + 1]);
            }
        } else {
            assert(entries[0] == entries.first());
        }
    }
}

/// Updating the earliest pair that holds a key updates exactly that key in
/// the map.
proof fn lemma_counter_map_update(entries: Seq<(Seq<u8>, u64)>, key: Seq<u8>, value: u64)
    requires
        key_index(entries, key) < entries.len(),
    ensures
        counter_map(entries.update(key_index(entries, key), (key, value))) == counter_map(
            entries,
        ).insert(key, value),
    decreases entries.len(),
{
    lemma_key_index(entries, key);
    let i = key_index(entries, key);
    let updated = entries.update(i, (key, value));
    if i == 0 {
        assert(updated.drop_first() =~= entries.drop_first());
        assert(updated.first() == (key, value));
        assert(counter_map(updated) =~= counter_map(entries).insert(key, value));
    } else {
        lemma_counter_map_update(entries.drop_first(), key, value);
        assert(key_index(entries.drop_first(), key) == i - 1);
        assert(updated.drop_first() =~= entries.drop_first().update(i - 1, (key, value)));
        assert(updated.first() == entries.first());
        assert(counter_map(updated) =~= counter_map(entries).insert(key, value));
    }
}

/// Appending a pair whose key no earlier pair holds adds exactly that key
/// to the map.
proof fn lemma_counter_map_push(entries: Seq<(Seq<u8>, u64)>, key: Seq<u8>, value: u64)
    requires
        key_index(entries, key) == entries.len(),
    ensures
        counter_map(entries.push((key, value))) == counter_map(entries).insert(key, value),
    decreases entries.len(),
{
    lemma_key_index(entries, key);
    let pushed = entries.push((key, value));
    if entries.len() == 0 {
        let empty = Seq::<(Seq<u8>, u64)>::empty();
        assert(pushed.len() == 1);
        assert(pushed.first() == (key, value));
        assert(pushed.drop_first() =~= empty);
        assert(counter_map(empty) == Map::<Seq<u8>, u64>::empty());
        assert(counter_map(pushed) == counter_map(empty).insert(key, value));
        assert(counter_map(pushed) =~= counter_map(entries).insert(key, value));
    } else {
        lemma_counter_map_push(entries.drop_first(), key, value);
        assert(key_index(entries.drop_first(), key) == entries.drop_first().len());
        assert(pushed.drop_first() =~= entries.drop_first().push((key, value)));
        assert(pushed.first() == entries.first());
        assert(entries.first().0 != key);
        assert(counter_map(pushed) =~= counter_map(entries).insert(key, value));
    }
}

spec fn entry_pairs(entries: Seq<Entry>) -> Seq<(Seq<u8>, u64)> {
    Seq::new(entries.len(), |i: int| (entries[i].key@, entries[i].value))
}

impl CounterState {
    /// The entries as key/count pairs, in order.
    pub closed spec fn entries_view(&self) -> Seq<(Seq<u8>, u64)> {
        entry_pairs(self.entries@)
    }

    /// An empty tally.
    pub fn new() -> (r: CounterState)
        ensures
            r.model() == Map::<Seq<u8>, u64>::empty(),
    {
        let r = CounterState { entries: Vec::new() };
        proof {
            assert(r.entries_view() =~= Seq::<(Seq<u8>, u64)>::empty());
        }
        r
    }

    /// The position of the earliest entry holding `key`, if any.
    fn find_key(&self, key: &[u8]) -> (r: Option<usize>)
        ensures
            match r {
                Some(i) => i as int == key_index(self.entries_view(), key@) && (i as int)
                    < self.entries_view().len(),
                None => key_index(self.entries_view(), key@) == self.entries_view().len(),
            },
    {
        proof {
            lemma_key_index(self.entries_view(), key@);
        }
        let n = self.entries.len();
        let mut i: usize = 0;
        while i < n
            invariant
                i <= n,
                n == self.entries_view().len(),
                forall|j: int| 0 <= j < i as int ==> self.entries_view()[j].0 != key@,
            decreases n - i,
        {
            if bytes_eq(self.entries[i].key.as_slice(), key) {
                proof {
                    lemma_key_index(self.entries_view(), key@);
                    assert(self.entries_view()[i as int].0 == key@);
                }
                return Some(i);
            }
            i += 1;
        }
        proof {
            lemma_key_index(self.entries_view(), key@);
        }
        None
    }

    /// The count the tally holds for `key`, if the key was ever touched.
    pub fn get(&self, key: &[u8]) -> (r: Option<u64>)
        ensures
            r == (if self.model().contains_key(key@) {
                Some(self.model()[key@])
            } else {
                Option::<u64>::None
            }),
    {
        proof {
            lemma_counter_map_key_index(self.entries_view(), key@);
        }
        match self.find_key(key) {
            Some(i) => Some(self.entries[i].value),
            None => None,
        }
    }

    /// Move the count of `key` by `amount`, upward or downward, saturating
    /// at the ends of the range; an untouched key counts as zero.
    fn adjust(self, key: &[u8], amount: u64, up: bool) -> (r: CounterState)
        ensures
            counter_map(r.entries_view()) == counter_map(self.entries_view()).insert(
                key@,
                if up {
                    sat_add(lookup_or_zero(counter_map(self.entries_view()), key@), amount)
                } else {
                    sat_sub(lookup_or_zero(counter_map(self.entries_view()), key@), amount)
                },
            ),
    {
        proof {
            lemma_counter_map_key_index(self.entries_view(), key@);
        }
        let mut s = self;
        match s.find_key(key) {
            Some(i) => {
                let old_value = s.entries[i].value;
                let value = if up {
                    add_saturating(old_value, amount)
                } else {
                    sub_saturating(old_value, amount)
                };
                proof {
                    lemma_counter_map_update(s.entries_view(), key@, value);
                }
                let ghost prev = s.entries_view();
                s.entries.set(i, Entry { key: copy_bytes(key), value });
                proof {
                    assert(s.entries_view() =~~= prev.update(i as int, (key@, value)));
                }
                s
            },
            None => {
                let value = if up {
                    amount
                } else {
                    0
                };
                proof {
                    lemma_counter_map_push(s.entries_view(), key@, value);
                }
                let ghost prev = s.entries_view();
                s.entries.push(Entry { key: copy_bytes(key), value });
                proof {
                    assert(s.entries_view() =~~= prev.push((key@, value)));
                }
                s
            },
        }
    }
}

/// The byte encoding of one entry: the key's length, the key's bytes, then
/// the count, with both numbers as eight little-endian bytes.
pub open spec fn entry_bytes(e: (Seq<u8>, u64)) -> Seq<u8> {
    spec_u64_to_le_bytes(e.0.len() as u64) + e.0 + spec_u64_to_le_bytes(e.1)
}

/// The byte encoding of a sequence of entries, in order.
pub open spec fn entries_bytes(entries: Seq<(Seq<u8>, u64)>) -> Seq<u8>
    decreases entries.len(),
{
    if entries.len() == 0 {
        Seq::empty()
    } else {
        entry_bytes(entries.first()) + entries_bytes(entries.drop_first())
    }
}

/// Whether every key's length fits the encoding's length field. Keys held
/// in a vector always do.
spec fn keys_bounded(entries: Seq<(Seq<u8>, u64)>) -> bool {
    forall|i: int| 0 <= i < entries.len() ==> (#[trigger] entries[i]).0.len() <= u64::MAX
}

proof fn lemma_entry_bytes_len(e: (Seq<u8>, u64))
    ensures
        entry_bytes(e).len() == 16 + e.0.len(),
{
    lemma_auto_spec_u64_to_from_le_bytes();
}

proof fn lemma_entries_bytes_concat(a: Seq<(Seq<u8>, u64)>, b: Seq<(Seq<u8>, u64)>)
    ensures
        entries_bytes(a + b) == entries_bytes(a) + entries_bytes(b),
    decreases a.len(),
{
    if a.len() == 0 {
        assert(a + b =~= b);
        assert(entries_bytes(a) + entries_bytes(b) =~= entries_bytes(b));
    } else {
        assert((a + b).len() > 0);
        assert((a + b).first() == a.first());
        assert((a + b).drop_first() =~= a.drop_first() + b);
        lemma_entries_bytes_concat(a.drop_first(), b);
        assert((entry_bytes(a.first()) + (entries_bytes(a.drop_first()) + entries_bytes(b))) =~= (
        (entry_bytes(a.first()) + entries_bytes(a.drop_first())) + entries_bytes(b)));
    }
}

proof fn lemma_entries_bytes_push(entries: Seq<(Seq<u8>, u64)>, e: (Seq<u8>, u64))
    ensures
        entries_bytes(entries.push(e)) == entries_bytes(entries) + entry_bytes(e),
{
    let single = seq![e];
    assert(entries.push(e) =~= entries + single);
    lemma_entries_bytes_concat(entries, single);
    assert(single.first() == e);
    assert(single.drop_first() =~= Seq::<(Seq<u8>, u64)>::empty());
    assert(entries_bytes(Seq::<(Seq<u8>, u64)>::empty()) == Seq::<u8>::empty());
    assert(entry_bytes(e) + Seq::<u8>::empty() =~= entry_bytes(e));
    assert(entries_bytes(single) =~= entry_bytes(e));
}

/// One entry's encoding determines the entry and what follows it: the
/// encoding is self-delimiting.
proof fn lemma_entry_bytes_prefix(a: (Seq<u8>, u64), b: (Seq<u8>, u64), ra: Seq<u8>, rb: Seq<u8>)
    requires
        a.0.len() <= u64::MAX,
        b.0.len() <= u64::MAX,
        entry_bytes(a) + ra == entry_bytes(b) + rb,
    ensures
        a == b,
        ra == rb,
{
    lemma_auto_spec_u64_to_from_le_bytes();
    lemma_entry_bytes_len(a);
    lemma_entry_bytes_len(b);
    let s = entry_bytes(a) + ra;
    assert(s.subrange(0, 8) =~= spec_u64_to_le_bytes(a.0.len() as u64));
    assert(s.subrange(0, 8) =~= spec_u64_to_le_bytes(b.0.len() as u64));
    assert(a.0.len() as u64 == b.0.len() as u64);
    assert(a.0.len() == b.0.len());
    let la = a.0.len() as int;
    assert(a.0 =~= s.subrange(8, 8 + la));
    assert(b.0 =~= s.subrange(8, 8 + la));
    assert(spec_u64_to_le_bytes(a.1) =~= s.subrange(8 + la, 16 + la));
    assert(spec_u64_to_le_bytes(b.1) =~= s.subrange(8 + la, 16 + la));
    assert(a.1 == b.1);
    assert(a == b);
    assert(ra =~= s.subrange(16 + la, s.len() as int));
    assert(rb =~= s.subrange(16 + la, s.len() as int));
}

/// A parsed prefix of entries is forced: any entry sequence whose encoding
/// extends the prefix's encoding starts with exactly the prefix.
proof fn lemma_entries_bytes_cancel(
    prefix: Seq<(Seq<u8>, u64)>,
    whole: Seq<(Seq<u8>, u64)>,
    rest: Seq<u8>,
)
    requires
        keys_bounded(prefix),
        keys_bounded(whole),
        entries_bytes(whole) == entries_bytes(prefix) + rest,
    ensures
        whole.len() >= prefix.len(),
        whole.take(prefix.len() as int) == prefix,
        entries_bytes(whole.skip(prefix.len() as int)) == rest,
    decreases prefix.len(),
{
    if prefix.len() == 0 {
        assert(entries_bytes(prefix) + rest =~= rest);
        assert(whole.take(0) =~= prefix);
        assert(whole.skip(0) =~= whole);
    } else {
        lemma_entry_bytes_len(prefix.first());
        if whole.len() == 0 {
            assert(entries_bytes(whole).len() == 0);
            assert(entries_bytes(prefix).len() >= 16);
            assert(false);
        }
        lemma_entry_bytes_len(whole.first());
        assert((entry_bytes(prefix.first()) + entries_bytes(prefix.drop_first())) + rest =~= entry_bytes(
            prefix.first(),
        ) + (entries_bytes(prefix.drop_first()) + rest));
        lemma_entry_bytes_prefix(
            whole.first(),
            prefix.first(),
            entries_bytes(whole.drop_first()),
            entries_bytes(prefix.drop_first()) + rest,
        );
        assert forall|i: int|
            0 <= i < prefix.drop_first().len() implies (#[trigger] prefix.drop_first()[i]).0.len()
            <= u64::MAX by {
            assert(prefix.drop_first()[i] == prefix[i + 1]);
        }
        assert forall|i: int|
            0 <= i < whole.drop_first().len() implies (#[trigger] whole.drop_first()[i]).0.len()
            <= u64::MAX by {
            assert(whole.drop_first()[i] == whole[i + 1]);
        }
        lemma_entries_bytes_cancel(prefix.drop_first(), whole.drop_first(), rest);
        let p = prefix.len() as int;
        assert forall|i: int| 0 <= i < p implies whole.take(p)[i] == prefix[i] by {
            if i == 0 {
                assert(whole[0] == whole.first());
                assert(prefix[0] == prefix.first());
            } else {
                assert(whole.drop_first().take(p - 1)[i - 1] == prefix.drop_first()[i - 1]);
                assert(whole.drop_first()[i - 1] == whole[i]);
                assert(prefix.drop_first()[i - 1] == prefix[i]);
            }
        }
        assert(whole.take(p) =~= prefix);
        assert(whole.skip(p) =~= whole.drop_first().skip(p - 1));
    }
}

/// Every key held in a vector has a length the encoding's length field can
/// carry.
proof fn lemma_view_keys_bounded(s: CounterState)
    ensures
        keys_bounded(s.entries_view()),
{
    let sv = s.entries_view();
    assert forall|i: int| 0 <= i < sv.len() implies (#[trigger] sv[i]).0.len() <= u64::MAX by {
        let v = s.entries@[i].key;
        assert(vstd::std_specs::vec::spec_vec_len(&v) == v@.len());
    }
}

/// No byte string both parses as an entry list up to `pos` and then stops
/// short: when the remaining bytes cannot begin another entry, no entry
/// sequence at all encodes to the whole byte string.
proof fn lemma_no_state_parses(bytes: Seq<u8>, prefix: Seq<(Seq<u8>, u64)>, pos: int)
    requires
        keys_bounded(prefix),
        0 <= pos < bytes.len(),
        entries_bytes(prefix) == bytes.take(pos),
        bytes.len() - pos < 16 || vstd::bytes::spec_u64_from_le_bytes(
            bytes.subrange(pos, pos + 8),
        ) > bytes.len() - pos - 16,
    ensures
        forall|s: CounterState| s.encoding() != bytes,
{
    lemma_auto_spec_u64_to_from_le_bytes();
    assert forall|s: CounterState| s.encoding() != bytes by {
        if s.encoding() == bytes {
            let sv = s.entries_view();
            lemma_view_keys_bounded(s);
            assert(bytes =~= bytes.take(pos) + bytes.skip(pos));
            lemma_entries_bytes_cancel(prefix, sv, bytes.skip(pos));
            let suffix = sv.skip(prefix.len() as int);
            let rest = bytes.skip(pos);
            assert(rest.len() == bytes.len() - pos);
            assert(rest.len() > 0);
            if suffix.len() == 0 {
                assert(entries_bytes(suffix).len() == 0);
                assert(false);
            }
            let f = suffix.first();
            lemma_entry_bytes_len(f);
            assert(entries_bytes(suffix) == entry_bytes(f) + entries_bytes(suffix.drop_first()));
            assert(rest.len() >= 16 + f.0.len());
            assert(rest.subrange(0, 8) =~= spec_u64_to_le_bytes(f.0.len() as u64));
            assert(rest.subrange(0, 8) =~= bytes.subrange(pos, pos + 8));
            assert(keys_bounded(sv));
            assert(f.0.len() <= u64::MAX) by {
                assert(sv[prefix.len() as int] == f);
            }
            assert(vstd::bytes::spec_u64_from_le_bytes(bytes.subrange(pos, pos + 8)) == f.0.len());
            assert(false);
        }
    }
}

impl Persistent for CounterState {
    type Model = Map<Seq<u8>, u64>;

    closed spec fn model(&self) -> Map<Seq<u8>, u64> {
        counter_map(self.entries_view())
    }

    closed spec fn encoding(&self) -> Seq<u8> {
        entries_bytes(self.entries_view())
    }

    fn encode(&self) -> (r: Vec<u8>) {
        let n = self.entries.len();
        let mut out: Vec<u8> = Vec::new();
        let mut i: usize = 0;
        while i < n
            invariant
                i <= n,
                n == self.entries@.len(),
                out@ == entries_bytes(self.entries_view().take(i as int)),
            decreases n - i,
        {
            let ghost prev = out@;
            let entry = &self.entries[i];
            let mut piece = u64_to_le_bytes(entry.key.len() as u64);
            out.append(&mut piece);
            let mut key_piece = copy_bytes(entry.key.as_slice());
            out.append(&mut key_piece);
            let mut value_piece = u64_to_le_bytes(entry.value);
            out.append(&mut value_piece);
            proof {
                let ev = self.entries_view();
                assert(out@ =~= prev + entry_bytes(ev[i as int]));
                assert(ev.take(i as int + 1) =~= ev.take(i as int).push(ev[i as int]));
                lemma_entries_bytes_push(ev.take(i as int), ev[i as int]);
            }
            i += 1;
        }
        proof {
            assert(self.entries_view().take(n as int) =~= self.entries_view());
        }
        out
    }

    fn decode(bytes: &[u8]) -> (r: Option<CounterState>) {
        let total = bytes.len();
        let mut entries: Vec<Entry> = Vec::new();
        let mut pos: usize = 0;
        proof {
            assert(entry_pairs(entries@) =~= Seq::<(Seq<u8>, u64)>::empty());
            assert(bytes@.take(0) =~= Seq::<u8>::empty());
        }
        while pos < total
            invariant
                pos <= total,
                total == bytes@.len(),
                keys_bounded(entry_pairs(entries@)),
                entries_bytes(entry_pairs(entries@)) == bytes@.take(pos as int),
            decreases total - pos,
        {
            proof {
                lemma_auto_spec_u64_to_from_le_bytes();
            }
            if total - pos < 16 {
                proof {
                    lemma_no_state_parses(bytes@, entry_pairs(entries@), pos as int);
                }
                return None;
            }
            let klen64 = u64_from_le_bytes(slice_subrange(bytes, pos, pos + 8));
            let avail = total - pos - 16;
            if klen64 > avail as u64 {
                proof {
                    lemma_no_state_parses(bytes@, entry_pairs(entries@), pos as int);
                }
                return None;
            }
            let klen = klen64 as usize;
            let key = copy_bytes(slice_subrange(bytes, pos + 8, pos + 8 + klen));
            let value = u64_from_le_bytes(slice_subrange(bytes, pos + 8 + klen, pos + 16 + klen));
            let ghost prev = entry_pairs(entries@);
            let ghost entry_view = (key@, value);
            entries.push(Entry { key, value });
            proof {
                assert(entry_bytes(entry_view) =~= bytes@.subrange(
                    pos as int,
                    pos as int + 16 + klen as int,
                ));
                assert(entry_pairs(entries@) =~~= prev.push(entry_view));
                lemma_entries_bytes_push(prev, entry_view);
                assert(bytes@.take(pos as int + 16 + klen as int) =~= bytes@.take(pos as int)
                    + bytes@.subrange(pos as int, pos as int + 16 + klen as int));
            }
            pos = pos + 16 + klen;
        }
        proof {
            assert(bytes@.take(total as int) =~= bytes@);
        }
        Some(CounterState { entries })
    }

    fn duplicate(&self) -> (r: CounterState) {
        let n = self.entries.len();
        let mut entries: Vec<Entry> = Vec::new();
        let mut i: usize = 0;
        proof {
            assert(entry_pairs(entries@) =~= self.entries_view().take(0));
        }
        while i < n
            invariant
                i <= n,
                n == self.entries@.len(),
                entry_pairs(entries@) == self.entries_view().take(i as int),
            decreases n - i,
        {
            let ghost prev = entry_pairs(entries@);
            let entry = &self.entries[i];
            entries.push(Entry { key: copy_bytes(entry.key.as_slice()), value: entry.value });
            proof {
                let ev = self.entries_view();
                assert(entry_pairs(entries@) =~~= prev.push(ev[i as int]));
                assert(ev.take(i as int + 1) =~= ev.take(i as int).push(ev[i as int]));
            }
            i += 1;
        }
        proof {
            assert(self.entries_view().take(n as int) =~= self.entries_view());
        }
        CounterState { entries }
    }

    proof fn lemma_encoding_injective(a: CounterState, b: CounterState) {
        lemma_view_keys_bounded(a);
        lemma_view_keys_bounded(b);
        let av = a.entries_view();
        let bv = b.entries_view();
        assert(entries_bytes(bv) =~= entries_bytes(av) + Seq::<u8>::empty());
        lemma_entries_bytes_cancel(av, bv, Seq::empty());
        let suffix = bv.skip(av.len() as int);
        if suffix.len() > 0 {
            lemma_entry_bytes_len(suffix.first());
            assert(entries_bytes(suffix).len() >= 16);
            assert(false);
        }
        assert(bv =~= bv.take(av.len() as int));
        assert(av == bv);
    }
}

/// A requested transition of the counter tally: one command of the
/// reference system.
pub enum Action {
    /// Raise the count of the key by the amount, saturating at the top of
    /// the range; an untouched key counts as zero.
    Increment(Vec<u8>, u64),
    /// Lower the count of the key by the amount, stopping at zero; an
    /// untouched key counts as zero.
    Decrement(Vec<u8>, u64),
}

/// The model of an `Action`: the same request over the key's bytes.
pub enum ActionView {
    /// See `Action::Increment`.
    Increment(Seq<u8>, u64),
    /// See `Action::Decrement`.
    Decrement(Seq<u8>, u64),
}

/// The key an action touches.
pub open spec fn action_key(a: ActionView) -> Seq<u8> {
    match a {
        ActionView::Increment(k, _) => k,
        ActionView::Decrement(k, _) => k,
    }
}

/// The amount an action moves the count by.
pub open spec fn action_amount(a: ActionView) -> u64 {
    match a {
        ActionView::Increment(_, v) => v,
        ActionView::Decrement(_, v) => v,
    }
}

proof fn lemma_action_shape(a: Action)
    ensures
        a.encoding().len() >= 9,
        a is Increment ==> a.encoding()[0] == 1,
        a is Decrement ==> a.encoding()[0] == 2,
        a.encoding().subrange(1, 9) == spec_u64_to_le_bytes(action_amount(a.model())),
        a.encoding().skip(9) == action_key(a.model()),
{
    lemma_auto_spec_u64_to_from_le_bytes();
    match a {
        Action::Increment(k, v) => {
            assert(a.encoding().subrange(1, 9) =~= spec_u64_to_le_bytes(v));
            assert(a.encoding().skip(9) =~= k@);
        },
        Action::Decrement(k, v) => {
            assert(a.encoding().subrange(1, 9) =~= spec_u64_to_le_bytes(v));
            assert(a.encoding().skip(9) =~= k@);
        },
    }
}

impl Persistent for Action {
    type Model = ActionView;

    open spec fn model(&self) -> ActionView {
        match self {
            Action::Increment(k, v) => ActionView::Increment(k@, *v),
            Action::Decrement(k, v) => ActionView::Decrement(k@, *v),
        }
    }

    open spec fn encoding(&self) -> Seq<u8> {
        match self {
            Action::Increment(k, v) => seq![1u8] + spec_u64_to_le_bytes(*v) + k@,
            Action::Decrement(k, v) => seq![2u8] + spec_u64_to_le_bytes(*v) + k@,
        }
    }

    fn encode(&self) -> (r: Vec<u8>) {
        let mut out: Vec<u8> = Vec::new();
        match self {
            Action::Increment(key, amount) => {
                out.push(1u8);
                let mut amount_piece = u64_to_le_bytes(*amount);
                out.append(&mut amount_piece);
                let mut key_piece = copy_bytes(key.as_slice());
                out.append(&mut key_piece);
                proof {
                    assert(out@ =~= seq![1u8] + spec_u64_to_le_bytes(*amount) + key@);
                }
            },
            Action::Decrement(key, amount) => {
                out.push(2u8);
                let mut amount_piece = u64_to_le_bytes(*amount);
                out.append(&mut amount_piece);
                let mut key_piece = copy_bytes(key.as_slice());
                out.append(&mut key_piece);
                proof {
                    assert(out@ =~= seq![2u8] + spec_u64_to_le_bytes(*amount) + key@);
                }
            },
        }
        out
    }

    fn decode(bytes: &[u8]) -> (r: Option<Action>) {
        proof {
            lemma_auto_spec_u64_to_from_le_bytes();
        }
        if bytes.len() < 9 {
            proof {
                assert forall|a: Action| a.encoding() != bytes@ by {
                    lemma_action_shape(a);
                }
            }
            return None;
        }
        let tag = *slice_index_get(bytes, 0);
        if tag != 1 && tag != 2 {
            proof {
                assert forall|a: Action| a.encoding() != bytes@ by {
                    lemma_action_shape(a);
                }
            }
            return None;
        }
        let amount = u64_from_le_bytes(slice_subrange(bytes, 1, 9));
        let key = copy_bytes(slice_subrange(bytes, 9, bytes.len()));
        let r = if tag == 1 {
            Action::Increment(key, amount)
        } else {
            Action::Decrement(key, amount)
        };
        proof {
            assert(bytes@.subrange(1, 9) =~= spec_u64_to_le_bytes(amount));
            assert(r.encoding() =~= bytes@);
        }
        Some(r)
    }

    fn duplicate(&self) -> (r: Action) {
        match self {
            Action::Increment(key, amount) => Action::Increment(copy_bytes(key.as_slice()), *amount),
            Action::Decrement(key, amount) => Action::Decrement(copy_bytes(key.as_slice()), *amount),
        }
    }

    proof fn lemma_encoding_injective(a: Action, b: Action) {
        lemma_auto_spec_u64_to_from_le_bytes();
        lemma_action_shape(a);
        lemma_action_shape(b);
        assert(action_amount(a.model()) == action_amount(b.model()));
        assert(action_key(a.model()) == action_key(b.model()));
    }
}

impl Command for Action {
    type SystemState = CounterState;

    open spec fn transition(cmd: ActionView, old_state: Map<Seq<u8>, u64>) -> Map<Seq<u8>, u64> {
        match cmd {
            ActionView::Increment(k, v) => old_state.insert(
                k,
                sat_add(lookup_or_zero(old_state, k), v),
            ),
            ActionView::Decrement(k, v) => old_state.insert(
                k,
                sat_sub(lookup_or_zero(old_state, k), v),
            ),
        }
    }

    fn execute(&self, old_state: CounterState) -> (r: CounterState) {
        match self {
            Action::Increment(key, amount) => old_state.adjust(key.as_slice(), *amount, true),
            Action::Decrement(key, amount) => old_state.adjust(key.as_slice(), *amount, false),
        }
    }
}

} // verus!
