//! Numeric handles for values handed across the foreign-function
//! boundary, and the set of arrays produced by the text encoder.
use vstd::prelude::*;
use dashmap::DashMap;
use std::collections::HashSet;

verus! {

// ============ Handle ids ============

/// The source of handle ids: a counter that starts at 1 and wraps around.
pub struct HandleIds {
    pub next: u64,
}

/// The id after `n` (wrapping, as an atomic `fetch_add` does).
pub open spec fn after(n: u64) -> u64 {
    if n == u64::MAX {
        0
    } else {
        (n + 1) as u64
    }
}

impl HandleIds {
    /// A counter whose first id is 1.
    pub fn new() -> (r: HandleIds)
        ensures
            r.next == 1,
    {
        HandleIds { next: 1 }
    }

    /// Hands out the next id.
    pub fn get_next_id(&mut self) -> (r: u64)
        ensures
            r == old(self).next,
            final(self).next == after(old(self).next),
    {
        let id = self.next;
        self.next = self.next.wrapping_add(1);
        id
    }
}

// ============ Handle registries ============

#[verifier::external_type_specification]
#[verifier::external_body]
#[verifier::reject_recursive_types(K)]
#[verifier::reject_recursive_types(V)]
#[verifier::reject_recursive_types(S)]
pub struct ExDashMap<K, V, S>(DashMap<K, V, S>);

/// What a concurrent map from handles to slots holds.
pub uninterp spec fn slot_entries(m: DashMap<u64, usize>) -> Map<u64, usize>;

/// An empty map (`DashMap::new`).
#[verifier::external_body]
fn slots_new() -> (r: DashMap<u64, usize>)
    ensures
        slot_entries(r) =~= Map::empty(),
{
    DashMap::new()
}

/// The slot stored under `k` (`DashMap::get`).
#[verifier::external_body]
fn slots_get(m: &DashMap<u64, usize>, k: u64) -> (r: Option<usize>)
    ensures
        r == (if slot_entries(*m).contains_key(k) {
            Some(slot_entries(*m)[k])
        } else {
            None
        }),
{
    match m.get(&k) {
        Some(entry) => Some(*entry),
        None => None,
    }
}

/// Stores `v` under `k`, replacing what was there (`DashMap::insert`).
#[verifier::external_body]
fn slots_insert(m: &mut DashMap<u64, usize>, k: u64, v: usize)
    ensures
        slot_entries(*final(m)) == slot_entries(*old(m)).insert(k, v),
{
    m.insert(k, v);
}

/// Removes what is stored under `k` (`DashMap::remove`).
#[verifier::external_body]
fn slots_remove(m: &mut DashMap<u64, usize>, k: u64)
    ensures
        slot_entries(*final(m)) == slot_entries(*old(m)).remove(k),
{
    m.remove(&k);
}

/// Values registered under numeric handles.
pub struct HandleRegistry<T> {
    ids: HandleIds,
    slots: DashMap<u64, usize>,
    values: Vec<Option<T>>,
}

impl<T> View for HandleRegistry<T> {
    type V = Map<u64, T>;

    closed spec fn view(&self) -> Map<u64, T> {
        Map::new(
            |k: u64| slot_entries(self.slots).contains_key(k),
            |k: u64| self.values@[slot_entries(self.slots)[k] as int]->0,
        )
    }
}

impl<T> HandleRegistry<T> {
    /// Every handle has a slot of its own holding its value.
    pub closed spec fn wf(&self) -> bool {
        let m = slot_entries(self.slots);
        &&& forall|k: u64|
            #[trigger] m.contains_key(k) ==> m[k] < self.values.len() && self.values@[m[k] as int] is Some
        &&& forall|a: u64, b: u64|
            #[trigger] m.contains_key(a) && #[trigger] m.contains_key(b) && a != b ==> m[a] != m[b]
    }

    /// The handle that the next registration gives.
    pub closed spec fn next_id(&self) -> u64 {
        self.ids.next
    }

    /// An empty registry whose first handle is 1.
    pub fn new() -> (r: Self)
        ensures
            r.wf(),
            r@ == Map::<u64, T>::empty(),
            r.next_id() == 1,
    {
        let r = HandleRegistry { ids: HandleIds::new(), slots: slots_new(), values: Vec::new() };
        assert(r@ =~= Map::<u64, T>::empty());
        r
    }

    /// Registers `value` under the next handle (replacing whatever that
    /// handle held), and gives the handle.
    pub fn register(&mut self, value: T) -> (r: u64)
        requires
            old(self).wf(),
        ensures
            final(self).wf(),
            r == old(self).next_id(),
            final(self).next_id() == after(old(self).next_id()),
            final(self)@ == old(self)@.insert(r, value),
    {
        let id = self.ids.get_next_id();
        let slot = self.values.len();
        let ghost m0 = slot_entries(self.slots);
        let ghost v0 = self.values@;
        let ghost before = old(self)@;
        self.values.push(Some(value));
        slots_insert(&mut self.slots, id, slot);
        proof {
            let m1 = slot_entries(self.slots);
            assert(m1 == m0.insert(id, slot));
            assert forall|k: u64| #[trigger] m1.contains_key(k) implies m1[k] < self.values.len()
                && self.values@[m1[k] as int] is Some by {
                if k != id {
                    assert(self.values@[m0[k] as int] == v0[m0[k] as int]);
                }
            }
            assert forall|k: u64| #[trigger] self@.contains_key(k) <==> before.insert(id, value).contains_key(k) by {}
            assert forall|k: u64| self@.contains_key(k) implies #[trigger] self@[k] == before.insert(id, value)[k] by {
                if k != id {
                    assert(self.values@[m0[k] as int] == v0[m0[k] as int]);
                }
            }
            assert(self@ =~= before.insert(id, value));
        }
        id
    }

    /// The value registered under `id`, if any.
    pub fn get(&self, id: u64) -> (r: Option<&T>)
        requires
            self.wf(),
        ensures
            match r {
                Some(v) => self@.contains_key(id) && self@[id] == *v,
                None => !self@.contains_key(id),
            },
    {
        match slots_get(&self.slots, id) {
            Some(s) => match &self.values[s] {
                Some(v) => Some(v),
                None => None,
            },
            None => None,
        }
    }

    /// Takes the value registered under `id` out of the registry.
    pub fn remove(&mut self, id: u64) -> (r: Option<T>)
        requires
            old(self).wf(),
        ensures
            final(self).wf(),
            final(self).next_id() == old(self).next_id(),
            final(self)@ == old(self)@.remove(id),
            match r {
                Some(v) => old(self)@.contains_key(id) && old(self)@[id] == v,
                None => !old(self)@.contains_key(id),
            },
    {
        let ghost before = self@;
        match slots_get(&self.slots, id) {
            Some(s) => {
                let ghost m0 = slot_entries(self.slots);
                let ghost v0 = self.values@;
                slots_remove(&mut self.slots, id);
                let taken = self.values.remove(s);
                self.values.insert(s, None);
                proof {
                    let m1 = slot_entries(self.slots);
                    assert(m1 == m0.remove(id));
                    assert(self.values@ == v0.update(s as int, None));
                    assert forall|k: u64| #[trigger] m1.contains_key(k) implies m1[k] < self.values.len()
                        && self.values@[m1[k] as int] is Some by {
                        assert(m0[k] != m0[id]);
                    }
                    assert forall|k: u64| self@.contains_key(k) implies #[trigger] self@[k] == before.remove(id)[k] by {
                        assert(m0[k] != m0[id]);
                    }
                    assert(self@ =~= before.remove(id));
                }
                taken
            },
            None => {
                assert(before.remove(id) =~= before);
                None
            },
        }
    }
}

/// What is registered can be read back under the handle it was given,
/// and registering leaves every other handle as it was.
pub proof fn law_registry_read_after_register<T>(before: Map<u64, T>, id: u64, value: T, other: u64)
    requires
        other != id,
    ensures
        before.insert(id, value).contains_key(id),
        before.insert(id, value)[id] == value,
        before.insert(id, value).contains_key(other) == before.contains_key(other),
        before.contains_key(other) ==> before.insert(id, value)[other] == before[other],
{
}

/// Successive handles differ until the counter wraps around.
pub proof fn law_successive_handles_differ(n: u64)
    ensures
        after(n) != n,
{
}

// ============ Text encoder results ============

/// The NaN-boxing tag of a pointer value.
pub const POINTER_TAG: u64 = 0x7FFD_0000_0000_0000;

/// The bits of a value that hold its tag.
pub const TAG_MASK: u64 = 0xFFFF_0000_0000_0000;

/// The bits of a pointer value that hold the address.
pub const POINTER_MASK: u64 = 0x0000_FFFF_FFFF_FFFF;

/// The address that a value with bits `bits` carries: the payload of a
/// pointer-tagged NaN box; the bits themselves when they are a non-zero
/// number below 2^48 (no NaN's bits are); else none (0).
pub open spec fn boxed_address(bits: u64) -> u64 {
    if bits & TAG_MASK == POINTER_TAG {
        bits & POINTER_MASK
    } else if bits != 0 && bits < 0x0001_0000_0000_0000 {
        bits
    } else {
        0
    }
}

/// Where the text decoder reads the bytes of a value.
pub enum DecodeSource {
    /// Nowhere: the value decodes to the empty string.
    Empty,
    /// An array that the text encoder produced, one `f64` per byte.
    EncoderArray(usize),
    /// A byte buffer.
    Buffer(usize),
}

/// The arrays (by address) that the text encoder has produced.
pub struct TextEncoderResults {
    addresses: HashSet<usize>,
}

impl View for TextEncoderResults {
    type V = Set<usize>;

    closed spec fn view(&self) -> Set<usize> {
        self.addresses@
    }
}

impl TextEncoderResults {
    /// No address recorded.
    pub fn new() -> (r: TextEncoderResults)
        ensures
            r@ == Set::<usize>::empty(),
    {
        TextEncoderResults { addresses: HashSet::new() }
    }

    /// Records that the array at `ptr` came from the text encoder.
    pub fn remember_text_encoder_result(&mut self, ptr: usize)
        ensures
            final(self)@ == old(self)@.insert(ptr),
    {
        broadcast use vstd::std_specs::hash::group_hash_axioms;
        self.addresses.insert(ptr);
    }

    /// Whether the array at `ptr` came from the text encoder.
    pub fn is_text_encoder_result(&self, ptr: usize) -> (r: bool)
        ensures
            r == self@.contains(ptr),
    {
        broadcast use vstd::std_specs::hash::group_hash_axioms;
        self.addresses.contains(&ptr)
    }

    /// Where the text decoder reads the value with bits `bits`: nowhere
    /// when it carries no address or one below `0x1000`; else the
    /// encoder's array when the encoder produced the address, and a byte
    /// buffer otherwise.
    pub fn decode_source(&self, bits: u64) -> (r: DecodeSource)
        ensures
            boxed_address(bits) < 0x1000 ==> r is Empty,
            boxed_address(bits) >= 0x1000 && self@.contains(boxed_address(bits) as usize) ==> r
                == DecodeSource::EncoderArray(boxed_address(bits) as usize),
            boxed_address(bits) >= 0x1000 && !self@.contains(boxed_address(bits) as usize) ==> r
                == DecodeSource::Buffer(boxed_address(bits) as usize),
    {
        let address: u64 = if bits & TAG_MASK == POINTER_TAG {
            bits & POINTER_MASK
        } else if bits != 0 && bits < 0x0001_0000_0000_0000 {
            bits
        } else {
            0
        };
        if address < 0x1000 {
            return DecodeSource::Empty;
        }
        let ptr = address as usize;
        if self.is_text_encoder_result(ptr) {
            DecodeSource::EncoderArray(ptr)
        } else {
            DecodeSource::Buffer(ptr)
        }
    }
}

} // verus!
