//! Identifiers made from string tags, and a codex of entries looked up by them.
use std::collections::HashMap;
use std::marker::PhantomData;
use std::sync::Arc;
use vstd::string::StringSliceAdditionalSpecFns;
use vstd::arithmetic::power::pow;
use vstd::arithmetic::div_mod::{lemma_add_mod_noop, lemma_mul_mod_noop_left, lemma_mul_mod_noop_right};
use vstd::prelude::*;
use vstd::std_specs::iter::IteratorSpec;

verus! {

/// The modulus of the tag hash.
pub const HASH_M: u64 = 1_000_000_009;

/// The base of the tag hash.
pub const HASH_P: u64 = 53;

/// The polynomial rolling hash of `bytes`, together with the power of the base that the next
/// byte would be weighed by: byte `i` counts `(byte + 1) * 53^i`, all modulo 1000000009.
pub open spec fn rolling_hash(bytes: Seq<u8>) -> (u64, u64)
    decreases bytes.len(),
{
    if bytes.len() == 0 {
        (0, 1)
    } else {
        let (value, ppow) = rolling_hash(bytes.drop_last());
        (
            ((value + (bytes.last() + 1) * ppow) % (HASH_M as int)) as u64,
            ((ppow * HASH_P) % (HASH_M as int)) as u64,
        )
    }
}

/// Every byte of `bytes`, plus one, weighed by 53 to the power of its index, all added up.
pub open spec fn weighted_sum(bytes: Seq<u8>) -> int
    decreases bytes.len(),
{
    if bytes.len() == 0 {
        0
    } else {
        weighted_sum(bytes.drop_last()) + (bytes.last() + 1) * pow(53, (bytes.len() - 1) as nat)
    }
}

/// The tag hash weighs every byte: it is the sum over all bytes of the byte plus one times 53 to
/// the power of its index, modulo 1000000009, and the next byte would be weighed by 53 to the
/// power of the length; so appending byte `b` adds `(b + 1) * 53^len` modulo 1000000009.
pub proof fn lemma_hash_weighs_every_byte(bytes: Seq<u8>, b: u8)
    ensures
        rolling_hash(bytes).0 == weighted_sum(bytes) % 1_000_000_009,
        rolling_hash(bytes).1 == pow(53, bytes.len()) % 1_000_000_009,
        rolling_hash(bytes.push(b)).0 == (rolling_hash(bytes).0 + (b + 1) * pow(53, bytes.len())) % 1_000_000_009,
    decreases bytes.len(),
{
    reveal(pow);
    let m: int = 1_000_000_009;
    if bytes.len() > 0 {
        let pre = bytes.drop_last();
        let x = bytes.last();
        lemma_hash_weighs_every_byte(pre, x);
        let p = pow(53, pre.len());
        let sum = weighted_sum(pre);
        // the value
        lemma_mul_mod_noop_right(x + 1, p, m);
        lemma_add_mod_noop(sum, (x + 1) * p, m);
        lemma_add_mod_noop(sum % m, (x + 1) * (p % m), m);
        assert((sum % m) % m == sum % m) by {
            lemma_add_mod_noop(sum, 0, m);
        }
        assert(((x + 1) * (p % m)) % m == ((x + 1) * p) % m);
        assert(rolling_hash(bytes).0 == (sum % m + (x + 1) * (p % m)) % m);
        assert(weighted_sum(bytes) == sum + (x + 1) * p);
        // the power
        lemma_mul_mod_noop_left(p, 53, m);
        assert(pow(53, bytes.len()) == 53 * p);
        assert(p * 53 == 53 * p);
    }
    // appending
    let h = rolling_hash(bytes);
    assert(bytes.push(b).drop_last() =~= bytes);
    assert(bytes.push(b).last() == b);
    let q = pow(53, bytes.len());
    lemma_mul_mod_noop_right(b + 1, q, m);
    lemma_add_mod_noop(h.0 as int, (b + 1) * q, m);
    lemma_add_mod_noop(h.0 as int, (b + 1) * (q % m), m);
}

/// Identifier with a phantom binding to a specific type: the type parameter keeps identifiers of
/// different kinds of things apart.
///
/// The id is created from a string tag by computing a hash which is also used to define equality.
#[derive(Debug)]
pub struct Id<T> {
    pub value: u64,
    pub _phantom: PhantomData<T>,
}

impl<T> Clone for Id<T> {
    fn clone(&self) -> (c: Self)
        ensures
            c == *self,
    {
        Id { value: self.value, _phantom: PhantomData }
    }
}

impl<T> Copy for Id<T> {
}

impl<T> Default for Id<T> {
    fn default() -> (id: Self)
        ensures
            id.value == 0,
    {
        Id { value: 0, _phantom: PhantomData }
    }
}

impl<T> PartialEq for Id<T> {
    fn eq(&self, other: &Self) -> (res: bool) {
        self.value == other.value
    }
}

impl<T> vstd::std_specs::cmp::PartialEqSpecImpl for Id<T> {
    open spec fn obeys_eq_spec() -> bool {
        true
    }

    open spec fn eq_spec(&self, other: &Self) -> bool {
        self.value == other.value
    }
}

impl<T> Eq for Id<T> {
}

impl<T> Id<T> {
    pub fn new(value: u64) -> (id: Self)
        ensures
            id.value == value,
    {
        Id { value, _phantom: PhantomData }
    }

    /// Create identifier from a string tag by hashing its UTF-8 bytes.
    pub fn from_tag(tag: &str) -> (id: Self)
        ensures
            id.value == rolling_hash(tag.spec_bytes()).0,
            id.value == weighted_sum(tag.spec_bytes()) % 1_000_000_009,
    {
        proof {
            lemma_hash_weighs_every_byte(tag.spec_bytes(), 0);
        }
        Self::new(Self::hash_bytes(tag.as_bytes()))
    }

    /// A polynomial rolling hash function.
    pub fn hash_bytes(bytes: &[u8]) -> (value: u64)
        ensures
            value == rolling_hash(bytes@).0,
            value == weighted_sum(bytes@) % 1_000_000_009,
    {
        proof {
            lemma_hash_weighs_every_byte(bytes@, 0);
        }
        let len = bytes.len();
        let mut value: u64 = 0;
        let mut ppow: u64 = 1;
        let mut i: usize = 0;
        while i < len
            invariant
                len == bytes@.len(),
                i <= len,
                (value, ppow) == rolling_hash(bytes@.subrange(0, i as int)),
                value < HASH_M,
                ppow < HASH_M,
            decreases len - i,
        {
            proof {
                assert(bytes@.subrange(0, i + 1).drop_last() =~= bytes@.subrange(0, i as int));
                assert((bytes[i as int] + 1) * ppow <= 256 * 1_000_000_009) by (nonlinear_arith)
                    requires
                        bytes[i as int] < 256,
                        ppow < 1_000_000_009,
                ;
                assert(ppow * 53 <= 53 * 1_000_000_009) by (nonlinear_arith)
                    requires
                        ppow < 1_000_000_009,
                ;
            }
            value = (value + (bytes[i] as u64 + 1) * ppow) % HASH_M;
            ppow = (ppow * HASH_P) % HASH_M;
            i = i + 1;
        }
        assert(bytes@.subrange(0, len as int) =~= bytes@);
        value
    }
}

/// The identifier value of a tag.
pub open spec fn tag_id(tag: &str) -> u64 {
    rolling_hash(tag.spec_bytes()).0
}

/// Defines a codex of data entries identified by `Id<Entry>`, looked up by the identifier's
/// value.
pub struct Codex<Entry> {
    lookup: Arc<HashMap<u64, Entry>>,
}

/// Collects the entries of a codex one tag at a time; a later entry under the same tag, or a
/// tag of the same hash, replaces an earlier one.
pub struct CodexBuilder<Entry> {
    lookup: HashMap<u64, Entry>,
}

impl<Entry> CodexBuilder<Entry> {
    /// The entries collected so far, by identifier value.
    pub closed spec fn entries(&self) -> Map<u64, Entry> {
        self.lookup@
    }

    /// A builder without entries, with room for `capacity` of them.
    pub fn with_capacity(capacity: usize) -> (builder: Self)
        ensures
            builder.entries() == Map::<u64, Entry>::empty(),
    {
        CodexBuilder { lookup: HashMap::with_capacity(capacity) }
    }

    /// Adds `entry` under the identifier of `tag`.
    pub fn add(self, tag: &str, entry: Entry) -> (builder: CodexBuilder<Entry>)
        ensures
            builder.entries() == self.entries().insert(tag_id(tag), entry),
    {
        broadcast use vstd::std_specs::hash::group_hash_axioms;

        let mut lookup = self.lookup;
        lookup.insert(Id::<Entry>::from_tag(tag).value, entry);
        CodexBuilder { lookup }
    }

    /// The codex of the collected entries.
    pub fn build(self) -> (codex: Codex<Entry>)
        ensures
            codex.entries() == self.entries(),
    {
        Codex::new(self.lookup)
    }
}

impl<Entry> Codex<Entry> {
    /// The entries, by identifier value.
    pub closed spec fn entries(&self) -> Map<u64, Entry> {
        self.lookup@
    }

    /// The codex of the given entries.
    pub fn new(lookup: HashMap<u64, Entry>) -> (codex: Self)
        ensures
            codex.entries() == lookup@,
    {
        Codex { lookup: Arc::new(lookup) }
    }

    /// A builder without entries, with room for `capacity` of them.
    pub fn builder_with_capacity(capacity: usize) -> (builder: CodexBuilder<Entry>)
        ensures
            builder.entries() == Map::<u64, Entry>::empty(),
    {
        CodexBuilder::with_capacity(capacity)
    }

    /// The codex of the given tagged entries; of entries under the same identifier the last one
    /// counts.
    pub fn from_iter<'a>(entries: Vec<(&'a str, Entry)>) -> (codex: Self)
        ensures
            codex.entries() == tagged_entries(entries@),
    {
        let mut builder = Codex::builder_with_capacity(entries.len());
        let mut rest = entries;
        let ghost all = rest@;
        let mut i: usize = 0;
        let n = rest.len();
        while i < n
            invariant
                n == all.len(),
                i <= n,
                rest@ == all.subrange(i as int, n as int),
                builder.entries() == tagged_entries(all.subrange(0, i as int)),
            decreases n - i,
        {
            let (tag, entry) = rest.remove(0);
            proof {
                assert(all.subrange(0, i + 1).drop_last() =~= all.subrange(0, i as int));
                assert(all.subrange(i + 1, n as int) =~= all.subrange(i as int, n as int).subrange(1, n - i));
            }
            builder = builder.add(tag, entry);
            i = i + 1;
        }
        assert(all.subrange(0, n as int) =~= all);
        builder.build()
    }

    /// Whether an entry has the identifier `id`.
    pub fn contains(&self, id: &Id<Entry>) -> (b: bool)
        ensures
            b == self.entries().contains_key(id.value),
    {
        broadcast use vstd::std_specs::hash::group_hash_axioms;

        self.lookup.contains_key(&id.value)
    }

    /// The entry with identifier `id`.
    pub fn get(&self, id: &Id<Entry>) -> (entry: &Entry)
        requires
            self.entries().contains_key(id.value),
        ensures
            *entry == self.entries()[id.value],
    {
        broadcast use vstd::std_specs::hash::group_hash_axioms;

        self.lookup.get(&id.value).unwrap()
    }

    /// All identifiers with their entries, in no particular order.
    pub fn iter(&self) -> (pairs: Vec<(Id<Entry>, &Entry)>)
        ensures
            pairs@.len() == self.entries().len(),
            forall|i: int| 0 <= i < pairs@.len() ==> self.entries().contains_key((#[trigger] pairs@[i]).0.value)
                && self.entries()[pairs@[i].0.value] == *pairs@[i].1,
            forall|k: u64| #[trigger] self.entries().contains_key(k) ==> exists|i: int| 0 <= i < pairs@.len()
                && (#[trigger] pairs@[i]).0.value == k,
    {
        broadcast use vstd::std_specs::hash::group_hash_axioms;

        let mut pairs: Vec<(Id<Entry>, &Entry)> = Vec::new();
        let map: &HashMap<u64, Entry> = &self.lookup;
        let iter = map.iter();
        let ghost all = iter.remaining();
        for item in it: iter
            invariant
                it.seq() == all,
                all == map.iter().remaining(),
                pairs@.len() == it.index(),
                forall|i: int| 0 <= i < pairs@.len() ==> (#[trigger] pairs@[i]).0.value == *it.seq()[i].0 && pairs@[i].1
                    == it.seq()[i].1,
        {
            pairs.push((Id::new(*item.0), item.1));
        }
        proof {
            assert forall|k: u64| #[trigger] self.entries().contains_key(k) implies exists|i: int| 0 <= i < pairs@.len()
                && (#[trigger] pairs@[i]).0.value == k by {
                assert(all.contains((&k, &map@[k])));
                let i = choose|i: int| 0 <= i < all.len() && all[i] == (&k, &map@[k]);
                assert(pairs@[i].0.value == k);
            }
        }
        pairs
    }
}

/// The map from identifier values to entries that adding the tagged entries in order builds.
pub open spec fn tagged_entries<'a, Entry>(entries: Seq<(&'a str, Entry)>) -> Map<u64, Entry>
    decreases entries.len(),
{
    if entries.len() == 0 {
        Map::empty()
    } else {
        tagged_entries(entries.drop_last()).insert(tag_id(entries.last().0), entries.last().1)
    }
}

impl<Entry> std::ops::Index<&Id<Entry>> for Codex<Entry> {
    type Output = Entry;

    fn index(&self, id: &Id<Entry>) -> (entry: &Entry)
        ensures
            *entry == self.entries()[id.value],
    {
        self.get(id)
    }
}

impl<Entry> vstd::std_specs::core::IndexSpecImpl<&Id<Entry>> for Codex<Entry> {
    open spec fn index_req(&self, id: &&Id<Entry>) -> bool {
        self.entries().contains_key(id.value)
    }
}

/// Data that is contained in a codex.
pub trait CodexSource {
    /// Specifices the file extension for codex.
    const EXTENSION: &'static str;
}

/// Loads codex assets from TOML-files
pub struct CodexLoader<RawEntry, Entry> {
    pub _phantom_data: PhantomData<(RawEntry, Entry)>,
}

impl<RawEntry, Entry> Default for CodexLoader<RawEntry, Entry> {
    fn default() -> Self {
        CodexLoader { _phantom_data: PhantomData }
    }
}

} // verus!
