//! A fixed-capacity, bucketed transposition cache mapping a 64-bit position
//! hash to a previously computed score. Each slot is one packed 32-bit word:
//! the low 16 bits hold a verification tag (the top 16 bits of the hash), the
//! high 16 bits hold the raw score, with the reserved raw value marking an
//! empty slot. A bucket is addressed by the low-order bits of the hash;
//! lookups return an unverified hint, inserts take the first empty slot of
//! the bucket and are silently dropped when the bucket is full, and slots are
//! only ever emptied by a bulk clear. Each slot is a single fixed-width word
//! so a storage layer may hold it in a fixed-width atomic; here the slots sit
//! in a vector and writes go through an exclusive borrow.

use vstd::prelude::*;

use crate::evaluation::Evaluation;

verus! {

/// The packed form of an empty slot: tag zero and the reserved raw score
/// `i16::MIN` in the high 16 bits.
pub const EMPTY_TABLE_ENTRY: u32 = 0x8000_0000;

/// The verification tag stored in a packed slot.
pub open spec fn entry_tag(e: u32) -> u16 {
    (e & 0xFFFF) as u16
}

/// The raw score stored in a packed slot.
pub open spec fn entry_raw(e: u32) -> i16 {
    ((e >> 16) as u16) as i16
}

/// A slot is empty exactly when its score field holds the reserved value.
pub open spec fn entry_is_empty(e: u32) -> bool {
    entry_raw(e) == Evaluation::RESERVED_VALUE
}

/// Packs a verification tag and a raw score into one slot word.
pub open spec fn pack_entry(tag: u16, raw: i16) -> u32 {
    (tag as u32) | (((raw as u16) as u32) << 16)
}

/// The score of the first occupied slot of `bucket` carrying `tag`, scanning
/// in slot order and stopping at the first empty slot.
pub open spec fn spec_lookup(bucket: Seq<u32>, tag: u16) -> Option<i16>
    decreases bucket.len(),
{
    if bucket.len() <= 0 {
        None
    } else if entry_is_empty(bucket[0]) {
        None
    } else if entry_tag(bucket[0]) == tag {
        Some(entry_raw(bucket[0]))
    } else {
        spec_lookup(bucket.drop_first(), tag)
    }
}

/// The index of the first empty slot of `bucket`, or its length when every
/// slot is occupied.
pub open spec fn spec_first_empty(bucket: Seq<u32>) -> int
    decreases bucket.len(),
{
    if bucket.len() <= 0 {
        0
    } else if entry_is_empty(bucket[0]) {
        0
    } else {
        1 + spec_first_empty(bucket.drop_first())
    }
}

/// The verification tag of a hash: its top 16 bits.
pub open spec fn spec_tag_of(hash: u64) -> u16 {
    (hash >> 48) as u16
}

pub struct HashTable {
    num_buckets: usize,
    bucket_size: usize,
    table: Vec<u32>,
}

impl HashTable {
    pub closed spec fn spec_num_buckets(self) -> usize {
        self.num_buckets
    }

    pub closed spec fn spec_bucket_size(self) -> usize {
        self.bucket_size
    }

    /// All slots of the table, bucket after bucket.
    pub closed spec fn spec_slots(self) -> Seq<u32> {
        self.table@
    }

    /// The bucket a hash is addressed to: its low-order bits.
    pub open spec fn spec_bucket_of(self, hash: u64) -> int {
        (hash & ((self.spec_num_buckets() - 1) as u64)) as int
    }

    /// The slots of bucket `b`.
    pub open spec fn spec_bucket(self, b: int) -> Seq<u32> {
        self.spec_slots().subrange(
            b * self.spec_bucket_size(),
            b * self.spec_bucket_size() + self.spec_bucket_size(),
        )
    }

    /// What a lookup of `hash` finds: the raw score filed under its tag in
    /// its bucket, if any.
    pub open spec fn spec_get(self, hash: u64) -> Option<i16> {
        spec_lookup(self.spec_bucket(self.spec_bucket_of(hash)), spec_tag_of(hash))
    }

    /// The bucket count is a power of two, the slot count is the product of
    /// bucket count and bucket size, and in every bucket the occupied slots
    /// form a prefix: inserts fill the first empty slot and slots are only
    /// emptied in bulk.
    pub open spec fn wf(self) -> bool {
        &&& self.spec_num_buckets() >= 1
        &&& (exists|o: u32| o < u64::BITS && self.spec_num_buckets() == (1u64 << o) as usize)
        &&& self.spec_slots().len() == self.spec_num_buckets() * self.spec_bucket_size()
        &&& forall|b: int, i: int, j: int|
            0 <= b < self.spec_num_buckets() && 0 <= i <= j < self.spec_bucket_size()
                && entry_is_empty(#[trigger] self.spec_bucket(b)[i]) ==> entry_is_empty(
                #[trigger] self.spec_bucket(b)[j],
            )
    }

    pub fn new(order_buckets: u32, bucket_size: usize) -> (t: Self)
        requires
            order_buckets < usize::BITS,
            (1usize << order_buckets) * bucket_size <= usize::MAX,
        ensures
            t.wf(),
            t.spec_num_buckets() == 1usize << order_buckets,
            t.spec_bucket_size() == bucket_size,
            forall|i: int| 0 <= i < t.spec_slots().len() ==> entry_is_empty(#[trigger] t.spec_slots()[i]),
    {
        let num_buckets: usize = 1usize << order_buckets;
        let n: usize = num_buckets * bucket_size;
        let mut table: Vec<u32> = Vec::new();
        let mut i: usize = 0;
        while i < n
            invariant
                i <= n,
                table@.len() == i,
                forall|j: int| 0 <= j < i ==> table@[j] == EMPTY_TABLE_ENTRY,
            decreases n - i,
        {
            table.push(EMPTY_TABLE_ENTRY);
            i = i + 1;
        }
        proof {
            assert(entry_is_empty(EMPTY_TABLE_ENTRY)) by (bit_vector);
            assert(num_buckets >= 1 && num_buckets == (1u64 << order_buckets) as usize)
                by (bit_vector)
                requires
                    num_buckets == 1usize << order_buckets,
                    order_buckets < usize::BITS,
            ;
        }
        let t = Self { num_buckets, bucket_size, table };
        proof {
            assert forall|b: int, i0: int|
                0 <= b < t.spec_num_buckets() && 0 <= i0 < t.spec_bucket_size() implies entry_is_empty(
                #[trigger] t.spec_bucket(b)[i0],
            ) by {
                assert(0 <= b * bucket_size + i0 < n && b * bucket_size + bucket_size <= n)
                    by (nonlinear_arith)
                    requires
                        0 <= b < num_buckets,
                        0 <= i0 < bucket_size,
                        n == num_buckets * bucket_size,
                ;
                assert(t.spec_bucket(b)[i0] == t.spec_slots()[b * bucket_size + i0]);
            }
        }
        t
    }

    /// Resets every slot to the empty marker; afterwards every lookup misses.
    /// Requires exclusive access, which `&mut self` grants.
    pub fn clear(&mut self)
        requires
            old(self).wf(),
        ensures
            final(self).wf(),
            final(self).spec_num_buckets() == old(self).spec_num_buckets(),
            final(self).spec_bucket_size() == old(self).spec_bucket_size(),
            forall|i: int|
                0 <= i < final(self).spec_slots().len() ==> entry_is_empty(
                    #[trigger] final(self).spec_slots()[i],
                ),
            forall|hash: u64| #[trigger] final(self).spec_get(hash) is None,
    {
        let n: usize = self.table.len();
        let mut i: usize = 0;
        while i < n
            invariant
                i <= n,
                old(self).wf(),
                n == old(self).table@.len(),
                self.table@.len() == n,
                self.num_buckets == old(self).num_buckets,
                self.bucket_size == old(self).bucket_size,
                forall|j: int| 0 <= j < i ==> #[trigger] self.table@[j] == EMPTY_TABLE_ENTRY,
            decreases n - i,
        {
            self.table.set(i, EMPTY_TABLE_ENTRY);
            i = i + 1;
        }
        proof {
            assert(entry_is_empty(EMPTY_TABLE_ENTRY)) by (bit_vector);
            assert forall|b: int, i0: int|
                0 <= b < self.num_buckets && 0 <= i0 < self.bucket_size implies entry_is_empty(
                #[trigger] self.spec_bucket(b)[i0],
            ) by {
                lemma_bucket_range(self.num_buckets, self.bucket_size, b);
                assert(self.spec_bucket(b)[i0] == self.spec_slots()[b * self.bucket_size + i0]);
            }
            lemma_all_empty_misses(*self);
        }
    }

    /// Probes the bucket addressed by `hash` for a slot whose tag matches the
    /// top 16 bits of `hash`; the result is a hint, since distinct hashes
    /// sharing bucket and tag are indistinguishable.
    pub fn get_eval(&self, hash: u64) -> (r: Option<Evaluation>)
        requires
            self.wf(),
        ensures
            match r {
                Some(e) => self.spec_get(hash) == Some(e.spec_raw()) && e.valid(),
                None => self.spec_get(hash) is None,
            },
    {
        proof {
            let nb = self.num_buckets;
            assert((hash & (nb - 1) as u64) <= (nb - 1) as u64) by (bit_vector);
        }
        let low_bits: usize = (hash & (self.num_buckets - 1) as u64) as usize;
        let high_bits: u16 = #[verifier::truncate] ((hash >> 48) as u16);
        let ghost bucket = self.spec_bucket(low_bits as int);
        // reading the length bounds every slot index by usize::MAX
        let n: usize = self.table.len();
        proof {
            lemma_bucket_range(self.num_buckets, self.bucket_size, low_bits as int);
            assert(bucket.subrange(0, self.bucket_size as int) =~= bucket);
        }
        let base_index: usize = low_bits * self.bucket_size;
        let mut i: usize = 0;
        while i < self.bucket_size
            invariant
                self.wf(),
                i <= self.bucket_size,
                low_bits < self.num_buckets,
                base_index == low_bits * self.bucket_size,
                base_index + self.bucket_size <= self.table@.len(),
                n == self.table@.len(),
                bucket == self.spec_bucket(low_bits as int),
                high_bits == spec_tag_of(hash),
                low_bits as int == self.spec_bucket_of(hash),
                spec_lookup(bucket, high_bits) == spec_lookup(
                    bucket.subrange(i as int, self.bucket_size as int),
                    high_bits,
                ),
            decreases self.bucket_size - i,
        {
            let elem: u32 = self.table[base_index + i];
            proof {
                assert(elem == bucket[i as int]);
                assert(bucket.subrange(i as int, self.bucket_size as int)[0] == bucket[i as int]);
            }
            if (elem >> 16) == 0x8000u32 {
                proof {
                    assert(entry_is_empty(elem)) by (bit_vector)
                        requires
                            elem >> 16 == 0x8000u32,
                    ;
                }
                return None;
            }
            proof {
                assert(!entry_is_empty(elem)) by (bit_vector)
                    requires
                        elem >> 16 != 0x8000u32,
                ;
            }
            let low_half: u16 = #[verifier::truncate] (elem as u16);
            if low_half == high_bits {
                let raw: i16 = #[verifier::truncate] ((elem >> 16) as i16);
                proof {
                    assert(entry_tag(elem) == low_half && raw == entry_raw(elem)) by (bit_vector)
                        requires
                            low_half == (elem as u16),
                            raw == ((elem >> 16) as i16),
                    ;
                    assert(entry_raw(elem) != Evaluation::RESERVED_VALUE);
                }
                return Some(Evaluation::from_raw(raw));
            }
            proof {
                assert(entry_tag(elem) == (elem as u16)) by (bit_vector);
                assert(bucket.subrange(i as int, self.bucket_size as int).drop_first()
                    =~= bucket.subrange(i + 1, self.bucket_size as int));
            }
            i = i + 1;
        }
        proof {
            assert(bucket.subrange(i as int, self.bucket_size as int).len() == 0);
        }
        None
    }

    /// Stores the score under the tag of `hash` in the first empty slot of
    /// the bucket addressed by `hash`; when the bucket is full the insert is
    /// silently dropped.
    pub fn insert_eval(&mut self, hash: u64, eval: Evaluation)
        requires
            old(self).wf(),
            eval.valid(),
        ensures
            final(self).wf(),
            final(self).spec_num_buckets() == old(self).spec_num_buckets(),
            final(self).spec_bucket_size() == old(self).spec_bucket_size(),
            ({
                let b = old(self).spec_bucket_of(hash);
                let k = spec_first_empty(old(self).spec_bucket(b));
                if k < old(self).spec_bucket_size() {
                    final(self).spec_slots() == old(self).spec_slots().update(
                        b * old(self).spec_bucket_size() + k,
                        pack_entry(spec_tag_of(hash), eval.spec_raw()),
                    )
                } else {
                    final(self).spec_slots() == old(self).spec_slots()
                }
            }),
    {
        proof {
            let nb = self.num_buckets;
            assert((hash & (nb - 1) as u64) <= (nb - 1) as u64) by (bit_vector);
        }
        let low_bits: usize = (hash & (self.num_buckets - 1) as u64) as usize;
        let high_bits: u16 = #[verifier::truncate] ((hash >> 48) as u16);
        let ghost bucket = self.spec_bucket(low_bits as int);
        // reading the length bounds every slot index by usize::MAX
        let n: usize = self.table.len();
        proof {
            lemma_bucket_range(self.num_buckets, self.bucket_size, low_bits as int);
        }
        let base_index: usize = low_bits * self.bucket_size;
        let mut i: usize = 0;
        while i < self.bucket_size
            invariant
                self.wf(),
                *self == *old(self),
                eval.valid(),
                i <= self.bucket_size,
                low_bits < self.num_buckets,
                base_index == low_bits * self.bucket_size,
                base_index + self.bucket_size <= self.table@.len(),
                n == old(self).table@.len(),
                bucket == self.spec_bucket(low_bits as int),
                high_bits == spec_tag_of(hash),
                low_bits as int == self.spec_bucket_of(hash),
                forall|j: int| 0 <= j < i ==> !entry_is_empty(#[trigger] bucket[j]),
            decreases self.bucket_size - i,
        {
            let elem: u32 = self.table[base_index + i];
            proof {
                assert(elem == bucket[i as int]);
            }
            if (elem >> 16) == 0x8000u32 {
                proof {
                    assert(entry_is_empty(elem)) by (bit_vector)
                        requires
                            elem >> 16 == 0x8000u32,
                    ;
                    lemma_first_empty_at(bucket, i as int);
                }
                let raw: i16 = eval.to_raw();
                let raw_bits: u16 = #[verifier::truncate] (raw as u16);
                let new_elem: u32 = (high_bits as u32) | ((raw_bits as u32) << 16);
                self.table.set(base_index + i, new_elem);
                proof {
                    assert(new_elem == pack_entry(high_bits, raw));
                    assert(!entry_is_empty(new_elem)) by (bit_vector)
                        requires
                            new_elem == (high_bits as u32) | (((raw as u16) as u32) << 16),
                            raw != i16::MIN,
                    ;
                    lemma_insert_preserves_wf(
                        *old(self),
                        *self,
                        low_bits as int,
                        i as int,
                        new_elem,
                    );
                }
                return ;
            }
            proof {
                assert(!entry_is_empty(elem)) by (bit_vector)
                    requires
                        elem >> 16 != 0x8000u32,
                ;
            }
            i = i + 1;
        }
        proof {
            lemma_first_empty_full(bucket);
        }
    }
}

/// Each bucket's slice of the slot vector lies inside it.
proof fn lemma_bucket_range(num_buckets: usize, bucket_size: usize, b: int)
    requires
        0 <= b < num_buckets,
    ensures
        0 <= b * bucket_size,
        b * bucket_size + bucket_size <= num_buckets * bucket_size,
{
    assert(0 <= b * bucket_size && b * bucket_size + bucket_size <= num_buckets * bucket_size)
        by (nonlinear_arith)
        requires
            0 <= b < num_buckets,
            bucket_size >= 0,
    ;
}

/// The first empty index lies between zero and the bucket length.
proof fn lemma_first_empty_bounds(bucket: Seq<u32>)
    ensures
        0 <= spec_first_empty(bucket) <= bucket.len(),
    decreases bucket.len(),
{
    if bucket.len() > 0 && !entry_is_empty(bucket[0]) {
        lemma_first_empty_bounds(bucket.drop_first());
    }
}

/// When the first `k` slots are occupied and slot `k` is empty, `k` is the
/// first empty index.
proof fn lemma_first_empty_at(bucket: Seq<u32>, k: int)
    requires
        0 <= k < bucket.len(),
        forall|j: int| 0 <= j < k ==> !entry_is_empty(#[trigger] bucket[j]),
        entry_is_empty(bucket[k]),
    ensures
        spec_first_empty(bucket) == k,
    decreases bucket.len(),
{
    if k > 0 {
        assert(bucket.drop_first()[k - 1] == bucket[k]);
        assert(forall|j: int|
            0 <= j < k - 1 ==> !entry_is_empty(#[trigger] bucket.drop_first()[j]));
        lemma_first_empty_at(bucket.drop_first(), k - 1);
    }
}

/// When every slot is occupied, the first empty index is the length.
proof fn lemma_first_empty_full(bucket: Seq<u32>)
    requires
        forall|j: int| 0 <= j < bucket.len() ==> !entry_is_empty(#[trigger] bucket[j]),
    ensures
        spec_first_empty(bucket) == bucket.len(),
    decreases bucket.len(),
{
    if bucket.len() > 0 {
        lemma_first_empty_full(bucket.drop_first());
    }
}

/// Writing an occupied entry into the first empty slot of one bucket keeps
/// the table well formed and leaves every other slot unchanged.
proof fn lemma_insert_preserves_wf(
    pre: HashTable,
    post: HashTable,
    b: int,
    k: int,
    new_elem: u32,
)
    requires
        pre.wf(),
        0 <= b < pre.spec_num_buckets(),
        0 <= k < pre.spec_bucket_size(),
        forall|j: int| 0 <= j < k ==> !entry_is_empty(#[trigger] pre.spec_bucket(b)[j]),
        !entry_is_empty(new_elem),
        post.spec_num_buckets() == pre.spec_num_buckets(),
        post.spec_bucket_size() == pre.spec_bucket_size(),
        post.spec_slots() == pre.spec_slots().update(b * pre.spec_bucket_size() + k, new_elem),
    ensures
        post.wf(),
{
    let size = pre.spec_bucket_size() as int;
    lemma_bucket_range(pre.spec_num_buckets(), pre.spec_bucket_size(), b);
    assert forall|b2: int, i: int, j: int|
        0 <= b2 < post.spec_num_buckets() && 0 <= i <= j < post.spec_bucket_size()
            && entry_is_empty(#[trigger] post.spec_bucket(b2)[i]) implies entry_is_empty(
        #[trigger] post.spec_bucket(b2)[j],
    ) by {
        lemma_bucket_range(pre.spec_num_buckets(), pre.spec_bucket_size(), b2);
        if b2 != b {
            assert(b2 * size + size <= b * size || b * size + size <= b2 * size)
                by (nonlinear_arith)
                requires
                    b2 != b,
                    0 <= b2,
                    0 <= b,
                    size >= 0,
            ;
            assert(post.spec_bucket(b2) =~= pre.spec_bucket(b2));
        } else {
            assert(post.spec_bucket(b2) =~= pre.spec_bucket(b2).update(k, new_elem));
            assert(!entry_is_empty(post.spec_bucket(b2)[k]));
            assert(i != k);
            assert(pre.spec_bucket(b2)[i] == post.spec_bucket(b2)[i]);
            assert(entry_is_empty(pre.spec_bucket(b2)[i]));
            assert(i > k);
            assert(j > k);
            assert(entry_is_empty(pre.spec_bucket(b2)[j]));
        }
    }
}

/// Law: on a table whose every slot is empty, every lookup misses.
pub proof fn lemma_all_empty_misses(t: HashTable)
    requires
        t.wf(),
        forall|i: int| 0 <= i < t.spec_slots().len() ==> entry_is_empty(#[trigger] t.spec_slots()[i]),
    ensures
        forall|hash: u64| #[trigger] t.spec_get(hash) is None,
{
    assert forall|hash: u64| #[trigger] t.spec_get(hash) is None by {
        let nb = t.spec_num_buckets();
        let b = t.spec_bucket_of(hash);
        assert((hash & (nb - 1) as u64) <= (nb - 1) as u64) by (bit_vector)
            requires
                nb >= 1,
        ;
        lemma_bucket_range(nb, t.spec_bucket_size(), b);
        let bucket = t.spec_bucket(b);
        if bucket.len() > 0 {
            assert(bucket[0] == t.spec_slots()[b * t.spec_bucket_size()]);
            assert(entry_is_empty(bucket[0]));
        }
    }
}

/// Law: a lookup depends only on the bucket and the tag of the hash, so two
/// distinct hashes sharing both are indistinguishable and the stored score of
/// one answers a probe for the other.
pub proof fn lemma_get_aliasing(t: HashTable, h1: u64, h2: u64)
    requires
        t.spec_bucket_of(h1) == t.spec_bucket_of(h2),
        spec_tag_of(h1) == spec_tag_of(h2),
    ensures
        t.spec_get(h1) == t.spec_get(h2),
{
}

/// Law: when no occupied slot of a bucket carries `tag`, a lookup for `tag`
/// misses; in particular an insert dropped for want of an empty slot leaves
/// its key absent.
pub proof fn lemma_lookup_absent(bucket: Seq<u32>, tag: u16)
    requires
        forall|j: int| 0 <= j < bucket.len() ==> entry_tag(#[trigger] bucket[j]) != tag,
    ensures
        spec_lookup(bucket, tag) is None,
    decreases bucket.len(),
{
    if bucket.len() > 0 && !entry_is_empty(bucket[0]) {
        lemma_lookup_absent(bucket.drop_first(), tag);
    }
}

/// Law: a cache round trip. When an insert of `raw` under `hash` found an
/// empty slot (so the table moved from `pre` to `post` as `insert_eval`
/// promises) and no earlier occupied slot of the bucket already carried the
/// hash's tag, a lookup of `hash` afterwards returns exactly `raw`.
pub proof fn lemma_insert_then_get(pre: HashTable, post: HashTable, hash: u64, raw: i16)
    requires
        pre.wf(),
        raw != Evaluation::RESERVED_VALUE,
        spec_first_empty(pre.spec_bucket(pre.spec_bucket_of(hash))) < pre.spec_bucket_size(),
        forall|j: int|
            0 <= j < spec_first_empty(pre.spec_bucket(pre.spec_bucket_of(hash))) ==> entry_tag(
                #[trigger] pre.spec_bucket(pre.spec_bucket_of(hash))[j],
            ) != spec_tag_of(hash),
        post.spec_num_buckets() == pre.spec_num_buckets(),
        post.spec_bucket_size() == pre.spec_bucket_size(),
        post.spec_slots() == pre.spec_slots().update(
            pre.spec_bucket_of(hash) * pre.spec_bucket_size() + spec_first_empty(
                pre.spec_bucket(pre.spec_bucket_of(hash)),
            ),
            pack_entry(spec_tag_of(hash), raw),
        ),
    ensures
        post.spec_get(hash) == Some(raw),
{
    let nb = pre.spec_num_buckets();
    let size = pre.spec_bucket_size() as int;
    let b = pre.spec_bucket_of(hash);
    let bucket = pre.spec_bucket(b);
    let k = spec_first_empty(bucket);
    let tag = spec_tag_of(hash);
    assert((hash & (nb - 1) as u64) <= (nb - 1) as u64) by (bit_vector);
    lemma_bucket_range(nb, pre.spec_bucket_size(), b);
    lemma_first_empty_bounds(bucket);
    assert(post.spec_bucket(b) =~= bucket.update(k, pack_entry(tag, raw)));
    lemma_lookup_after_insert(bucket, tag, raw);
}

/// Law: writing a score into the first empty slot of a bucket none of whose
/// earlier slots carries the same tag makes a lookup for that tag return it.
pub proof fn lemma_lookup_after_insert(bucket: Seq<u32>, tag: u16, raw: i16)
    requires
        raw != Evaluation::RESERVED_VALUE,
        spec_first_empty(bucket) < bucket.len(),
        forall|j: int|
            0 <= j < spec_first_empty(bucket) ==> entry_tag(#[trigger] bucket[j]) != tag,
    ensures
        spec_lookup(bucket.update(spec_first_empty(bucket), pack_entry(tag, raw)), tag) == Some(
            raw,
        ),
    decreases bucket.len(),
{
    let k = spec_first_empty(bucket);
    let e = pack_entry(tag, raw);
    assert(entry_tag(e) == tag && entry_raw(e) == raw) by (bit_vector)
        requires
            e == (tag as u32) | (((raw as u16) as u32) << 16),
    ;
    assert(!entry_is_empty(e));
    if entry_is_empty(bucket[0]) {
        assert(bucket.update(0, e)[0] == e);
    } else {
        lemma_first_empty_bounds(bucket.drop_first());
        assert(k >= 1);
        assert(entry_tag(bucket[0]) != tag);
        assert(bucket.update(k, e)[0] == bucket[0]);
        assert(bucket.update(k, e).drop_first() =~= bucket.drop_first().update(k - 1, e));
        assert(forall|j: int|
            0 <= j < spec_first_empty(bucket.drop_first()) ==> entry_tag(
                #[trigger] bucket.drop_first()[j],
            ) != tag);
        lemma_lookup_after_insert(bucket.drop_first(), tag, raw);
    }
}

} // verus!
