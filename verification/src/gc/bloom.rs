//! Bloom filters that are built in parts and merged.
//!
//! A merge is sound only where the parts hash alike. A filter is serialized as a
//! header (version, length, number of hash functions, seed) followed by its bits,
//! so "hash alike" is "same header": every merge compares the headers first, and
//! a mismatch is an error. Merging filters that hash differently would make live
//! blobs look like orphans.
use crate::error::{DepotError, DepotErrorView};
use bloomfilter::Bloom;
use vstd::prelude::*;

verus! {

/// A filter of the bloomfilter crate.
#[verifier::external_type_specification]
#[verifier::external_body]
#[verifier::reject_recursive_types(T)]
pub struct ExBloom<T: ?Sized>(bloomfilter::Bloom<T>);

/// The serialized form of a filter: its header followed by its bits.
pub uninterp spec fn filter_bytes(b: Bloom<[u8]>) -> Seq<u8>;

/// The bits that stand for an item in filters with this header, as many bytes as
/// the filters have behind the header. They are the same on machines of one word
/// size and byte order: the length of the item goes into the hash as a machine word.
pub uninterp spec fn item_mask(header: Seq<u8>, item: Seq<u8>) -> Seq<u8>;

/// The length of the header.
pub open spec fn header_size() -> nat {
    45
}

/// The header of a serialized filter.
pub open spec fn header_of(bytes: Seq<u8>) -> Seq<u8> {
    bytes.take(header_size() as int)
}

/// Why some bytes are no serialized filter, if they are not.
pub open spec fn malformed(bytes: Seq<u8>) -> Option<Seq<char>> {
    if bytes.len() < header_size() {
        Some("Invalid size"@)
    } else if bytes[0] != 1 {
        Some("Version mismatch"@)
    } else if bytes[9] == 0 && bytes[10] == 0 && bytes[11] == 0 && bytes[12] == 0 {
        Some("Invalid number of keys"@)
    } else if vstd::bytes::spec_u64_from_le_bytes(bytes.subrange(1, 9)) > usize::MAX {
        Some("Too big"@)
    } else if vstd::bytes::spec_u64_from_le_bytes(bytes.subrange(1, 9)) != bytes.len()
        - header_size() {
        Some("Invalid size"@)
    } else {
        None
    }
}

/// Calls `Bloom::as_slice`: the serialized form of the filter. Every constructor
/// makes it well formed, and no method changes the header or the length.
#[verifier::external_body]
fn serialized(b: &Bloom<[u8]>) -> (r: &[u8])
    ensures
        r@ == filter_bytes(*b),
        malformed(r@) is None,
{
    b.as_slice()
}

/// The bits of a filter can be counted in 64 bits.
pub open spec fn countable(bytes: Seq<u8>) -> bool {
    8 * (bytes.len() - header_size()) <= u64::MAX
}

/// Calls `Bloom::len`: eight times the number of bytes behind the header, which
/// has to fit.
#[verifier::external_body]
fn bit_count(b: &Bloom<[u8]>) -> (r: u64)
    requires
        countable(filter_bytes(*b)),
    ensures
        r == 8 * (filter_bytes(*b).len() - header_size()),
{
    b.len()
}

/// Calls `Bloom::from_bytes`: the filter with this serialized form, or why there
/// is none.
#[verifier::external_body]
fn deserialize(bytes: Vec<u8>) -> (r: Result<Bloom<[u8]>, &'static str>)
    ensures
        r is Ok == malformed(bytes@) is None,
        r matches Ok(b) ==> filter_bytes(b) == bytes@,
        r matches Err(e) ==> malformed(bytes@) == Some(e@),
{
    Bloom::from_bytes(bytes)
}

/// Calls `Bloom::clear`: the header stays, every bit is dropped.
#[verifier::external_body]
fn clear_bits(b: &mut Bloom<[u8]>)
    ensures
        filter_bytes(*final(b)) == cleared(filter_bytes(*old(b))),
{
    b.clear()
}

/// Calls `Bloom::set`: the bits of the item are set, nothing else changes. A
/// filter without bits cannot take an item.
#[verifier::external_body]
fn set_bits(b: &mut Bloom<[u8]>, item: &[u8])
    requires
        filter_bytes(*old(b)).len() > header_size(),
    ensures
        filter_bytes(*final(b)) == with_bits(
            filter_bytes(*old(b)),
            item_mask(header_of(filter_bytes(*old(b))), item@),
        ),
{
    b.set(item)
}

/// Calls `Bloom::check`: whether all bits of the item are set. A filter without
/// bits cannot be asked.
#[verifier::external_body]
fn check_bits(b: &Bloom<[u8]>, item: &[u8]) -> (r: bool)
    requires
        filter_bytes(*b).len() > header_size(),
    ensures
        r == holds(filter_bytes(*b), item@),
{
    b.check(item)
}

/// A filter without its bits.
pub open spec fn cleared(bytes: Seq<u8>) -> Seq<u8> {
    Seq::new(
        bytes.len(),
        |i: int|
            if i < header_size() {
                bytes[i]
            } else {
                0u8
            },
    )
}

/// A filter with some bits added.
pub open spec fn with_bits(bytes: Seq<u8>, bits: Seq<u8>) -> Seq<u8> {
    Seq::new(
        bytes.len(),
        |i: int|
            if i < header_size() {
                bytes[i]
            } else {
                bytes[i] | bits[i - header_size()]
            },
    )
}

/// A filter with an item added.
pub open spec fn with_item(bytes: Seq<u8>, item: Seq<u8>) -> Seq<u8> {
    with_bits(bytes, item_mask(header_of(bytes), item))
}

/// All bits of an item are set.
pub open spec fn holds(bytes: Seq<u8>, item: Seq<u8>) -> bool {
    let mask = item_mask(header_of(bytes), item);
    forall|i: int|
        header_size() <= i < bytes.len() ==> (#[trigger] bytes[i]) & mask[i - header_size()]
            == mask[i - header_size()]
}

/// Two filters hash alike.
pub open spec fn alike(a: Seq<u8>, b: Seq<u8>) -> bool {
    header_of(a) == header_of(b) && a.len() == b.len()
}

/// The bits of two filters together.
pub open spec fn merged(a: Seq<u8>, b: Seq<u8>) -> Seq<u8> {
    with_bits(a, b.skip(header_size() as int))
}

/// An error of a filter operation.
pub open spec fn filter_error(context: Seq<char>, e: Seq<char>) -> DepotErrorView {
    DepotErrorView::Internal("bloom filter "@ + context + ": "@ + e)
}

/// An error of a filter operation.
fn bloom_err(context: &str, e: &str) -> (r: DepotError)
    ensures
        r.deep_view() == filter_error(context@, e@),
{
    let mut s = "bloom filter ".to_string();
    s.append(context);
    s.append(": ");
    s.append(e);
    DepotError::Internal(s)
}

/// Length of the header in front of the bits: the serialized length less the
/// bytes that the bit count implies.
fn header_len(filter: &Bloom<[u8]>) -> (r: usize)
    requires
        countable(filter_bytes(*filter)),
    ensures
        r == header_size(),
{
    let total: usize = serialized(filter).len();
    let bitmap_bytes: usize = (bit_count(filter) / 8) as usize;
    total.saturating_sub(bitmap_bytes)
}

/// Copy some bytes.
fn copy_bytes(bytes: &[u8]) -> (r: Vec<u8>)
    ensures
        r@ == bytes@,
{
    let mut out: Vec<u8> = Vec::new();
    let mut i: usize = 0;
    while i < bytes.len()
        invariant
            i <= bytes@.len(),
            out@ == bytes@.take(i as int),
        decreases bytes@.len() - i,
    {
        out.push(bytes[i]);
        assert(out@ =~= bytes@.take(i + 1));
        i = i + 1;
    }
    assert(out@ =~= bytes@);
    out
}

/// An empty filter that hashes like `template`, to be filled in parallel and
/// merged.
pub fn bloom_empty_like(template: &Bloom<[u8]>) -> (r: Result<Bloom<[u8]>, DepotError>)
    ensures
        r is Ok,
        filter_bytes(r->Ok_0) == cleared(filter_bytes(*template)),
{
    let bytes = copy_bytes(serialized(template));
    match deserialize(bytes) {
        Ok(b) => {
            let mut out = b;
            clear_bits(&mut out);
            Ok(out)
        },
        Err(e) => Err(bloom_err("clone", e)),
    }
}

/// Add an item to a filter.
pub fn bloom_set(filter: &mut Bloom<[u8]>, item: &[u8])
    requires
        filter_bytes(*old(filter)).len() > header_size(),
    ensures
        filter_bytes(*final(filter)) == with_item(filter_bytes(*old(filter)), item@),
{
    set_bits(filter, item)
}

/// Whether a filter may hold an item.
pub fn bloom_check(filter: &Bloom<[u8]>, item: &[u8]) -> (r: bool)
    requires
        filter_bytes(*filter).len() > header_size(),
    ensures
        r == holds(filter_bytes(*filter), item@),
{
    check_bits(filter, item)
}

/// Whether a filter has bits at all: only then can it take or be asked for an
/// item.
pub fn bloom_usable(filter: &Bloom<[u8]>) -> (r: bool)
    ensures
        r == (filter_bytes(*filter).len() > header_size()),
{
    serialized(filter).len() > 45
}

/// Whether the bits of a filter can be counted, as a merge does.
pub fn bloom_countable(filter: &Bloom<[u8]>) -> (r: bool)
    ensures
        r == countable(filter_bytes(*filter)),
{
    serialized(filter).len() as u128 - 45 <= 0x1fff_ffff_ffff_ffff
}

/// Whether two headers are the same.
fn same_bytes(a: &[u8], b: &[u8], n: usize) -> (r: bool)
    requires
        n <= a@.len(),
        n <= b@.len(),
    ensures
        r == (a@.take(n as int) == b@.take(n as int)),
{
    let mut i: usize = 0;
    while i < n
        invariant
            i <= n,
            n <= a@.len(),
            n <= b@.len(),
            forall|j: int| 0 <= j < i ==> a@[j] == b@[j],
        decreases n - i,
    {
        if a[i] != b[i] {
            assert(a@.take(n as int)[i as int] != b@.take(n as int)[i as int]);
            return false;
        }
        i = i + 1;
    }
    assert(a@.take(n as int) =~= b@.take(n as int));
    true
}

/// Merge `source` into `target`. Filters that do not hash alike are an error,
/// and `target` then stays as it is.
pub fn bloom_union(target: &mut Bloom<[u8]>, source: &Bloom<[u8]>) -> (r: Result<(), DepotError>)
    requires
        countable(filter_bytes(*old(target))),
    ensures
        r is Ok <==> alike(filter_bytes(*old(target)), filter_bytes(*source)),
        r is Ok ==> filter_bytes(*final(target)) == merged(
            filter_bytes(*old(target)),
            filter_bytes(*source),
        ),
        r matches Err(e) ==> *final(target) == *old(target) && e.deep_view() == filter_error(
            "union"@,
            "filter parameter mismatch"@,
        ),
{
    let h: usize = header_len(target);
    let mut all = copy_bytes(serialized(target));
    let src = serialized(source);
    if all.len() != src.len() || !same_bytes(all.as_slice(), src, h) {
        return Err(bloom_err("union", "filter parameter mismatch"));
    }
    let ghost before = all@;
    let mut i: usize = h;
    while i < src.len()
        invariant
            h == header_size(),
            h <= i <= src@.len(),
            all@.len() == src@.len(),
            before.len() == src@.len(),
            forall|j: int| 0 <= j < h ==> all@[j] == before[j],
            forall|j: int| h <= j < i ==> all@[j] == before[j] | src@[j],
            forall|j: int| i <= j < src@.len() ==> all@[j] == before[j],
        decreases src@.len() - i,
    {
        let byte: u8 = all[i] | src[i];
        all.set(i, byte);
        i = i + 1;
    }
    proof {
        assert(all@ =~= merged(before, src@));
        lemma_same_header(before, all@);
    }
    match deserialize(all) {
        Ok(b) => {
            *target = b;
            Ok(())
        },
        Err(e) => Err(bloom_err("union", e)),
    }
}

/// Bytes with a well-formed header and the same length are well formed.
proof fn lemma_same_header(a: Seq<u8>, b: Seq<u8>)
    requires
        malformed(a) is None,
        a.len() == b.len(),
        forall|i: int| 0 <= i < header_size() ==> a[i] == b[i],
    ensures
        malformed(b) is None,
        header_of(a) == header_of(b),
{
    assert(a.subrange(1, 9) =~= b.subrange(1, 9));
    assert(header_of(a) =~= header_of(b));
}

/// Folds the filters of parts into one.
#[derive(Debug)]
pub struct BloomAccumulator {
    header: Vec<u8>,
    bits: Vec<u8>,
}

impl View for BloomAccumulator {
    type V = Seq<u8>;

    /// The serialized form of the filter accumulated so far.
    closed spec fn view(&self) -> Seq<u8> {
        self.header@ + self.bits@
    }
}

impl BloomAccumulator {
    #[verifier::type_invariant]
    spec fn wf(self) -> bool {
        self.header@.len() == header_size() && malformed(self.header@ + self.bits@) is None
    }

    /// An empty accumulator for filters that hash like `template`.
    pub fn empty_like(template: &Bloom<[u8]>) -> (r: Self)
        requires
            countable(filter_bytes(*template)),
        ensures
            r@ == cleared(filter_bytes(*template)),
    {
        let h: usize = header_len(template);
        let bytes = serialized(template);
        let mut header: Vec<u8> = Vec::new();
        let mut bits: Vec<u8> = Vec::new();
        let mut i: usize = 0;
        while i < bytes.len()
            invariant
                h == header_size(),
                i <= bytes@.len(),
                i <= h ==> header@ == bytes@.take(i as int) && bits@.len() == 0,
                i > h ==> header@ == bytes@.take(h as int) && bits@.len() == i - h,
                forall|j: int| 0 <= j < bits@.len() ==> bits@[j] == 0,
            decreases bytes@.len() - i,
        {
            if i < h {
                header.push(bytes[i]);
                assert(header@ =~= bytes@.take(i + 1));
            } else {
                bits.push(0);
            }
            i = i + 1;
        }
        proof {
            assert(header@ + bits@ =~= cleared(bytes@));
            lemma_same_header(bytes@, cleared(bytes@));
        }
        BloomAccumulator { header, bits }
    }

    /// Add the bits of `source`. A filter that does not hash alike is an error,
    /// and the accumulator then stays as it is.
    pub fn or_from(&mut self, source: &Bloom<[u8]>) -> (r: Result<(), DepotError>)
        ensures
            r is Ok <==> alike(old(self)@, filter_bytes(*source)),
            r is Ok ==> final(self)@ == merged(old(self)@, filter_bytes(*source)),
            r matches Err(e) ==> final(self)@ == old(self)@ && e.deep_view() == filter_error(
                "accumulate"@,
                "filter parameter mismatch"@,
            ),
    {
        proof {
            use_type_invariant(&*self);
        }
        let h: usize = self.header.len();
        let n: usize = self.bits.len();
        let src = serialized(source);
        proof {
            assert(header_of(self@) =~= self.header@);
            assert(self.header@.take(h as int) =~= self.header@);
        }
        let total: usize = src.len();
        if total - h != n || !same_bytes(src, self.header.as_slice(), h) {
            return Err(bloom_err("accumulate", "filter parameter mismatch"));
        }
        let ghost before = self@;
        let ghost old_bits = self.bits@;
        let mut bits: Vec<u8> = Vec::new();
        let mut i: usize = 0;
        while i < n
            invariant
                n == self.bits@.len(),
                h == header_size(),
                src@.len() == total,
                total == h + n,
                i <= n,
                bits@.len() == i,
                forall|j: int| 0 <= j < i ==> bits@[j] == self.bits@[j] | src@[h + j],
            decreases n - i,
        {
            bits.push(self.bits[i] | src[h + i]);
            i = i + 1;
        }
        let header = copy_bytes(self.header.as_slice());
        proof {
            assert(header@ + bits@ =~= merged(before, src@));
            lemma_same_header(before, header@ + bits@);
        }
        *self = BloomAccumulator { header, bits };
        Ok(())
    }

    /// The accumulated filter, ready to be asked.
    pub fn finalize(self) -> (r: Result<Bloom<[u8]>, DepotError>)
        ensures
            r is Ok,
            filter_bytes(r->Ok_0) == self@,
    {
        proof {
            use_type_invariant(&self);
        }
        let mut bytes = copy_bytes(self.header.as_slice());
        let mut bits = copy_bytes(self.bits.as_slice());
        bytes.append(&mut bits);
        match deserialize(bytes) {
            Ok(b) => Ok(b),
            Err(e) => Err(bloom_err("finalize", e)),
        }
    }
}

/// Or is commutative, associative and idempotent, and keeps the bits that were
/// set.
proof fn lemma_or(a: u8, b: u8, c: u8)
    ensures
        a | b == b | a,
        (a | b) | c == a | (b | c),
        a | a == a,
        0u8 | a == a,
        (a | b) & b == b,
        a & c == c ==> (a | b) & c == c,
{
    assert(a | b == b | a) by (bit_vector);
    assert((a | b) | c == a | (b | c)) by (bit_vector);
    assert(a | a == a) by (bit_vector);
    assert(0u8 | a == a) by (bit_vector);
    assert((a | b) & b == b) by (bit_vector);
    assert(a & c == c ==> (a | b) & c == c) by (bit_vector);
}

/// There are no false negatives: an item that was added is held.
pub proof fn law_added_item_is_held(bytes: Seq<u8>, item: Seq<u8>)
    requires
        bytes.len() >= header_size(),
    ensures
        holds(with_item(bytes, item), item),
{
    let out = with_item(bytes, item);
    let mask = item_mask(header_of(bytes), item);
    assert(header_of(out) =~= header_of(bytes));
    assert forall|i: int| header_size() <= i < out.len() implies (#[trigger] out[i]) & mask[i
        - header_size()] == mask[i - header_size()] by {
        lemma_or(bytes[i], mask[i - header_size()], 0);
    }
}

/// Adding an item loses no other.
pub proof fn law_adding_keeps_items(bytes: Seq<u8>, item: Seq<u8>, other: Seq<u8>)
    requires
        bytes.len() >= header_size(),
        holds(bytes, other),
    ensures
        holds(with_item(bytes, item), other),
{
    let out = with_item(bytes, item);
    let bits = item_mask(header_of(bytes), item);
    let mask = item_mask(header_of(bytes), other);
    assert(header_of(out) =~= header_of(bytes));
    assert forall|i: int| header_size() <= i < out.len() implies (#[trigger] out[i]) & mask[i
        - header_size()] == mask[i - header_size()] by {
        assert(bytes[i] & mask[i - header_size()] == mask[i - header_size()]);
        lemma_or(bytes[i], bits[i - header_size()], mask[i - header_size()]);
    }
}

/// A merge of filters that hash alike holds what either of them holds.
pub proof fn law_merge_keeps_items(a: Seq<u8>, b: Seq<u8>, item: Seq<u8>)
    requires
        a.len() >= header_size(),
        alike(a, b),
        holds(a, item) || holds(b, item),
    ensures
        holds(merged(a, b), item),
{
    let out = merged(a, b);
    let mask = item_mask(header_of(a), item);
    assert(header_of(out) =~= header_of(a));
    assert forall|i: int| header_size() <= i < out.len() implies (#[trigger] out[i]) & mask[i
        - header_size()] == mask[i - header_size()] by {
        let m = mask[i - header_size()];
        assert(b.skip(header_size() as int)[i - header_size()] == b[i]);
        lemma_or(a[i], b[i], m);
        lemma_or(b[i], a[i], m);
        if holds(a, item) {
            assert(a[i] & m == m);
        } else {
            assert(b[i] & m == m);
        }
    }
}

/// The order in which two parts are merged does not matter.
pub proof fn law_merge_order_is_free(acc: Seq<u8>, a: Seq<u8>, b: Seq<u8>)
    requires
        acc.len() >= header_size(),
        alike(acc, a),
        alike(acc, b),
    ensures
        merged(merged(acc, a), b) == merged(merged(acc, b), a),
{
    let x = merged(merged(acc, a), b);
    let y = merged(merged(acc, b), a);
    assert forall|i: int| 0 <= i < x.len() implies x[i] == y[i] by {
        if i >= header_size() {
            assert(a.skip(header_size() as int)[i - header_size()] == a[i]);
            assert(b.skip(header_size() as int)[i - header_size()] == b[i]);
            lemma_or(acc[i], a[i], b[i]);
            lemma_or(a[i], b[i], 0);
            lemma_or(acc[i], b[i], a[i]);
        }
    }
    assert(x =~= y);
}

/// Merging the same part twice changes nothing.
pub proof fn law_merge_is_idempotent(acc: Seq<u8>, a: Seq<u8>)
    requires
        acc.len() >= header_size(),
        alike(acc, a),
    ensures
        merged(merged(acc, a), a) == merged(acc, a),
{
    let x = merged(merged(acc, a), a);
    let y = merged(acc, a);
    assert forall|i: int| 0 <= i < x.len() implies x[i] == y[i] by {
        if i >= header_size() {
            assert(a.skip(header_size() as int)[i - header_size()] == a[i]);
            lemma_or(acc[i], a[i], a[i]);
            lemma_or(a[i], a[i], a[i]);
        }
    }
    assert(x =~= y);
}

/// A filter after items were added one by one.
pub open spec fn with_items(bytes: Seq<u8>, items: Seq<Seq<u8>>) -> Seq<u8>
    decreases items.len(),
{
    if items.len() == 0 {
        bytes
    } else {
        with_item(with_items(bytes, items.drop_last()), items.last())
    }
}

/// Adding items keeps length and header.
pub proof fn lemma_with_items(bytes: Seq<u8>, items: Seq<Seq<u8>>)
    requires
        bytes.len() >= header_size(),
    ensures
        with_items(bytes, items).len() == bytes.len(),
        header_of(with_items(bytes, items)) == header_of(bytes),
    decreases items.len(),
{
    if items.len() > 0 {
        lemma_with_items(bytes, items.drop_last());
        assert(header_of(with_items(bytes, items)) =~= header_of(bytes));
    }
}

/// Every item that was added is held.
pub proof fn law_added_items_are_held(bytes: Seq<u8>, items: Seq<Seq<u8>>, item: Seq<u8>)
    requires
        bytes.len() >= header_size(),
        items.contains(item),
    ensures
        holds(with_items(bytes, items), item),
    decreases items.len(),
{
    let rest = items.drop_last();
    lemma_with_items(bytes, rest);
    if item == items.last() {
        law_added_item_is_held(with_items(bytes, rest), item);
    } else {
        let i = choose|i: int| 0 <= i < items.len() && items[i] == item;
        assert(rest[i] == item);
        law_added_items_are_held(bytes, rest, item);
        law_adding_keeps_items(with_items(bytes, rest), items.last(), item);
    }
}

/// Filling one filter with all items gives the same bits as filling a filter per
/// part and merging them: here for two parts.
pub proof fn law_parts_merge_to_the_whole(
    template: Seq<u8>,
    first: Seq<Seq<u8>>,
    second: Seq<Seq<u8>>,
)
    requires
        template.len() >= header_size(),
    ensures
        merged(with_items(cleared(template), first), with_items(cleared(template), second))
            == with_items(cleared(template), first + second),
    decreases second.len(),
{
    let empty = cleared(template);
    let a = with_items(empty, first);
    lemma_with_items(empty, first);
    lemma_with_items(empty, second);
    lemma_with_items(empty, first + second);
    let b = with_items(empty, second);
    let whole = with_items(empty, first + second);
    let x = merged(a, b);
    if second.len() == 0 {
        assert(first + second =~= first);
        assert forall|i: int| 0 <= i < x.len() implies x[i] == a[i] by {
            if i >= header_size() {
                assert(b.skip(header_size() as int)[i - header_size()] == 0u8);
                lemma_or(a[i], 0, 0);
                lemma_or(0, a[i], 0);
            }
        }
        assert(x =~= whole);
    } else {
        let rest = second.drop_last();
        let item = second.last();
        law_parts_merge_to_the_whole(template, first, rest);
        lemma_with_items(empty, rest);
        lemma_with_items(empty, first + rest);
        assert((first + second).drop_last() =~= first + rest);
        assert((first + second).last() == item);
        let c = with_items(empty, rest);
        let d = with_items(empty, first + rest);
        let mask = item_mask(header_of(empty), item);
        assert(merged(a, c) == d);
        assert forall|i: int| 0 <= i < x.len() implies x[i] == whole[i] by {
            if i >= header_size() {
                assert(b.skip(header_size() as int)[i - header_size()] == b[i]);
                assert(c.skip(header_size() as int)[i - header_size()] == c[i]);
                assert(b[i] == c[i] | mask[i - header_size()]);
                assert(d[i] == a[i] | c[i]);
                assert(whole[i] == d[i] | mask[i - header_size()]);
                lemma_or(a[i], c[i], mask[i - header_size()]);
            } else {
                assert(header_of(a)[i] == header_of(whole)[i]);
            }
        }
        assert(x =~= whole);
    }
}

} // verus!
