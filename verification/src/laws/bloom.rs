//! What the filters of the garbage collection promise.
use crate::error::DepotErrorView;
use crate::gc::bloom::{
    alike, cleared, countable, filter_error, header_of, holds, item_mask, malformed, merged,
    with_item,
};
use vstd::prelude::*;

verus! {

/// An empty filter has the parameters of its template and no bit set.
pub proof fn law_empty_filter_has_no_bits(template: Seq<u8>, i: int)
    requires
        0 <= i < template.len(),
    ensures
        cleared(template).len() == template.len(),
        i < 45 ==> cleared(template)[i] == template[i],
        i >= 45 ==> cleared(template)[i] == 0,
{
}

/// Adding an item sets the bits of its mask and no other, and keeps the parameters.
pub proof fn law_adding_sets_the_bits_of_the_mask(bytes: Seq<u8>, item: Seq<u8>, i: int)
    requires
        0 <= i < bytes.len(),
        bytes.len() >= 45,
    ensures
        with_item(bytes, item).len() == bytes.len(),
        i < 45 ==> with_item(bytes, item)[i] == bytes[i],
        i >= 45 ==> with_item(bytes, item)[i] == bytes[i] | item_mask(bytes.take(45), item)[i - 45],
{
}

/// A merged filter has the bits of both and no other, and keeps the parameters.
pub proof fn law_merging_unites_the_bits(a: Seq<u8>, b: Seq<u8>, i: int)
    requires
        a.len() == b.len(),
        0 <= i < a.len(),
    ensures
        merged(a, b).len() == a.len(),
        i < 45 ==> merged(a, b)[i] == a[i],
        i >= 45 ==> merged(a, b)[i] == a[i] | b[i],
{
}

/// An item is held exactly where all bits of its mask are set.
pub proof fn law_item_is_held_by_its_bits(bytes: Seq<u8>, item: Seq<u8>)
    ensures
        holds(bytes, item) <==> forall|i: int|
            45 <= i < bytes.len() ==> (#[trigger] bytes[i]) & item_mask(bytes.take(45), item)[i
                - 45] == item_mask(bytes.take(45), item)[i - 45],
{
}

/// Filters go together exactly where they have the same size and parameters.
pub proof fn law_filters_go_together_by_their_parameters(a: Seq<u8>, b: Seq<u8>)
    requires
        a.len() >= 45,
        b.len() >= 45,
    ensures
        alike(a, b) <==> a.len() == b.len() && forall|i: int| 0 <= i < 45 ==> #[trigger] a[i] == b[i],
{
    if a.len() == b.len() && (forall|i: int| 0 <= i < 45 ==> #[trigger] a[i] == b[i]) {
        assert(header_of(a) =~= header_of(b));
    }
    if alike(a, b) {
        assert forall|i: int| 0 <= i < 45 implies #[trigger] a[i] == b[i] by {
            assert(header_of(a)[i] == a[i]);
            assert(header_of(b)[i] == b[i]);
        }
    }
}

/// A filter of an empty set of items, or of any, stays well formed: only the bits
/// behind its parameters change.
pub proof fn law_filter_stays_well_formed(bytes: Seq<u8>, item: Seq<u8>)
    requires
        malformed(bytes) is None,
    ensures
        malformed(with_item(bytes, item)) is None,
        malformed(cleared(bytes)) is None,
{
    let a = with_item(bytes, item);
    let b = cleared(bytes);
    assert(a.subrange(1, 9) =~= bytes.subrange(1, 9));
    assert(b.subrange(1, 9) =~= bytes.subrange(1, 9));
    assert(a[9] == bytes[9] && a[10] == bytes[10] && a[11] == bytes[11] && a[12] == bytes[12]);
    assert(b[9] == bytes[9] && b[10] == bytes[10] && b[11] == bytes[11] && b[12] == bytes[12]);
}

/// A mismatch of filters is told with where it was met.
pub proof fn law_filter_error_tells_its_context(context: Seq<char>, e: Seq<char>)
    ensures
        filter_error(context, e) == DepotErrorView::Internal(
            "bloom filter "@ + context + ": "@ + e,
        ),
{
}

/// The bits of a filter can be counted exactly where their number fits.
pub proof fn law_bits_are_counted_where_they_fit(bytes: Seq<u8>)
    ensures
        countable(bytes) <==> 8 * (bytes.len() - 45) <= u64::MAX,
{
}

} // verus!
