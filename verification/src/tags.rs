//! Tags and the slot of options that a tag mask selects.
//!
//! A tag is one bit of a 32-bit mask. Each tag has a slot of its own; every
//! mask that is not exactly one tag shares one further slot.

use vstd::prelude::*;

verus! {

/// How many tags a mask can hold.
pub const TAGS: u32 = 32;

/// The slot shared by every mask that is not a single tag.
pub const SHARED_SLOT: usize = 32;

/// How many slots there are: one for each tag, and the shared one.
pub const SLOTS: usize = 33;

/// `mask` holds the tag `index`, possibly among others.
pub open spec fn has_tag(mask: u32, index: u32) -> bool {
    index < TAGS && mask & (1u32 << index) != 0
}

/// `mask` holds the tag `index` and no other.
pub open spec fn is_tag(mask: u32, index: u32) -> bool {
    index < TAGS && mask == 1u32 << index
}

/// The slot that `mask` selects: the index of its tag where it holds exactly
/// one, and the shared slot where it holds none or several.
pub open spec fn slot(mask: u32) -> int {
    if exists|index: u32| is_tag(mask, index) {
        (choose|index: u32| is_tag(mask, index)) as int
    } else {
        SHARED_SLOT as int
    }
}

/// A mask is a single tag in at most one way.
pub proof fn lemma_tag_unique(mask: u32, a: u32, b: u32)
    requires
        is_tag(mask, a),
        is_tag(mask, b),
    ensures
        a == b,
{
    assert(a == b) by (bit_vector)
        requires
            a < 32,
            b < 32,
            1u32 << a == 1u32 << b,
    ;
}

/// A mask of exactly one tag selects that tag's slot.
pub proof fn lemma_slot_of_single_tag(mask: u32, index: u32)
    requires
        is_tag(mask, index),
    ensures
        slot(mask) == index,
        slot(mask) < SHARED_SLOT,
{
    let chosen = choose|i: u32| is_tag(mask, i);
    lemma_tag_unique(mask, chosen, index);
}

/// The empty mask selects the shared slot.
pub proof fn lemma_slot_of_no_tag()
    ensures
        slot(0) == SHARED_SLOT,
{
    assert forall|index: u32| !is_tag(0, index) by {
        assert(index < 32 ==> 1u32 << index != 0) by (bit_vector);
    }
}

/// A mask that holds two different tags selects the shared slot.
pub proof fn lemma_slot_of_several_tags(mask: u32, a: u32, b: u32)
    requires
        has_tag(mask, a),
        has_tag(mask, b),
        a != b,
    ensures
        slot(mask) == SHARED_SLOT,
{
    assert forall|index: u32| !is_tag(mask, index) by {
        assert(!(index < 32 && mask == 1u32 << index)) by (bit_vector)
            requires
                a < 32,
                b < 32,
                a != b,
                mask & (1u32 << a) != 0,
                mask & (1u32 << b) != 0,
        ;
    }
}

/// The slot that `mask` selects.
pub fn bit_index_or_shared(mask: u32) -> (index: usize)
    ensures
        index == slot(mask),
        index < SLOTS,
        index < SHARED_SLOT <==> is_tag(mask, index as u32),
{
    if mask != 0 && mask & (mask - 1) == 0 {
        let index = mask.trailing_zeros();
        proof {
            vstd::std_specs::bits::axiom_u32_trailing_zeros(mask);
            assert(mask == 1u32 << index) by (bit_vector)
                requires
                    index < 32,
                    (mask >> index) & 1u32 == 1u32,
                    mask != 0,
                    mask & ((mask - 1) as u32) == 0,
            ;
            lemma_slot_of_single_tag(mask, index);
        }
        index as usize
    } else {
        proof {
            assert forall|index: u32| !is_tag(mask, index) by {
                assert(!(index < 32 && mask == 1u32 << index)) by (bit_vector)
                    requires
                        mask == 0 || mask & ((mask - 1) as u32) != 0,
                ;
            }
        }
        SHARED_SLOT
    }
}

} // verus!
