//! Lists of attributes: finding an attribute by its key, and setting one.

use crate::bytes::{copy, same_bytes};
use crate::xml::{attribute_list_view, attributes_view, well_formed, Attribute, AttributeView};
use vstd::prelude::*;

verus! {

/// Whether the entry is a well-formed attribute with this key.
pub open spec fn has_key(entry: Option<AttributeView>, key: Seq<u8>) -> bool {
    entry matches Some(attribute) && attribute.key == key
}

/// The first well-formed attribute with this key, if there is one.
/// Malformed entries are passed over.
pub open spec fn first_with_key(entries: Seq<Option<AttributeView>>, key: Seq<u8>) -> Option<
    AttributeView,
>
    decreases entries.len(),
{
    if entries.len() == 0 {
        None
    } else if has_key(entries[0], key) {
        entries[0]
    } else {
        first_with_key(entries.drop_first(), key)
    }
}

/// The first attribute with this key is the one at position `i` where no
/// entry before `i` has the key and the entry at `i` has it.
pub proof fn first_with_key_at(entries: Seq<Option<AttributeView>>, key: Seq<u8>, i: int)
    requires
        0 <= i < entries.len(),
        has_key(entries[i], key),
        forall|j: int| 0 <= j < i ==> !has_key(#[trigger] entries[j], key),
    ensures
        first_with_key(entries, key) == entries[i],
    decreases i,
{
    if i > 0 {
        let rest = entries.drop_first();
        assert(!has_key(entries[0], key));
        assert forall|j: int| 0 <= j < i - 1 implies !has_key(#[trigger] rest[j], key) by {
            assert(rest[j] == entries[j + 1]);
        }
        first_with_key_at(rest, key, i - 1);
    }
}

/// There is no first attribute with this key where no entry has it.
pub proof fn first_with_key_none(entries: Seq<Option<AttributeView>>, key: Seq<u8>)
    requires
        forall|j: int| 0 <= j < entries.len() ==> !has_key(#[trigger] entries[j], key),
    ensures
        first_with_key(entries, key) is None,
    decreases entries.len(),
{
    if entries.len() > 0 {
        let rest = entries.drop_first();
        assert(!has_key(entries[0], key));
        assert forall|j: int| 0 <= j < rest.len() implies !has_key(#[trigger] rest[j], key) by {
            assert(rest[j] == entries[j + 1]);
        }
        first_with_key_none(rest, key);
    }
}

/// Finds the first well-formed attribute with this key.
pub fn find_attribute<'a>(entries: &'a Vec<Option<Attribute>>, key: &[u8]) -> (found: Option<
    &'a Attribute,
>)
    ensures
        match found {
            Some(attribute) => first_with_key(attributes_view(entries@), key@) == Some(attribute@),
            None => first_with_key(attributes_view(entries@), key@) is None,
        },
{
    let ghost all = attributes_view(entries@);
    let mut i: usize = 0;
    while i < entries.len()
        invariant
            i <= entries@.len(),
            all == attributes_view(entries@),
            forall|j: int| 0 <= j < i ==> !has_key(#[trigger] all[j], key@),
        decreases entries@.len() - i,
    {
        match &entries[i] {
            Some(attribute) => {
                if same_bytes(attribute.key.as_slice(), key) {
                    proof {
                        assert(all[i as int] == Some(attribute@));
                        first_with_key_at(all, key@, i as int);
                    }
                    return Some(attribute);
                }
            },
            None => {},
        }
        i += 1;
    }
    proof {
        first_with_key_none(all, key@);
    }
    None
}

/// The attributes of a tag where every one of them is well-formed.
pub open spec fn all_well_formed(entries: Seq<Option<AttributeView>>) -> Option<Seq<AttributeView>> {
    if forall|i: int| 0 <= i < entries.len() ==> (#[trigger] entries[i]) is Some {
        Some(Seq::new(entries.len(), |i: int| entries[i]->0))
    } else {
        None
    }
}

/// Copies the attributes of a tag, unless one of them is malformed.
pub fn well_formed_attributes(entries: &Vec<Option<Attribute>>) -> (attributes: Option<
    Vec<Attribute>,
>)
    ensures
        match attributes {
            Some(list) => all_well_formed(attributes_view(entries@)) == Some(
                attribute_list_view(list@),
            ),
            None => all_well_formed(attributes_view(entries@)) is None,
        },
{
    let ghost all = attributes_view(entries@);
    let mut list: Vec<Attribute> = Vec::new();
    let mut i: usize = 0;
    while i < entries.len()
        invariant
            i <= entries@.len(),
            all == attributes_view(entries@),
            list@.len() == i,
            forall|j: int| 0 <= j < i ==> (#[trigger] all[j]) == Some(list@[j]@),
        decreases entries@.len() - i,
    {
        match &entries[i] {
            Some(attribute) => {
                list.push(attribute.duplicate());
            },
            None => {
                assert(all[i as int] is None);
                return None;
            },
        }
        i += 1;
    }
    proof {
        assert(attribute_list_view(list@) =~= Seq::new(all.len(), |i: int| all[i]->0));
    }
    Some(list)
}

/// Whether some attribute of the list has this key.
pub open spec fn contains_key(attributes: Seq<AttributeView>, key: Seq<u8>) -> bool {
    exists|i: int| 0 <= i < attributes.len() && (#[trigger] attributes[i]).key == key
}

/// The attribute with `value` in place of its own where it has this key.
pub open spec fn with_value(attribute: AttributeView, key: Seq<u8>, value: Seq<u8>) -> AttributeView {
    if attribute.key == key {
        AttributeView { key: attribute.key, value }
    } else {
        attribute
    }
}

/// The list with the attribute `key` set to `value`: where the list has the
/// key, each attribute with it takes the value and the order stays; where it
/// has not, the attribute is added at the end.
pub open spec fn with_attribute(attributes: Seq<AttributeView>, key: Seq<u8>, value: Seq<u8>) -> Seq<
    AttributeView,
> {
    if contains_key(attributes, key) {
        Seq::new(attributes.len(), |i: int| with_value(attributes[i], key, value))
    } else {
        attributes.push(AttributeView { key, value })
    }
}

/// Sets the attribute `key` to `value`.
pub fn set_attribute(attributes: Vec<Attribute>, key: &[u8], value: &[u8]) -> (updated: Vec<
    Attribute,
>)
    ensures
        attribute_list_view(updated@) == with_attribute(
            attribute_list_view(attributes@),
            key@,
            value@,
        ),
{
    let ghost all = attribute_list_view(attributes@);
    let mut updated: Vec<Attribute> = Vec::new();
    let mut found = false;
    let mut i: usize = 0;
    while i < attributes.len()
        invariant
            i <= attributes@.len(),
            all == attribute_list_view(attributes@),
            updated@.len() == i,
            forall|j: int| 0 <= j < i ==> (#[trigger] updated@[j])@ == with_value(all[j], key@, value@),
            found == exists|j: int| 0 <= j < i && (#[trigger] all[j]).key == key@,
        decreases attributes@.len() - i,
    {
        let attribute = &attributes[i];
        assert(all[i as int] == attribute@);
        if same_bytes(attribute.key.as_slice(), key) {
            updated.push(Attribute { key: copy(attribute.key.as_slice()), value: copy(value) });
            found = true;
        } else {
            updated.push(attribute.duplicate());
        }
        i += 1;
    }
    if found {
        assert(attribute_list_view(updated@) =~= with_attribute(all, key@, value@));
    } else {
        proof {
            assert forall|j: int| 0 <= j < all.len() implies (#[trigger] updated@[j])@ == all[j] by {
                assert(all[j].key != key@);
            }
        }
        updated.push(Attribute { key: copy(key), value: copy(value) });
        assert(attribute_list_view(updated@) =~= with_attribute(all, key@, value@));
    }
    updated
}

/// How many attributes of the list have this key.
pub open spec fn count_key(attributes: Seq<AttributeView>, key: Seq<u8>) -> nat
    decreases attributes.len(),
{
    if attributes.len() == 0 {
        0
    } else {
        count_key(attributes.drop_last(), key) + if attributes.last().key == key {
            1nat
        } else {
            0nat
        }
    }
}

/// A list has an attribute with a key exactly where it counts at least one.
pub proof fn count_key_positive(attributes: Seq<AttributeView>, key: Seq<u8>)
    ensures
        contains_key(attributes, key) <==> count_key(attributes, key) > 0,
    decreases attributes.len(),
{
    if attributes.len() > 0 {
        let front = attributes.drop_last();
        count_key_positive(front, key);
        if contains_key(attributes, key) {
            let i = choose|i: int| 0 <= i < attributes.len() && (#[trigger] attributes[i]).key == key;
            if i < front.len() {
                assert(front[i].key == key);
            }
        }
        if contains_key(front, key) {
            let i = choose|i: int| 0 <= i < front.len() && (#[trigger] front[i]).key == key;
            assert(attributes[i].key == key);
        }
        if attributes.last().key == key {
            assert(attributes[attributes.len() - 1].key == key);
        }
    }
}

/// Two lists of the same length whose attributes have the key at the same
/// positions count it alike.
pub proof fn count_key_same_keys(left: Seq<AttributeView>, right: Seq<AttributeView>, key: Seq<u8>)
    requires
        left.len() == right.len(),
        forall|i: int| 0 <= i < left.len() ==> ((#[trigger] left[i]).key == key) == (right[i].key == key),
    ensures
        count_key(left, key) == count_key(right, key),
    decreases left.len(),
{
    if left.len() > 0 {
        assert(left.last() == left[left.len() - 1]);
        assert(right.last() == right[right.len() - 1]);
        assert forall|i: int| 0 <= i < left.drop_last().len() implies ((
            #[trigger] left.drop_last()[i]).key == key) == (right.drop_last()[i].key == key) by {
            assert(left.drop_last()[i] == left[i]);
        }
        count_key_same_keys(left.drop_last(), right.drop_last(), key);
    }
}

/// Setting an attribute never doubles it: a list without the key has it once
/// afterwards, a list with the key has it as often as before; and every
/// attribute with the key then holds the value.
pub proof fn set_attribute_once(attributes: Seq<AttributeView>, key: Seq<u8>, value: Seq<u8>)
    ensures
        count_key(with_attribute(attributes, key, value), key) == if count_key(attributes, key)
            == 0 {
            1
        } else {
            count_key(attributes, key)
        },
        forall|i: int|
            0 <= i < with_attribute(attributes, key, value).len() && (#[trigger] with_attribute(
                attributes,
                key,
                value,
            )[i]).key == key ==> with_attribute(attributes, key, value)[i].value == value,
{
    let updated = with_attribute(attributes, key, value);
    count_key_positive(attributes, key);
    if contains_key(attributes, key) {
        count_key_same_keys(attributes, updated, key);
    } else {
        assert(updated.drop_last() =~= attributes);
        assert forall|i: int| 0 <= i < updated.len() && (#[trigger] updated[i]).key
            == key implies updated[i].value == value by {
            if i < attributes.len() {
                assert(attributes[i].key == key);
            }
        }
    }
}

/// The first attribute with a key stands at the first position whose entry
/// has the key; there is none where no entry has it.
pub proof fn first_with_key_found(entries: Seq<Option<AttributeView>>, key: Seq<u8>)
    ensures
        match first_with_key(entries, key) {
            Some(attribute) => exists|k: int|
                0 <= k < entries.len() && #[trigger] has_key(entries[k], key) && entries[k] == Some(
                    attribute,
                ) && forall|j: int| 0 <= j < k ==> !has_key(#[trigger] entries[j], key),
            None => forall|j: int| 0 <= j < entries.len() ==> !has_key(#[trigger] entries[j], key),
        },
    decreases entries.len(),
{
    if entries.len() == 0 {
    } else if has_key(entries[0], key) {
        assert(has_key(entries[0], key) && entries[0] == first_with_key(entries, key));
    } else {
        let rest = entries.drop_first();
        first_with_key_found(rest, key);
        match first_with_key(rest, key) {
            Some(attribute) => {
                let k = choose|k: int|
                    0 <= k < rest.len() && #[trigger] has_key(rest[k], key) && rest[k] == Some(
                        attribute,
                    ) && forall|j: int| 0 <= j < k ==> !has_key(#[trigger] rest[j], key);
                assert(entries[k + 1] == rest[k]);
                assert forall|j: int| 0 <= j < k + 1 implies !has_key(
                    #[trigger] entries[j],
                    key,
                ) by {
                    if j > 0 {
                        assert(entries[j] == rest[j - 1]);
                    }
                }
                assert(has_key(entries[k + 1], key));
            },
            None => {
                assert forall|j: int| 0 <= j < entries.len() implies !has_key(
                    #[trigger] entries[j],
                    key,
                ) by {
                    if j > 0 {
                        assert(entries[j] == rest[j - 1]);
                    }
                }
            },
        }
    }
}

/// Setting an attribute leaves the first attribute of any other key as it was.
pub proof fn set_attribute_keeps_others(
    attributes: Seq<AttributeView>,
    key: Seq<u8>,
    value: Seq<u8>,
    other: Seq<u8>,
)
    requires
        other != key,
    ensures
        first_with_key(well_formed(with_attribute(attributes, key, value)), other)
            == first_with_key(well_formed(attributes), other),
{
    let before = well_formed(attributes);
    let after = well_formed(with_attribute(attributes, key, value));
    assert forall|j: int| 0 <= j < before.len() implies has_key(#[trigger] after[j], other)
        == has_key(before[j], other) && (has_key(before[j], other) ==> after[j] == before[j]) by {
        assert(before[j] == Some(attributes[j]));
        assert(after[j] == Some(with_attribute(attributes, key, value)[j]));
    }
    assert forall|j: int| before.len() <= j < after.len() implies !has_key(
        #[trigger] after[j],
        other,
    ) by {
        assert(after[j] == Some(with_attribute(attributes, key, value)[j]));
    }
    first_with_key_found(before, other);
    match first_with_key(before, other) {
        Some(attribute) => {
            let k = choose|k: int|
                0 <= k < before.len() && #[trigger] has_key(before[k], other) && before[k] == Some(
                    attribute,
                ) && forall|j: int| 0 <= j < k ==> !has_key(#[trigger] before[j], other);
            assert(has_key(after[k], other));
            assert forall|j: int| 0 <= j < k implies !has_key(#[trigger] after[j], other) by {
                assert(!has_key(before[j], other));
            }
            first_with_key_at(after, other, k);
        },
        None => {
            assert forall|j: int| 0 <= j < after.len() implies !has_key(
                #[trigger] after[j],
                other,
            ) by {
                if j < before.len() {
                    assert(!has_key(before[j], other));
                }
            }
            first_with_key_none(after, other);
        },
    }
}

/// After an attribute is set, the first attribute with its key holds the value.
pub proof fn set_attribute_is_found(attributes: Seq<AttributeView>, key: Seq<u8>, value: Seq<u8>)
    ensures
        first_with_key(well_formed(with_attribute(attributes, key, value)), key) == Some(
            AttributeView { key, value },
        ),
{
    let updated = with_attribute(attributes, key, value);
    let after = well_formed(updated);
    set_attribute_once(attributes, key, value);
    count_key_positive(attributes, key);
    count_key_positive(updated, key);
    let i = choose|i: int| 0 <= i < updated.len() && (#[trigger] updated[i]).key == key;
    assert(has_key(after[i], key));
    first_with_key_found(after, key);
    let found = first_with_key(after, key);
    assert(found is Some);
    let k = choose|k: int|
        0 <= k < after.len() && #[trigger] has_key(after[k], key) && after[k] == found
            && forall|j: int| 0 <= j < k ==> !has_key(#[trigger] after[j], key);
    assert(after[k] == Some(updated[k]));
    assert(updated[k].key == key);
    assert(updated[k].value == value);
}

/// Setting an attribute twice to the same value is setting it once.
pub proof fn set_attribute_twice(attributes: Seq<AttributeView>, key: Seq<u8>, value: Seq<u8>)
    ensures
        with_attribute(with_attribute(attributes, key, value), key, value) == with_attribute(
            attributes,
            key,
            value,
        ),
{
    let once = with_attribute(attributes, key, value);
    set_attribute_once(attributes, key, value);
    count_key_positive(attributes, key);
    count_key_positive(once, key);
    assert(contains_key(once, key));
    assert(with_attribute(once, key, value) =~= once);
}

/// Setting an attribute keeps every attribute of another key in its place.
pub proof fn set_attribute_keeps_places(
    attributes: Seq<AttributeView>,
    key: Seq<u8>,
    value: Seq<u8>,
    i: int,
)
    requires
        0 <= i < attributes.len(),
        attributes[i].key != key,
    ensures
        i < with_attribute(attributes, key, value).len(),
        with_attribute(attributes, key, value)[i] == attributes[i],
{
}

} // verus!
