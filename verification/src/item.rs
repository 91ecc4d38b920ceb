//! Decoded item metadata: the fields read out of a listing's binary blob.

use vstd::prelude::*;

verus! {

/// The decoded blob: a list whose first element is the traded item.
#[derive(Clone)]
pub struct PartialNbt {
    pub i: Vec<PartialNbtElement>,
}

/// One item of the decoded list: a stack count and the item's tag.
#[derive(Clone)]
pub struct PartialNbtElement {
    pub count: i64,
    pub tag: PartialTag,
}

/// The tag of an item: its extra attributes and its display block.
#[derive(Clone)]
pub struct PartialTag {
    pub extra_attributes: PartialExtraAttr,
    pub display: DisplayInfo,
}

/// Pet details as carried in a pet's metadata.
#[derive(Clone)]
pub struct Pet {
    pub pet_type: String,
    pub tier: String,
}

/// The extra attributes of an item; only a subset of the source format's
/// fields, unknown ones are ignored by construction.
#[derive(Clone)]
pub struct PartialExtraAttr {
    pub id: String,
    pub pet: Option<String>,
    pub enchantments: Option<Vec<(String, i32)>>,
    pub potion: Option<String>,
    pub potion_level: Option<i16>,
    pub anvil_uses: Option<i16>,
    pub enhanced: Option<bool>,
    pub runes: Option<Vec<(String, i32)>>,
}

/// The display block of an item: its name and its lore lines.
#[derive(Clone)]
pub struct DisplayInfo {
    pub name: String,
    pub lore: Vec<String>,
}

} // verus!
