//! The canonical entity model.
//!
//! A `Property` is one decoded housing listing as the archive understands
//! it: identity, kind, descriptive text, queue standing and size. `Product`
//! is the oldest raw shape ever written to the archive, kept so that old
//! files stay readable; `ArchiveEntry` is the union of every shape the
//! decoder knows, tried oldest first.

use vstd::prelude::*;

use crate::text::{
    chars_vec, spec_transform_short_description, string_from_chars, transform_short_description,
};

verus! {

/// The kind of a listed property.
#[derive(Debug, PartialEq)]
pub enum PropertyType {
    Apartment,
    CorridorRoom,
    Other(String),
}

/// Spec-level value of a `PropertyType`.
pub enum PropertyTypeV {
    Apartment,
    CorridorRoom,
    Other(Seq<char>),
}

impl View for PropertyType {
    type V = PropertyTypeV;

    open spec fn view(&self) -> PropertyTypeV {
        match self {
            PropertyType::Apartment => PropertyTypeV::Apartment,
            PropertyType::CorridorRoom => PropertyTypeV::CorridorRoom,
            PropertyType::Other(s) => PropertyTypeV::Other(s@),
        }
    }
}

/// A queue priority tag.
#[derive(Debug, PartialEq)]
pub enum Priority {
    Novisch,
    Other(String),
}

/// Spec-level value of a `Priority`.
pub enum PriorityV {
    Novisch,
    Other(Seq<char>),
}

impl View for Priority {
    type V = PriorityV;

    open spec fn view(&self) -> PriorityV {
        match self {
            Priority::Novisch => PriorityV::Novisch,
            Priority::Other(s) => PriorityV::Other(s@),
        }
    }
}

/// A plain postal address.
#[derive(Debug, PartialEq)]
pub struct Address {
    pub street: String,
    pub city: String,
    pub postal_code: String,
}

/// Spec-level value of an `Address`.
pub struct AddressV {
    pub street: Seq<char>,
    pub city: Seq<char>,
    pub postal_code: Seq<char>,
}

impl View for Address {
    type V = AddressV;

    open spec fn view(&self) -> AddressV {
        AddressV { street: self.street@, city: self.city@, postal_code: self.postal_code@ }
    }
}

/// A position in the reservation queue. The position itself is absent when
/// the observer was not entitled to one.
#[derive(Debug, PartialEq)]
pub struct QueuePosition {
    pub position: Option<u32>,
    pub total_in_queue: u32,
}

/// Spec-level value of a `QueuePosition`.
pub struct QueuePositionV {
    pub position: Option<u32>,
    pub total_in_queue: u32,
}

impl View for QueuePosition {
    type V = QueuePositionV;

    open spec fn view(&self) -> QueuePositionV {
        QueuePositionV { position: self.position, total_in_queue: self.total_in_queue }
    }
}

/// The canonical decoded entity: one housing listing at one instant.
/// Sizes are kept as their decimal text so that no value is ever rounded.
#[derive(Debug, PartialEq)]
pub struct Property {
    pub id: u32,
    pub property_type: PropertyType,
    pub description: String,
    pub short_description: String,
    pub area: String,
    pub queue_position: QueuePosition,
    pub reserved: bool,
    pub size_sqm: String,
}

/// Spec-level value of a `Property`.
pub struct PropertyV {
    pub id: u32,
    pub property_type: PropertyTypeV,
    pub description: Seq<char>,
    pub short_description: Seq<char>,
    pub area: Seq<char>,
    pub queue_position: QueuePositionV,
    pub reserved: bool,
    pub size_sqm: Seq<char>,
}

impl View for Property {
    type V = PropertyV;

    open spec fn view(&self) -> PropertyV {
        PropertyV {
            id: self.id,
            property_type: self.property_type@,
            description: self.description@,
            short_description: self.short_description@,
            area: self.area@,
            queue_position: self.queue_position@,
            reserved: self.reserved,
            size_sqm: self.size_sqm@,
        }
    }
}

/// The oldest raw shape of an archived entity: every numeric field encoded
/// as its decimal text, names as the upstream listing API spelt them.
#[derive(Debug, PartialEq)]
pub struct Product {
    pub product_id: u32,
    pub typ: String,
    pub description: String,
    pub short_description: String,
    pub area: String,
    pub sqr_mtrs: String,
    pub reserved: bool,
    pub number_of_reservations: u32,
    pub queue_number: u32,
}

/// Spec-level value of a `Product`.
pub struct ProductV {
    pub product_id: u32,
    pub typ: Seq<char>,
    pub description: Seq<char>,
    pub short_description: Seq<char>,
    pub area: Seq<char>,
    pub sqr_mtrs: Seq<char>,
    pub reserved: bool,
    pub number_of_reservations: u32,
    pub queue_number: u32,
}

impl View for Product {
    type V = ProductV;

    open spec fn view(&self) -> ProductV {
        ProductV {
            product_id: self.product_id,
            typ: self.typ@,
            description: self.description@,
            short_description: self.short_description@,
            area: self.area@,
            sqr_mtrs: self.sqr_mtrs@,
            reserved: self.reserved,
            number_of_reservations: self.number_of_reservations,
            queue_number: self.queue_number,
        }
    }
}

/// One archive file under any schema shape ever written, oldest first.
#[derive(Debug, PartialEq)]
pub enum ArchiveEntry {
    V010(Product),
    V011(Property),
}

/// Spec-level value of an `ArchiveEntry`.
pub enum ArchiveEntryV {
    V010(ProductV),
    V011(PropertyV),
}

impl View for ArchiveEntry {
    type V = ArchiveEntryV;

    open spec fn view(&self) -> ArchiveEntryV {
        match self {
            ArchiveEntry::V010(p) => ArchiveEntryV::V010(p@),
            ArchiveEntry::V011(p) => ArchiveEntryV::V011(p@),
        }
    }
}

/// Character-sequence equality, decided left to right.
pub fn chars_eq(a: &Vec<char>, b: &Vec<char>) -> (r: bool)
    ensures
        r == (a@ == b@),
{
    if a.len() != b.len() {
        proof {
            assert(a@ != b@);
        }
        return false;
    }
    let mut i: usize = 0;
    while i < a.len()
        invariant
            i <= a.len(),
            a.len() == b.len(),
            forall|k: int| 0 <= k < i ==> a@[k] == b@[k],
        decreases a.len() - i,
    {
        if a[i] != b[i] {
            proof {
                assert(a@[i as int] != b@[i as int]);
            }
            return false;
        }
        i = i + 1;
    }
    proof {
        assert(a@ =~= b@);
    }
    true
}

/// String equality over character views.
pub fn str_eq(a: &str, b: &str) -> (r: bool)
    ensures
        r == (a@ == b@),
{
    let av = chars_vec(a);
    let bv = chars_vec(b);
    chars_eq(&av, &bv)
}

/// What `PropertyType::from_str` yields for a given label.
pub open spec fn spec_property_type_from_str(s: Seq<char>) -> PropertyTypeV {
    if s == "L\u{e4}genhet"@ {
        PropertyTypeV::Apartment
    } else if s == "Korridorrum"@ {
        PropertyTypeV::CorridorRoom
    } else {
        PropertyTypeV::Other(s)
    }
}

impl PropertyType {
    /// Read a property kind from the label the upstream API uses.
    pub fn from_str(s: &str) -> (r: PropertyType)
        ensures
            r@ == spec_property_type_from_str(s@),
    {
        if str_eq(s, "L\u{e4}genhet") {
            PropertyType::Apartment
        } else if str_eq(s, "Korridorrum") {
            PropertyType::CorridorRoom
        } else {
            let cs = chars_vec(s);
            PropertyType::Other(string_from_chars(&cs))
        }
    }
}

/// How a raw `Product` is normalised into the canonical entity.
pub open spec fn spec_product_to_property(p: ProductV) -> PropertyV {
    PropertyV {
        id: p.product_id,
        property_type: spec_property_type_from_str(p.typ),
        description: p.description,
        short_description: spec_transform_short_description(p.short_description),
        area: p.area,
        queue_position: QueuePositionV {
            position: Some(p.queue_number),
            total_in_queue: p.number_of_reservations,
        },
        reserved: p.reserved,
        size_sqm: p.sqr_mtrs,
    }
}

impl Product {
    /// Normalise the raw shape into the canonical entity.
    pub fn into_property(self) -> (r: Property)
        ensures
            r@ == spec_product_to_property(self@),
    {
        let short = transform_short_description(self.short_description.as_str());
        Property {
            id: self.product_id,
            property_type: PropertyType::from_str(self.typ.as_str()),
            description: self.description,
            short_description: short,
            area: self.area,
            queue_position: QueuePosition {
                position: Some(self.queue_number),
                total_in_queue: self.number_of_reservations,
            },
            reserved: self.reserved,
            size_sqm: self.sqr_mtrs,
        }
    }
}

/// The canonical entity an archive entry denotes, whatever shape held it.
pub open spec fn spec_entry_to_property(e: ArchiveEntryV) -> PropertyV {
    match e {
        ArchiveEntryV::V010(p) => spec_product_to_property(p),
        ArchiveEntryV::V011(p) => p,
    }
}

impl ArchiveEntry {
    /// The canonical entity, whichever shape the file held.
    pub fn into_property(self) -> (r: Property)
        ensures
            r@ == spec_entry_to_property(self@),
    {
        match self {
            ArchiveEntry::V010(p) => p.into_property(),
            ArchiveEntry::V011(p) => p,
        }
    }
}

} // verus!
