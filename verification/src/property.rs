//! Properties: what is offered in tokens, by whom, and how many tokens are
//! still to be had.
use crate::ids::issue;
use crate::ids::level;
use crate::ids::IdAllocator;
use crate::ordered::listing;
use crate::records::can_store;
use crate::records::fetch;
use crate::records::fits;
use crate::records::lemma_fits_by_shape;
use crate::records::records;
use crate::records::scan;
use crate::records::scan_where;
use crate::records::store;
use crate::records::views;
use crate::records::Record;
use crate::row::Row;
use crate::row::RowView;
use crate::stable::table_new;
use crate::stable::table_open;
use crate::stable::table_rows;
use crate::stable::MemoryPool;
use crate::stable::Table;
use crate::text::bytes_text;
use crate::text::copy_bytes;
use crate::text::same_bytes;
use crate::text::text_bytes;
use vstd::prelude::*;
use vstd::utf8::decode_utf8;
use vstd::utf8::decode_utf8_encode_utf8;
use vstd::utf8::encode_utf8;
use vstd::utf8::encode_utf8_decode_utf8;
use vstd::utf8::encode_utf8_valid_utf8;
use vstd::utf8::valid_utf8;

verus! {

/// The sequence of property identifiers.
pub const PROPERTY_SEQUENCE: u8 = 0;

/// A property that is offered in tokens. Amounts are in cents.
#[derive(Clone, Debug, PartialEq, Eq)]
pub struct Property {
    pub id: u64,
    pub title: String,
    pub description: String,
    pub location: String,
    pub property_type: String,
    pub total_value: u64,
    pub total_tokens: u64,
    pub available_tokens: u64,
    /// A percentage, as text.
    pub expected_roi: String,
    pub min_investment: u64,
    pub image_url: String,
    pub is_active: bool,
    pub created_at: u64,
    /// The identity of the owner, as raw bytes.
    pub owner: Vec<u8>,
}

/// The mathematical value of a [`Property`].
pub struct PropertyView {
    pub id: u64,
    pub title: Seq<char>,
    pub description: Seq<char>,
    pub location: Seq<char>,
    pub property_type: Seq<char>,
    pub total_value: u64,
    pub total_tokens: u64,
    pub available_tokens: u64,
    pub expected_roi: Seq<char>,
    pub min_investment: u64,
    pub image_url: Seq<char>,
    pub is_active: bool,
    pub created_at: u64,
    pub owner: Seq<u8>,
}

impl View for Property {
    type V = PropertyView;

    open spec fn view(&self) -> PropertyView {
        PropertyView {
            id: self.id,
            title: self.title@,
            description: self.description@,
            location: self.location@,
            property_type: self.property_type@,
            total_value: self.total_value,
            total_tokens: self.total_tokens,
            available_tokens: self.available_tokens,
            expected_roi: self.expected_roi@,
            min_investment: self.min_investment,
            image_url: self.image_url@,
            is_active: self.is_active,
            created_at: self.created_at,
            owner: self.owner@,
        }
    }
}

impl Record for Property {
    open spec fn row_of(v: PropertyView) -> RowView {
        RowView {
            nums: seq![
                v.id,
                v.total_value,
                v.total_tokens,
                v.available_tokens,
                v.min_investment,
                if v.is_active { 1u64 } else { 0u64 },
                v.created_at,
            ],
            blobs: seq![
                encode_utf8(v.title),
                encode_utf8(v.description),
                encode_utf8(v.location),
                encode_utf8(v.property_type),
                encode_utf8(v.expected_roi),
                encode_utf8(v.image_url),
                v.owner,
            ],
        }
    }

    open spec fn of_row(row: RowView) -> Option<PropertyView> {
        if row.nums.len() == 7 && row.blobs.len() == 7 && row.nums[5] <= 1 && valid_utf8(
            row.blobs[0],
        ) && valid_utf8(row.blobs[1]) && valid_utf8(row.blobs[2]) && valid_utf8(row.blobs[3])
            && valid_utf8(row.blobs[4]) && valid_utf8(row.blobs[5]) {
            Some(
                PropertyView {
                    id: row.nums[0],
                    title: decode_utf8(row.blobs[0]),
                    description: decode_utf8(row.blobs[1]),
                    location: decode_utf8(row.blobs[2]),
                    property_type: decode_utf8(row.blobs[3]),
                    total_value: row.nums[1],
                    total_tokens: row.nums[2],
                    available_tokens: row.nums[3],
                    expected_roi: decode_utf8(row.blobs[4]),
                    min_investment: row.nums[4],
                    image_url: decode_utf8(row.blobs[5]),
                    is_active: row.nums[5] == 1,
                    created_at: row.nums[6],
                    owner: row.blobs[6],
                },
            )
        } else {
            None
        }
    }

    fn to_row(&self) -> (row: Row) {
        let mut nums: Vec<u64> = Vec::new();
        nums.push(self.id);
        nums.push(self.total_value);
        nums.push(self.total_tokens);
        nums.push(self.available_tokens);
        nums.push(self.min_investment);
        nums.push(if self.is_active { 1 } else { 0 });
        nums.push(self.created_at);
        let mut blobs: Vec<Vec<u8>> = Vec::new();
        blobs.push(text_bytes(&self.title));
        blobs.push(text_bytes(&self.description));
        blobs.push(text_bytes(&self.location));
        blobs.push(text_bytes(&self.property_type));
        blobs.push(text_bytes(&self.expected_roi));
        blobs.push(text_bytes(&self.image_url));
        blobs.push(copy_bytes(&self.owner));
        let row = Row { nums, blobs };
        proof {
            assert(row@.nums =~= Self::row_of(self@).nums);
            assert(row@.blobs =~= Self::row_of(self@).blobs);
            encode_utf8_valid_utf8(self.title@);
            encode_utf8_decode_utf8(self.title@);
            encode_utf8_valid_utf8(self.description@);
            encode_utf8_decode_utf8(self.description@);
            encode_utf8_valid_utf8(self.location@);
            encode_utf8_decode_utf8(self.location@);
            encode_utf8_valid_utf8(self.property_type@);
            encode_utf8_decode_utf8(self.property_type@);
            encode_utf8_valid_utf8(self.expected_roi@);
            encode_utf8_decode_utf8(self.expected_roi@);
            encode_utf8_valid_utf8(self.image_url@);
            encode_utf8_decode_utf8(self.image_url@);
        }
        row
    }

    fn from_row(row: &Row) -> (r: Option<Property>) {
        if row.nums.len() != 7 || row.blobs.len() != 7 || row.nums[5] > 1 {
            return None;
        }
        assert(forall|i: int| 0 <= i < 7 ==> row@.blobs[i] == #[trigger] row.blobs@[i]@);
        let title = match bytes_text(&row.blobs[0]) {
            Some(t) => t,
            None => { return None; },
        };
        let description = match bytes_text(&row.blobs[1]) {
            Some(t) => t,
            None => { return None; },
        };
        let location = match bytes_text(&row.blobs[2]) {
            Some(t) => t,
            None => { return None; },
        };
        let property_type = match bytes_text(&row.blobs[3]) {
            Some(t) => t,
            None => { return None; },
        };
        let expected_roi = match bytes_text(&row.blobs[4]) {
            Some(t) => t,
            None => { return None; },
        };
        let image_url = match bytes_text(&row.blobs[5]) {
            Some(t) => t,
            None => { return None; },
        };
        Some(
            Property {
                id: row.nums[0],
                title,
                description,
                location,
                property_type,
                total_value: row.nums[1],
                total_tokens: row.nums[2],
                available_tokens: row.nums[3],
                expected_roi,
                min_investment: row.nums[4],
                image_url,
                is_active: row.nums[5] == 1,
                created_at: row.nums[6],
                owner: copy_bytes(&row.blobs[6]),
            },
        )
    }

    proof fn lemma_of_row_canonical(row: RowView) {
        let back = Self::row_of(Self::of_row(row).unwrap());
        decode_utf8_encode_utf8(row.blobs[0]);
        decode_utf8_encode_utf8(row.blobs[1]);
        decode_utf8_encode_utf8(row.blobs[2]);
        decode_utf8_encode_utf8(row.blobs[3]);
        decode_utf8_encode_utf8(row.blobs[4]);
        decode_utf8_encode_utf8(row.blobs[5]);
        assert(back.nums =~= row.nums);
        assert(back.blobs =~= row.blobs);
    }
}

/// What a caller supplies to offer a property.
#[derive(Clone, Debug)]
pub struct CreatePropertyRequest {
    pub title: String,
    pub description: String,
    pub location: String,
    pub property_type: String,
    pub total_value: u64,
    pub total_tokens: u64,
    pub expected_roi: String,
    pub min_investment: u64,
    pub image_url: String,
}

/// What a caller supplies to take tokens of a property off the offer.
#[derive(Clone, Copy, Debug)]
pub struct UpdateTokensRequest {
    pub property_id: u64,
    pub tokens_purchased: u64,
}

/// Why an operation on the properties was refused.
#[derive(Clone, Copy, Debug, PartialEq, Eq, Structural)]
pub enum PropertyError {
    /// The property that was named does not exist.
    NotFound,
    /// Fewer tokens are available than were asked for.
    InsufficientTokens,
    /// The caller is not the owner of the property.
    NotOwner,
}

impl PropertyError {
    /// What is said to the caller of a refused operation.
    pub open spec fn text(self) -> Seq<char> {
        match self {
            PropertyError::NotFound => "Property not found"@,
            PropertyError::InsufficientTokens => "Not enough tokens available"@,
            PropertyError::NotOwner => "Only property owner can toggle status"@,
        }
    }

    /// What is said to the caller of a refused operation.
    pub fn message(&self) -> (s: String)
        ensures
            s@ == self.text(),
    {
        match self {
            PropertyError::NotFound => "Property not found".to_owned(),
            PropertyError::InsufficientTokens => "Not enough tokens available".to_owned(),
            PropertyError::NotOwner => "Only property owner can toggle status".to_owned(),
        }
    }
}

/// The properties that are active.
pub open spec fn on_offer() -> spec_fn(PropertyView) -> bool {
    |p: PropertyView| p.is_active
}

/// The properties of one owner.
pub open spec fn owned_by(owner: Seq<u8>) -> spec_fn(PropertyView) -> bool {
    |p: PropertyView| p.owner == owner
}

/// The property that a request creates under the identifier `id`, for the
/// owner `owner` at the time `now`: active, with all its tokens available.
pub open spec fn new_property(
    id: u64,
    req: CreatePropertyRequest,
    owner: Seq<u8>,
    now: u64,
) -> PropertyView {
    PropertyView {
        id,
        title: req.title@,
        description: req.description@,
        location: req.location@,
        property_type: req.property_type@,
        total_value: req.total_value,
        total_tokens: req.total_tokens,
        available_tokens: req.total_tokens,
        expected_roi: req.expected_roi@,
        min_investment: req.min_investment,
        image_url: req.image_url@,
        is_active: true,
        created_at: now,
        owner,
    }
}

/// The durable state of the properties: the identifier counter and the
/// properties.
pub struct PropertyStore {
    ids: IdAllocator,
    properties: Table,
}

impl PropertyStore {
    /// The identifier counters, by sequence.
    pub closed spec fn counters(&self) -> Map<u8, u64> {
        self.ids@
    }

    /// The stored properties, by identifier.
    pub closed spec fn properties(&self) -> Map<u64, PropertyView> {
        records::<Property>(table_rows(self.properties))
    }

    /// Every property is stored under its own identifier, that identifier
    /// was issued by the allocator, and no property has more tokens
    /// available than it has in all.
    pub open spec fn wf(&self) -> bool {
        forall|k: u64| #[trigger]
            self.properties().contains_key(k) ==> {
                &&& self.properties()[k].id == k
                &&& 1 <= k <= level(self.counters(), PROPERTY_SEQUENCE)
                &&& self.properties()[k].available_tokens <= self.properties()[k].total_tokens
            }
    }

    /// The identifier that the next property gets.
    pub open spec fn next_property_id(&self) -> u64 {
        (level(self.counters(), PROPERTY_SEQUENCE) + 1) as u64
    }

    /// The store can take the property that `req` asks for, for the owner
    /// `owner`: the next identifier is within `u64`, and the property is
    /// short enough to be stored.
    pub open spec fn room_for_property(&self, req: CreatePropertyRequest, owner: Seq<u8>) -> bool {
        &&& level(self.counters(), PROPERTY_SEQUENCE) < u64::MAX
        &&& fits::<Property>(new_property(self.next_property_id(), req, owner, 0))
    }

    /// A fresh store in the regions 0 and 1 of the pool, whatever they held:
    /// no property, the counter at zero.
    pub fn new(pool: MemoryPool) -> (s: PropertyStore)
        ensures
            s.wf(),
            s.properties() == Map::<u64, PropertyView>::empty(),
            level(s.counters(), PROPERTY_SEQUENCE) == 0,
    {
        let (counters, properties, _) = pool.split(0, 1, 2);
        let mut ids = IdAllocator::new(counters);
        ids.start(PROPERTY_SEQUENCE);
        let s = PropertyStore { ids, properties: table_new(properties) };
        assert(s.properties() =~= Map::<u64, PropertyView>::empty());
        s
    }

    /// The store that the regions 0 and 1 of the pool hold: whatever is
    /// stored there, and an empty table where nothing is.
    pub fn open(pool: MemoryPool) -> (s: PropertyStore) {
        let (counters, properties, _) = pool.split(0, 1, 2);
        PropertyStore { ids: IdAllocator::open(counters), properties: table_open(properties) }
    }

    /// Starts the sequence: stores a counter of zero where none is stored,
    /// and leaves a stored counter as it is. Nothing that is stored changes,
    /// and the sequence stands afterwards where it stood before.
    pub fn init(&mut self)
        ensures
            final(self).counters().contains_key(PROPERTY_SEQUENCE),
            forall|k: u8| level(final(self).counters(), k) == level(old(self).counters(), k),
            final(self).properties() == old(self).properties(),
            old(self).wf() ==> final(self).wf(),
    {
        self.ids.start(PROPERTY_SEQUENCE);
    }

    /// The identifier that was last given to a property, or zero.
    pub fn last_property_id(&self) -> (id: u64)
        ensures
            id == level(self.counters(), PROPERTY_SEQUENCE),
    {
        self.ids.last(PROPERTY_SEQUENCE)
    }

    /// Whether the store can take the property that `req` asks for, for the
    /// owner `owner`.
    pub fn has_room_for_property(&self, req: &CreatePropertyRequest, owner: &Vec<u8>) -> (b: bool)
        ensures
            b == self.room_for_property(*req, owner@),
    {
        let last = self.ids.last(PROPERTY_SEQUENCE);
        if last == u64::MAX {
            return false;
        }
        let draft = Property {
            id: last + 1,
            title: req.title.clone(),
            description: req.description.clone(),
            location: req.location.clone(),
            property_type: req.property_type.clone(),
            total_value: req.total_value,
            total_tokens: req.total_tokens,
            available_tokens: req.total_tokens,
            expected_roi: req.expected_roi.clone(),
            min_investment: req.min_investment,
            image_url: req.image_url.clone(),
            is_active: true,
            created_at: 0,
            owner: copy_bytes(owner),
        };
        can_store(&draft)
    }

    /// Offers a property of `owner` at the time `now`: stores it under the
    /// next property identifier, active, with all its tokens available.
    pub fn create_property(&mut self, req: CreatePropertyRequest, owner: Vec<u8>, now: u64) -> (r:
        Result<Property, PropertyError>)
        requires
            old(self).room_for_property(req, owner@),
        ensures
            r is Ok,
            r.unwrap()@ == new_property(old(self).next_property_id(), req, owner@, now),
            final(self).counters() == issue(old(self).counters(), PROPERTY_SEQUENCE),
            final(self).properties() == old(self).properties().insert(
                old(self).next_property_id(),
                r.unwrap()@,
            ),
            old(self).wf() ==> final(self).wf(),
    {
        let id = self.ids.next(PROPERTY_SEQUENCE);
        let property = Property {
            id,
            title: req.title,
            description: req.description,
            location: req.location,
            property_type: req.property_type,
            total_value: req.total_value,
            total_tokens: req.total_tokens,
            available_tokens: req.total_tokens,
            expected_roi: req.expected_roi,
            min_investment: req.min_investment,
            image_url: req.image_url,
            is_active: true,
            created_at: now,
            owner,
        };
        proof {
            lemma_fits_by_shape::<Property>(new_property(id, req, owner@, 0), property@);
        }
        store(&mut self.properties, id, &property);
        proof {
            if old(self).wf() {
                assert forall|k: u64| #[trigger] self.properties().contains_key(k) implies {
                    &&& self.properties()[k].id == k
                    &&& 1 <= k <= level(self.counters(), PROPERTY_SEQUENCE)
                    &&& self.properties()[k].available_tokens <= self.properties()[k].total_tokens
                } by {
                    if k != id {
                        assert(old(self).properties().contains_key(k));
                    }
                }
            }
        }
        Ok(property)
    }

    /// All properties, in ascending order of their identifiers.
    pub fn get_properties(&self) -> (out: Vec<Property>)
        ensures
            views(out@) == listing(self.properties()),
    {
        scan::<Property>(&self.properties)
    }

    /// The property with the given identifier, if there is one.
    pub fn get_property(&self, id: u64) -> (r: Option<Property>)
        ensures
            r is Some <==> self.properties().contains_key(id),
            r is Some ==> r.unwrap()@ == self.properties()[id],
    {
        fetch::<Property>(&self.properties, id)
    }

    /// The active properties, in ascending order of their identifiers.
    pub fn get_active_properties(&self) -> (out: Vec<Property>)
        ensures
            views(out@) == listing(self.properties()).filter(on_offer()),
    {
        let keep = |p: &Property| -> (b: bool)
            ensures
                b == on_offer()(p@),
            { p.is_active };
        scan_where::<Property, _>(&self.properties, keep, Ghost(on_offer()))
    }

    /// Takes the purchased tokens off what the property has available, and
    /// returns the property as it then is. Fails, and changes nothing, with
    /// `NotFound` if there is no such property, and otherwise with
    /// `InsufficientTokens` if fewer tokens are available than were
    /// purchased.
    pub fn update_available_tokens(&mut self, req: UpdateTokensRequest) -> (r: Result<
        Property,
        PropertyError,
    >)
        ensures
            final(self).counters() == old(self).counters(),
            match r {
                Ok(p) => {
                    &&& old(self).properties().contains_key(req.property_id)
                    &&& old(self).properties()[req.property_id].available_tokens
                        >= req.tokens_purchased
                    &&& p@ == (PropertyView {
                        available_tokens: (old(self).properties()[req.property_id].available_tokens
                            - req.tokens_purchased) as u64,
                        ..old(self).properties()[req.property_id]
                    })
                    &&& final(self).properties() == old(self).properties().insert(
                        req.property_id,
                        p@,
                    )
                },
                Err(e) => {
                    &&& final(self).properties() == old(self).properties()
                    &&& if !old(self).properties().contains_key(req.property_id) {
                        e == PropertyError::NotFound
                    } else {
                        e == PropertyError::InsufficientTokens && old(
                            self,
                        ).properties()[req.property_id].available_tokens < req.tokens_purchased
                    }
                },
            },
            old(self).wf() ==> final(self).wf(),
    {
        match fetch::<Property>(&self.properties, req.property_id) {
            None => Err(PropertyError::NotFound),
            Some(mut property) => {
                if property.available_tokens < req.tokens_purchased {
                    return Err(PropertyError::InsufficientTokens);
                }
                let ghost before = property@;
                property.available_tokens = property.available_tokens - req.tokens_purchased;
                proof {
                    lemma_fits_by_shape::<Property>(before, property@);
                }
                store(&mut self.properties, req.property_id, &property);
                proof {
                    if old(self).wf() {
                        assert forall|k: u64| #[trigger]
                            self.properties().contains_key(k) implies {
                            &&& self.properties()[k].id == k
                            &&& 1 <= k <= level(self.counters(), PROPERTY_SEQUENCE)
                            &&& self.properties()[k].available_tokens
                                <= self.properties()[k].total_tokens
                        } by {
                            assert(old(self).properties().contains_key(k));
                        }
                    }
                }
                Ok(property)
            },
        }
    }

    /// Turns an active property inactive and an inactive one active, on
    /// behalf of `caller`, and returns the property as it then is. Fails,
    /// and changes nothing, with `NotFound` if there is no such property,
    /// and otherwise with `NotOwner` if `caller` is not its owner.
    pub fn toggle_property_status(&mut self, property_id: u64, caller: &Vec<u8>) -> (r: Result<
        Property,
        PropertyError,
    >)
        ensures
            final(self).counters() == old(self).counters(),
            match r {
                Ok(p) => {
                    &&& old(self).properties().contains_key(property_id)
                    &&& old(self).properties()[property_id].owner == caller@
                    &&& p@ == (PropertyView {
                        is_active: !old(self).properties()[property_id].is_active,
                        ..old(self).properties()[property_id]
                    })
                    &&& final(self).properties() == old(self).properties().insert(property_id, p@)
                },
                Err(e) => {
                    &&& final(self).properties() == old(self).properties()
                    &&& if !old(self).properties().contains_key(property_id) {
                        e == PropertyError::NotFound
                    } else {
                        e == PropertyError::NotOwner && old(self).properties()[property_id].owner
                            != caller@
                    }
                },
            },
            old(self).wf() ==> final(self).wf(),
    {
        match fetch::<Property>(&self.properties, property_id) {
            None => Err(PropertyError::NotFound),
            Some(mut property) => {
                if !same_bytes(&property.owner, caller) {
                    return Err(PropertyError::NotOwner);
                }
                let ghost before = property@;
                property.is_active = !property.is_active;
                proof {
                    lemma_fits_by_shape::<Property>(before, property@);
                }
                store(&mut self.properties, property_id, &property);
                proof {
                    if old(self).wf() {
                        assert forall|k: u64| #[trigger]
                            self.properties().contains_key(k) implies {
                            &&& self.properties()[k].id == k
                            &&& 1 <= k <= level(self.counters(), PROPERTY_SEQUENCE)
                            &&& self.properties()[k].available_tokens
                                <= self.properties()[k].total_tokens
                        } by {
                            assert(old(self).properties().contains_key(k));
                        }
                    }
                }
                Ok(property)
            },
        }
    }

    /// The properties of the given owner, in ascending order of their
    /// identifiers.
    pub fn get_properties_by_owner(&self, owner: &Vec<u8>) -> (out: Vec<Property>)
        ensures
            views(out@) == listing(self.properties()).filter(owned_by(owner@)),
    {
        let keep = |p: &Property| -> (b: bool)
            ensures
                b == owned_by(owner@)(p@),
            { same_bytes(&p.owner, owner) };
        scan_where::<Property, _>(&self.properties, keep, Ghost(owned_by(owner@)))
    }
}

} // verus!
