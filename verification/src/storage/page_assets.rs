//! Per-status-page resources stored inline.

use vstd::prelude::*;

use crate::collections::clone_all;
use crate::crypto::{sha256_hex, sha256_text};
use crate::ids::{OrgId, StatusPageId, UserId};
use crate::strings::owned;
use crate::table::Table;

verus! {

/// What a page's asset is for.
#[derive(Debug, Clone, Copy, PartialEq, Eq, Structural)]
pub enum AssetSlot {
    Logo,
    Background,
    Favicon,
    Css,
}

impl AssetSlot {
    /// The slot as the database writes it.
    pub open spec fn name(self) -> Seq<char> {
        match self {
            AssetSlot::Logo => "logo"@,
            AssetSlot::Background => "background"@,
            AssetSlot::Favicon => "favicon"@,
            AssetSlot::Css => "css"@,
        }
    }

    /// The slot's place in a store.
    pub open spec fn number(self) -> u128 {
        match self {
            AssetSlot::Logo => 0,
            AssetSlot::Background => 1,
            AssetSlot::Favicon => 2,
            AssetSlot::Css => 3,
        }
    }

    /// The slot as the database writes it.
    pub fn as_str(self) -> (r: &'static str)
        ensures
            r@ == self.name(),
            match self {
                AssetSlot::Logo => r@ == "logo"@,
                AssetSlot::Background => r@ == "background"@,
                AssetSlot::Favicon => r@ == "favicon"@,
                AssetSlot::Css => r@ == "css"@,
            },
    {
        match self {
            AssetSlot::Logo => "logo",
            AssetSlot::Background => "background",
            AssetSlot::Favicon => "favicon",
            AssetSlot::Css => "css",
        }
    }

    fn index(self) -> (r: u128)
        ensures
            r == self.number(),
    {
        match self {
            AssetSlot::Logo => 0,
            AssetSlot::Background => 1,
            AssetSlot::Favicon => 2,
            AssetSlot::Css => 3,
        }
    }
}

/// Stored asset bytes and how to serve them.
#[derive(Debug)]
pub struct AssetContent {
    pub bytes: Vec<u8>,
    pub content_type: String,
    pub content_hash: String,
}

/// Asset metadata without the bytes.
#[derive(Debug)]
pub struct AssetMeta {
    pub content_hash: String,
    pub content_type: String,
    pub byte_size: i64,
    /// Per-slot extras, as JSON text: the producer decides the keys.
    pub metadata: String,
}

/// What an asset is.
pub ghost struct AssetView {
    pub bytes: Seq<u8>,
    pub content_type: Seq<char>,
    pub content_hash: Seq<char>,
    pub metadata: Seq<char>,
}

/// The asset that was put under these values: its hash is that of its bytes.
pub open spec fn asset_of(
    content_type: Seq<char>,
    bytes: Seq<u8>,
    metadata: Seq<char>,
) -> AssetView {
    AssetView { bytes, content_type, content_hash: sha256_text(bytes), metadata }
}

/// The metadata is that of the asset.
pub open spec fn describes(m: AssetMeta, a: AssetView) -> bool {
    &&& m.content_hash@ == a.content_hash
    &&& m.content_type@ == a.content_type
    &&& m.byte_size == a.bytes.len() as i64
    &&& m.metadata@ == a.metadata
}

/// The hash that names a content: the hexadecimal digest of its bytes.
pub fn content_hash(bytes: &[u8]) -> (r: String)
    ensures
        r@ == sha256_text(bytes@),
{
    sha256_hex(bytes)
}

/// A stored asset.
#[derive(Debug)]
pub struct AssetEntry {
    pub content: AssetContent,
    pub metadata: String,
}

impl View for AssetEntry {
    type V = AssetView;

    open spec fn view(&self) -> AssetView {
        AssetView {
            bytes: self.content.bytes@,
            content_type: self.content.content_type@,
            content_hash: self.content.content_hash@,
            metadata: self.metadata@,
        }
    }
}

/// Assets in memory, by page and slot.
#[derive(Debug)]
pub struct InMemoryPageAssetStore {
    inner: Table<AssetEntry>,
}

/// The key of a page's slot.
pub open spec fn slot_key(page: StatusPageId, slot: AssetSlot) -> (u128, u128) {
    (page.0, slot.number())
}

impl InMemoryPageAssetStore {
    pub closed spec fn wf(self) -> bool {
        self.inner.wf()
    }

    /// The asset of each page's slot.
    pub closed spec fn view(self) -> Map<(u128, u128), AssetView> {
        self.inner@.map_values(|e: AssetEntry| e@)
    }

    pub fn new() -> (r: Self)
        ensures
            r.wf(),
            r@ == Map::<(u128, u128), AssetView>::empty(),
    {
        let r = InMemoryPageAssetStore { inner: Table::new() };
        assert(r@ =~= Map::<(u128, u128), AssetView>::empty());
        r
    }

    /// Sets the slot's bytes, one asset per page and slot. Returns the stored metadata.
    pub fn put(
        &mut self,
        _org: OrgId,
        page: StatusPageId,
        slot: AssetSlot,
        content_type: &str,
        bytes: &Vec<u8>,
        metadata: String,
        _actor: Option<UserId>,
    ) -> (r: AssetMeta)
        requires
            old(self).wf(),
        ensures
            final(self).wf(),
            final(self)@ == old(self)@.insert(
                slot_key(page, slot),
                asset_of(content_type@, bytes@, metadata@),
            ),
            describes(r, asset_of(content_type@, bytes@, metadata@)),
    {
        let hash = content_hash(bytes.as_slice());
        let byte_size: i64 = bytes.len() as i64;
        let entry = AssetEntry {
            content: AssetContent {
                bytes: clone_all(bytes),
                content_type: owned(content_type),
                content_hash: hash.clone(),
            },
            metadata: metadata.clone(),
        };
        let ghost before = self.inner@;
        let ghost e = entry;
        self.inner.insert((page.0, slot.index()), entry);
        proof {
            assert(e@ == asset_of(content_type@, bytes@, metadata@));
            assert(self@ =~= before.map_values(|x: AssetEntry| x@).insert(
                slot_key(page, slot),
                e@,
            ));
        }
        AssetMeta { content_hash: hash, content_type: owned(content_type), byte_size, metadata }
    }

    /// The bytes of a slot, for serving.
    pub fn get(&self, page: StatusPageId, slot: AssetSlot) -> (r: Option<AssetContent>)
        requires
            self.wf(),
        ensures
            match r {
                Some(c) => {
                    &&& self@.dom().contains(slot_key(page, slot))
                    &&& c.bytes@ == self@[slot_key(page, slot)].bytes
                    &&& c.content_type@ == self@[slot_key(page, slot)].content_type
                    &&& c.content_hash@ == self@[slot_key(page, slot)].content_hash
                },
                None => !self@.dom().contains(slot_key(page, slot)),
            },
    {
        match self.inner.get((page.0, slot.index())) {
            Some(e) => Some(
                AssetContent {
                    bytes: clone_all(&e.content.bytes),
                    content_type: e.content.content_type.clone(),
                    content_hash: e.content.content_hash.clone(),
                },
            ),
            None => None,
        }
    }

    /// The metadata of a slot.
    pub fn get_meta(&self, _org: OrgId, page: StatusPageId, slot: AssetSlot) -> (r: Option<
        AssetMeta,
    >)
        requires
            self.wf(),
        ensures
            match r {
                Some(m) => self@.dom().contains(slot_key(page, slot)) && describes(
                    m,
                    self@[slot_key(page, slot)],
                ),
                None => !self@.dom().contains(slot_key(page, slot)),
            },
    {
        match self.inner.get((page.0, slot.index())) {
            Some(e) => Some(
                AssetMeta {
                    content_hash: e.content.content_hash.clone(),
                    content_type: e.content.content_type.clone(),
                    byte_size: e.content.bytes.len() as i64,
                    metadata: e.metadata.clone(),
                },
            ),
            None => None,
        }
    }

    /// Deletes the asset of a slot. Returns whether there was one.
    pub fn delete(
        &mut self,
        _org: OrgId,
        page: StatusPageId,
        slot: AssetSlot,
        _actor: Option<UserId>,
    ) -> (r: bool)
        requires
            old(self).wf(),
        ensures
            final(self).wf(),
            final(self)@ == old(self)@.remove(slot_key(page, slot)),
            r == old(self)@.dom().contains(slot_key(page, slot)),
    {
        let ghost before = self.inner@;
        let gone = self.inner.remove((page.0, slot.index()));
        assert(self@ =~= before.map_values(|x: AssetEntry| x@).remove(slot_key(page, slot)));
        gone.is_some()
    }
}

/// What a read gives back of a write: the bytes put last under a page's slot, and no
/// other slot's.
pub proof fn law_asset_reads_back(
    m: Map<(u128, u128), AssetView>,
    page: StatusPageId,
    slot: AssetSlot,
    a: AssetView,
    other_page: StatusPageId,
    other_slot: AssetSlot,
)
    requires
        other_page != page || other_slot != slot,
    ensures
        m.insert(slot_key(page, slot), a)[slot_key(page, slot)] == a,
        m.insert(slot_key(page, slot), a).dom().contains(slot_key(other_page, other_slot))
            <==> m.dom().contains(slot_key(other_page, other_slot)),
        m.insert(slot_key(page, slot), a)[slot_key(other_page, other_slot)] == m[slot_key(
            other_page,
            other_slot,
        )],
        !m.remove(slot_key(page, slot)).dom().contains(slot_key(page, slot)),
{
    assert(slot_key(page, slot) != slot_key(other_page, other_slot));
}

/// A stored asset has the bytes, type and extras it was put with; its metadata gives their
/// digest and their number.
pub proof fn law_an_asset_is_stored_as_put(
    m: AssetMeta,
    content_type: Seq<char>,
    bytes: Seq<u8>,
    metadata: Seq<char>,
)
    requires
        describes(m, asset_of(content_type, bytes, metadata)),
        bytes.len() <= i64::MAX,
    ensures
        asset_of(content_type, bytes, metadata).bytes == bytes,
        asset_of(content_type, bytes, metadata).content_type == content_type,
        asset_of(content_type, bytes, metadata).content_hash == sha256_text(bytes),
        asset_of(content_type, bytes, metadata).metadata == metadata,
        m.content_hash@ == sha256_text(bytes),
        m.content_type@ == content_type,
        m.byte_size == bytes.len(),
        m.metadata@ == metadata,
{
}

/// What an asset says is what its entry holds.
pub proof fn law_an_asset_says_what_it_holds(e: AssetEntry)
    ensures
        e@.bytes == e.content.bytes@,
        e@.content_type == e.content.content_type@,
        e@.content_hash == e.content.content_hash@,
        e@.metadata == e.metadata@,
{
}

} // verus!
