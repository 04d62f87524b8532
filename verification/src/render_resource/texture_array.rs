//! Slot allocation in a texture array: a fixed number of equally sized
//! layers, handed out in ascending order, with a cache that maps the path of
//! an image to the layer that holds it.
//!
//! The allocator decides where an image goes and describes the write that
//! puts it there. Creating the texture and performing the write are left to
//! the caller, who owns the graphics device. So is reading image files: the
//! allocator decodes their contents, but takes them as bytes.

use std::collections::VecDeque;
use vstd::prelude::*;

verus! {

/// The size of a texture: width and height in texels, and the number of
/// layers.
#[derive(Clone, Copy, Debug, PartialEq, Eq, Hash, Structural)]
pub struct Extent3d {
    pub width: u32,
    pub height: u32,
    pub depth_or_array_layers: u32,
}

/// A position in a texture: texel coordinates and layer.
#[derive(Clone, Copy, Debug, PartialEq, Eq, Hash, Structural)]
pub struct Origin3d {
    pub x: u32,
    pub y: u32,
    pub z: u32,
}

/// How the bytes of an image are laid out in the buffer that is copied from.
#[derive(Clone, Copy, Debug, PartialEq, Eq, Hash, Structural)]
pub struct TexelCopyBufferLayout {
    pub offset: u64,
    pub bytes_per_row: Option<u32>,
    pub rows_per_image: Option<u32>,
}

/// A write of one image into a texture array, for the caller to hand to the
/// queue of the graphics device.
#[derive(Clone, Copy, Debug, PartialEq, Eq, Hash, Structural)]
pub struct TextureWrite {
    pub mip_level: u32,
    pub origin: Origin3d,
    pub layout: TexelCopyBufferLayout,
    pub size: Extent3d,
}

/// What describes a texture array: its dimensions, and the identities of the
/// sampler and of the bind group layout that it is used with. Two
/// descriptions are the same exactly if all their fields are.
#[derive(Clone, Copy, Debug, PartialEq, Eq, Hash, Structural)]
pub struct TextureArrayInfo {
    pub dims: Extent3d,
    pub sampler: u64,
    pub bind_group_layout: u64,
}

/// Why an image found no place in a texture array.
#[derive(Clone, Copy, Debug, PartialEq, Eq, Structural)]
pub enum UploadError {
    /// Every layer of the array is taken.
    CapacityExceeded,
    /// The bytes of one row of the image cannot be counted in 32 bits.
    RowTooWide,
    /// The image does not hold exactly four bytes for each of its texels.
    NotTightlyPacked,
}

/// Why the contents of an image file found no place in a texture array.
#[derive(Debug)]
pub enum LoadError {
    /// The bytes are no image that can be decoded.
    Undecodable(image::ImageError),
    /// The decoded image cannot be uploaded.
    Upload(UploadError),
}

/// A decoded image, meant to hold four bytes for each texel: red, green, blue
/// and alpha, row by row.
struct RgbaImage {
    width: u32,
    height: u32,
    pixels: Vec<u8>,
}

/// Whether the bytes of one row of `width` texels can be counted in 32 bits.
pub open spec fn row_fits(width: u32) -> bool {
    width * 4 <= u32::MAX
}

/// Whether `pixels` holds exactly four bytes for each texel of an image of
/// `width` by `height` texels.
pub open spec fn tightly_packed(pixels: Seq<u8>, width: u32, height: u32) -> bool {
    pixels.len() == width * 4 * height
}

/// The write that puts an image into its layer, and the bytes to write.
#[derive(Clone, Debug, PartialEq, Eq)]
pub struct LayerData {
    pub write: TextureWrite,
    pub pixels: Vec<u8>,
}

/// Where an image went, with what has to be written for it.
#[derive(Clone, Debug, PartialEq, Eq)]
pub struct Loaded {
    /// The layer that holds the image.
    pub slot: u32,
    /// The write that puts the image there and its bytes, or `None` where
    /// the layer holds it already.
    pub data: Option<LayerData>,
}

/// Where an image went.
#[derive(Clone, Copy, Debug, PartialEq, Eq, Structural)]
pub struct Upload {
    /// The layer that holds the image.
    pub slot: u32,
    /// The write that puts the image there, or `None` where the layer holds
    /// it already.
    pub write: Option<TextureWrite>,
}

/// The decision that an upload comes to: the layer, and whether the layer was
/// taken for this upload.
pub struct Placement {
    pub slot: u32,
    pub fresh: bool,
}

/// The write of a tightly packed image of `width` by `height` texels, four
/// bytes each, to layer `slot`.
pub open spec fn layer_write(slot: u32, width: u32, height: u32) -> TextureWrite {
    TextureWrite {
        mip_level: 0,
        origin: Origin3d { x: 0, y: 0, z: slot },
        layout: TexelCopyBufferLayout {
            offset: 0,
            bytes_per_row: Some((width * 4) as u32),
            rows_per_image: Some(height),
        },
        size: Extent3d { width, height, depth_or_array_layers: 1 },
    }
}

/// The state of a texture array as far as allocation goes.
pub struct TextureArrayState {
    /// The description that the array was created from.
    pub info: TextureArrayInfo,
    /// The layers that hold no image, in the order in which they will be
    /// handed out.
    pub free: Seq<u32>,
    /// The layer of each image that was uploaded under a path.
    pub cache: Map<Seq<char>, u32>,
}

impl TextureArrayState {
    /// The number of layers.
    pub open spec fn capacity(self) -> nat {
        self.info.dims.depth_or_array_layers as nat
    }

    /// The state of a new array: every layer free, in ascending order, and
    /// nothing cached.
    pub open spec fn created(info: TextureArrayInfo) -> Self {
        TextureArrayState {
            info,
            free: Seq::new(info.dims.depth_or_array_layers as nat, |i: int| i as u32),
            cache: Map::empty(),
        }
    }

    /// Whether layer `slot` holds an image.
    pub open spec fn assigned(self, slot: u32) -> bool {
        slot < self.capacity() && !self.free.contains(slot)
    }

    /// Every layer is either free or assigned, never both; and the cache
    /// names assigned layers only.
    pub open spec fn partitioned(self) -> bool {
        &&& self.free.no_duplicates()
        &&& forall|i: int| 0 <= i < self.free.len() ==> #[trigger] self.free[i] < self.capacity()
        &&& forall|path: Seq<char>| #[trigger]
            self.cache.contains_key(path) ==> self.assigned(self.cache[path])
    }

    /// Whether an upload under `key` finds its image in the cache.
    pub open spec fn hit(self, key: Option<Seq<char>>) -> bool {
        match key {
            Some(path) => self.cache.contains_key(path),
            None => false,
        }
    }

    /// Where an upload of a tightly packed image under `key` puts its image:
    /// in the cached layer on a hit, else in the first free layer, and nowhere
    /// if none is free.
    pub open spec fn placement(self, key: Option<Seq<char>>) -> Result<Placement, UploadError> {
        if self.hit(key) {
            Ok(Placement { slot: self.cache[key.unwrap()], fresh: false })
        } else if self.free.len() == 0 {
            Err(UploadError::CapacityExceeded)
        } else {
            Ok(Placement { slot: self.free[0], fresh: true })
        }
    }

    /// The state after an upload of a tightly packed image under `key`. Only
    /// an upload that takes a fresh layer changes anything: the layer is no longer free, and the
    /// cache maps the key, if there is one, to it.
    pub open spec fn after_upload(self, key: Option<Seq<char>>) -> Self {
        match self.placement(key) {
            Ok(placement) if placement.fresh => TextureArrayState {
                info: self.info,
                free: self.free.drop_first(),
                cache: match key {
                    Some(path) => self.cache.insert(path, placement.slot),
                    None => self.cache,
                },
            },
            _ => self,
        }
    }

    /// Why an upload under `key` of `pixels` as an image of `width` by
    /// `height` texels fails, if it does. Of an image that is found in the
    /// cache nothing is looked at.
    pub open spec fn fault(
        self,
        key: Option<Seq<char>>,
        pixels: Seq<u8>,
        width: u32,
        height: u32,
    ) -> Option<UploadError> {
        if self.hit(key) {
            None
        } else if !row_fits(width) {
            Some(UploadError::RowTooWide)
        } else if !tightly_packed(pixels, width, height) {
            Some(UploadError::NotTightlyPacked)
        } else if self.free.len() == 0 {
            Some(UploadError::CapacityExceeded)
        } else {
            None
        }
    }

    /// What an upload under `key` of `pixels` as an image of `width` by
    /// `height` texels returns: the layer that [`Self::placement`] decides
    /// on, with the write of the image where the layer was taken for it.
    pub open spec fn upload_result(
        self,
        key: Option<Seq<char>>,
        pixels: Seq<u8>,
        width: u32,
        height: u32,
    ) -> Result<Upload, UploadError> {
        match self.fault(key, pixels, width, height) {
            Some(fault) => Err(fault),
            None => match self.placement(key) {
                Ok(placement) => Ok(
                    Upload {
                        slot: placement.slot,
                        write: if placement.fresh {
                            Some(layer_write(placement.slot, width, height))
                        } else {
                            None
                        },
                    },
                ),
                Err(error) => Err(error),
            },
        }
    }

    /// The state after an upload under `key` of `pixels` as an image of
    /// `width` by `height` texels: an upload that fails changes nothing.
    pub open spec fn after(
        self,
        key: Option<Seq<char>>,
        pixels: Seq<u8>,
        width: u32,
        height: u32,
    ) -> Self {
        if self.fault(key, pixels, width, height) is Some {
            self
        } else {
            self.after_upload(key)
        }
    }

    /// The state after one upload of a tightly packed image for each of
    /// `keys`, in their order.
    pub open spec fn after_uploads(self, keys: Seq<Option<Seq<char>>>) -> Self
        decreases keys.len(),
    {
        if keys.len() == 0 {
            self
        } else {
            self.after_uploads(keys.drop_last()).after_upload(keys.last())
        }
    }

    /// The layers that one upload of a tightly packed image for each of `keys`
    /// takes, in the order in which they are taken.
    pub open spec fn handed_out(self, keys: Seq<Option<Seq<char>>>) -> Seq<u32>
        decreases keys.len(),
    {
        if keys.len() == 0 {
            Seq::empty()
        } else {
            let earlier = self.handed_out(keys.drop_last());
            match self.after_uploads(keys.drop_last()).placement(keys.last()) {
                Ok(placement) if placement.fresh => earlier.push(placement.slot),
                _ => earlier,
            }
        }
    }
}

/// What holds of loading the contents of the image file at `path`, whatever
/// the decoder makes of them.
///
/// A path in the cache yields its layer, with nothing to write and nothing
/// changed. Any other path either takes the first free layer for a write of
/// tightly packed rows, or fails and changes nothing; it fails for want of
/// capacity only where no layer is free.
pub open spec fn loaded_from(
    before: TextureArrayState,
    after: TextureArrayState,
    path: Seq<char>,
    loaded: Result<Loaded, LoadError>,
) -> bool {
    if before.hit(Some(path)) {
        &&& after == before
        &&& loaded matches Ok(found)
        &&& found.slot == before.cache[path]
        &&& found.data is None
    } else {
        match loaded {
            Ok(placed) => {
                &&& before.free.len() > 0
                &&& after == before.after_upload(Some(path))
                &&& placed.slot == before.free[0]
                &&& placed.data matches Some(data)
                &&& data.write == layer_write(
                    placed.slot,
                    data.write.size.width,
                    data.write.size.height,
                )
                &&& data.write.size.width * 4 <= u32::MAX
                &&& data.pixels@.len() == data.write.size.width * 4 * data.write.size.height
            },
            Err(error) => {
                &&& after == before
                &&& error matches LoadError::Upload(UploadError::CapacityExceeded)
                    ==> before.free.len() == 0
            },
        }
    }
}

/// A new array is partitioned: every layer is free.
pub proof fn lemma_created_is_partitioned(info: TextureArrayInfo)
    ensures
        TextureArrayState::created(info).partitioned(),
        TextureArrayState::created(info).free.len() == info.dims.depth_or_array_layers,
{
}

/// Uploads hand out free layers from the front of the queue, each layer once.
///
/// After any sequence of uploads on a partitioned array, with or without
/// keys: the layers handed out are the first of those that were free, in
/// their order; none is handed out twice; each was free before and is
/// assigned after; the layers still free and those handed out add up to those
/// that were free; and the array is partitioned again.
pub proof fn lemma_slot_exclusivity(state: TextureArrayState, keys: Seq<Option<Seq<char>>>)
    requires
        state.partitioned(),
    ensures
        state.after_uploads(keys).partitioned(),
        state.after_uploads(keys).info == state.info,
        state.handed_out(keys).len() <= state.free.len(),
        state.handed_out(keys) == state.free.take(state.handed_out(keys).len() as int),
        state.after_uploads(keys).free == state.free.skip(state.handed_out(keys).len() as int),
        state.after_uploads(keys).free.len() + state.handed_out(keys).len() == state.free.len(),
        state.handed_out(keys).no_duplicates(),
        forall|i: int|
            0 <= i < state.handed_out(keys).len() ==> {
                let slot = #[trigger] state.handed_out(keys)[i];
                &&& slot < state.capacity()
                &&& !state.assigned(slot)
                &&& state.after_uploads(keys).assigned(slot)
            },
    decreases keys.len(),
{
    let handed = state.handed_out(keys);
    let after = state.after_uploads(keys);
    if keys.len() == 0 {
        assert(handed =~= state.free.take(0));
        assert(after.free =~= state.free.skip(0));
    } else {
        let earlier = keys.drop_last();
        lemma_slot_exclusivity(state, earlier);
        let before = state.after_uploads(earlier);
        let taken = state.handed_out(earlier).len() as int;
        match before.placement(keys.last()) {
            Ok(placement) => {
                if placement.fresh {
                    assert(before.free[0] == state.free[taken]);
                    assert(handed =~= state.free.take(taken + 1));
                    assert(after.free =~= state.free.skip(taken + 1));
                    assert forall|path: Seq<char>| #[trigger]
                        after.cache.contains_key(path) implies after.assigned(
                        after.cache[path],
                    ) by {
                        if before.cache.contains_key(path) {
                            assert(before.assigned(before.cache[path]));
                        }
                    }
                }
            },
            Err(_) => {},
        }
        assert forall|i: int| 0 <= i < handed.len() implies {
            let slot = #[trigger] handed[i];
            &&& slot < state.capacity()
            &&& !state.assigned(slot)
            &&& after.assigned(slot)
        } by {
            assert(handed[i] == state.free[i]);
            if after.free.contains(handed[i]) {
                let j = choose|j: int| 0 <= j < after.free.len() && after.free[j] == handed[i];
                assert(state.free[handed.len() + j] == state.free[i]);
            }
        }
    }
}

/// Nothing is ever given back: after an upload every layer that was assigned
/// is assigned still, and every path that was cached is cached still, with
/// its layer.
pub proof fn lemma_upload_keeps_assignments(state: TextureArrayState, key: Option<Seq<char>>)
    requires
        state.partitioned(),
    ensures
        state.after_upload(key).partitioned(),
        forall|slot: u32| state.assigned(slot) ==> #[trigger] state.after_upload(key).assigned(slot),
        forall|path: Seq<char>| #[trigger]
            state.cache.contains_key(path) ==> state.after_upload(key).cache.contains_key(path)
                && state.after_upload(key).cache[path] == state.cache[path],
{
    lemma_slot_exclusivity(state, seq![key]);
    assert(seq![key].drop_last() =~= Seq::<Option<Seq<char>>>::empty());
    assert(state.after_uploads(seq![key]) == state.after_upload(key)) by {
        assert(state.after_uploads(Seq::<Option<Seq<char>>>::empty()) == state);
    }
    let after = state.after_upload(key);
    assert forall|slot: u32| state.assigned(slot) implies #[trigger] after.assigned(slot) by {
        if after.free.contains(slot) {
            let i = choose|i: int| 0 <= i < after.free.len() && after.free[i] == slot;
            assert(state.free[i + 1] == slot);
        }
    }
}

/// At all times the layers of an array are split between the free ones and
/// the assigned ones: after any uploads to a new array, the assigned layers
/// are exactly those that were handed out, each once, and together with the
/// free ones they are as many as the array has layers.
pub proof fn lemma_free_and_assigned_add_up(info: TextureArrayInfo, keys: Seq<Option<Seq<char>>>)
    ensures
        TextureArrayState::created(info).handed_out(keys).no_duplicates(),
        forall|slot: u32|
            TextureArrayState::created(info).after_uploads(keys).assigned(slot)
                <==> #[trigger] TextureArrayState::created(info).handed_out(keys).contains(slot),
        TextureArrayState::created(info).after_uploads(keys).free.len()
            + TextureArrayState::created(info).handed_out(keys).len()
            == info.dims.depth_or_array_layers,
{
    let new = TextureArrayState::created(info);
    let after = new.after_uploads(keys);
    let handed = new.handed_out(keys);
    lemma_slot_exclusivity(new, keys);
    assert forall|slot: u32| after.assigned(slot) <==> #[trigger] handed.contains(slot) by {
        if after.assigned(slot) {
            if slot >= handed.len() {
                assert(after.free[slot - handed.len()] == slot);
            }
            assert(handed[slot as int] == slot);
        }
        if handed.contains(slot) {
            let i = choose|i: int| 0 <= i < handed.len() && handed[i] == slot;
            assert(after.assigned(handed[i]));
        }
    }
}

/// A new array hands out its layers in ascending order from 0.
pub proof fn lemma_slots_ascend(info: TextureArrayInfo, keys: Seq<Option<Seq<char>>>)
    ensures
        TextureArrayState::created(info).handed_out(keys).len() <= info.dims.depth_or_array_layers,
        forall|i: int|
            0 <= i < TextureArrayState::created(info).handed_out(keys).len()
                ==> #[trigger] TextureArrayState::created(info).handed_out(keys)[i] == i,
{
    lemma_slot_exclusivity(TextureArrayState::created(info), keys);
}

/// An upload under the key of an earlier upload returns the layer of that
/// upload, asks for no write and leaves the array as it is, whatever the size
/// of the image.
pub proof fn lemma_cache_hit_is_idempotent(
    state: TextureArrayState,
    path: Seq<char>,
    pixels: Seq<u8>,
    width: u32,
    height: u32,
)
    requires
        state.placement(Some(path)) is Ok,
    ensures
        state.after_upload(Some(path)).upload_result(Some(path), pixels, width, height) == Ok::<
            Upload,
            UploadError,
        >(Upload { slot: state.placement(Some(path)).unwrap().slot, write: None }),
        state.after_upload(Some(path)).after(Some(path), pixels, width, height)
            == state.after_upload(Some(path)),
{
}

/// The first upload to a new array of at least one layer succeeds, takes
/// layer 0 and asks for its write.
pub proof fn lemma_first_upload(info: TextureArrayInfo, key: Option<Seq<char>>)
    requires
        info.dims.depth_or_array_layers >= 1,
    ensures
        TextureArrayState::created(info).placement(key) == Ok::<Placement, UploadError>(
            Placement { slot: 0, fresh: true },
        ),
{
}

/// Of two uploads under one key to a new array of at least one layer, the
/// first of a tightly packed image, both return the same layer, and only the
/// first asks for a write. What the second upload brings is not looked at.
pub proof fn lemma_upload_twice(
    info: TextureArrayInfo,
    path: Seq<char>,
    pixels: Seq<u8>,
    width: u32,
    height: u32,
    later_pixels: Seq<u8>,
    later_width: u32,
    later_height: u32,
)
    requires
        info.dims.depth_or_array_layers >= 1,
        row_fits(width),
        tightly_packed(pixels, width, height),
    ensures
        TextureArrayState::created(info).upload_result(Some(path), pixels, width, height) == Ok::<
            Upload,
            UploadError,
        >(Upload { slot: 0, write: Some(layer_write(0, width, height)) }),
        TextureArrayState::created(info).after(Some(path), pixels, width, height).upload_result(
            Some(path),
            later_pixels,
            later_width,
            later_height,
        ) == Ok::<Upload, UploadError>(Upload { slot: 0, write: None }),
{
    lemma_first_upload(info, Some(path));
    lemma_cache_hit_is_idempotent(
        TextureArrayState::created(info),
        path,
        later_pixels,
        later_width,
        later_height,
    );
}

/// An upload that misses the cache fails exactly if as many uploads before it
/// took a layer as the array has layers.
pub proof fn lemma_exhaustion(
    info: TextureArrayInfo,
    keys: Seq<Option<Seq<char>>>,
    key: Option<Seq<char>>,
)
    requires
        !TextureArrayState::created(info).after_uploads(keys).hit(key),
    ensures
        TextureArrayState::created(info).handed_out(keys).len() <= info.dims.depth_or_array_layers,
        TextureArrayState::created(info).after_uploads(keys).placement(key) is Err
            <==> TextureArrayState::created(info).handed_out(keys).len()
            == info.dims.depth_or_array_layers,
        TextureArrayState::created(info).after_uploads(keys).placement(key) is Err
            ==> TextureArrayState::created(info).after_uploads(keys).after_upload(key)
            == TextureArrayState::created(info).after_uploads(keys),
        forall|pixels: Seq<u8>, width: u32, height: u32|
            TextureArrayState::created(info).handed_out(keys).len()
                == info.dims.depth_or_array_layers ==> (#[trigger] TextureArrayState::created(
                info,
            ).after_uploads(keys).upload_result(key, pixels, width, height)) is Err,
{
    lemma_slot_exclusivity(TextureArrayState::created(info), keys);
}

/// The error of the `image` crate. It is carried through as it is; nothing
/// here reads it.
#[verifier::external_type_specification]
#[verifier::external_body]
pub struct ExImageError(image::ImageError);

/// Decodes the contents of an image file with `image::load_from_memory` and
/// converts the picture to four bytes for each texel with
/// `DynamicImage::to_rgba8`.
///
/// Nothing is claimed of the result: which formats are recognised depends on
/// the decoders that the process has registered, and the caller checks the
/// size of what comes back.
#[verifier::external_body]
fn decode_rgba8(bytes: &[u8]) -> (decoded: Result<RgbaImage, image::ImageError>) {
    let rgba = image::load_from_memory(bytes)?.to_rgba8();
    Ok(RgbaImage { width: rgba.width(), height: rgba.height(), pixels: rgba.into_raw() })
}

/// One entry of the cache: the layer that holds the image at `path`.
#[derive(Debug)]
struct CacheEntry {
    path: String,
    slot: u32,
}

/// The map that a list of cache entries stands for.
spec fn cache_map(entries: Seq<CacheEntry>) -> Map<Seq<char>, u32>
    decreases entries.len(),
{
    if entries.len() == 0 {
        Map::empty()
    } else {
        cache_map(entries.drop_last()).insert(entries.last().path@, entries.last().slot)
    }
}

/// A cache whose entries all lie below `bound` maps every path below `bound`.
proof fn lemma_cache_map_bound(entries: Seq<CacheEntry>, bound: int)
    requires
        forall|i: int| 0 <= i < entries.len() ==> (#[trigger] entries[i]).slot < bound,
    ensures
        forall|path: Seq<char>| #[trigger]
            cache_map(entries).contains_key(path) ==> cache_map(entries)[path] < bound,
    decreases entries.len(),
{
    if entries.len() > 0 {
        let earlier = entries.drop_last();
        let last = entries.last();
        lemma_cache_map_bound(earlier, bound);
        assert forall|path: Seq<char>| #[trigger]
            cache_map(entries).contains_key(path) implies cache_map(entries)[path] < bound by {
            if path == last.path@ {
                assert(entries[entries.len() - 1].slot < bound);
            } else {
                assert(cache_map(earlier).contains_key(path));
            }
        }
    }
}

/// Every path of a list of cache entries is a key of the map that the list
/// stands for.
proof fn lemma_cache_map_keys(entries: Seq<CacheEntry>, at: int)
    requires
        0 <= at < entries.len(),
    ensures
        cache_map(entries).contains_key(entries[at].path@),
    decreases entries.len(),
{
    if at < entries.len() - 1 {
        lemma_cache_map_keys(entries.drop_last(), at);
    }
}

/// A texture array of a fixed number of layers, of which each holds at most
/// one image. Layers are handed out in ascending order and never given back.
/// No path is cached twice.
#[derive(Debug)]
pub struct TextureArray {
    info: TextureArrayInfo,
    free_slots: VecDeque<u32>,
    cache: Vec<CacheEntry>,
}

impl View for TextureArray {
    type V = TextureArrayState;

    closed spec fn view(&self) -> TextureArrayState {
        TextureArrayState {
            info: self.info,
            free: self.free_slots@,
            cache: cache_map(self.cache@),
        }
    }
}

impl TextureArray {
    /// The number of layers that hold an image.
    spec fn used(&self) -> int {
        self.info.dims.depth_or_array_layers - self.free_slots@.len()
    }

    #[verifier::type_invariant]
    spec fn well_formed(&self) -> bool {
        &&& 0 <= self.used()
        &&& forall|i: int|
            0 <= i < self.free_slots@.len() ==> #[trigger] self.free_slots@[i] == self.used() + i
        &&& forall|i: int| 0 <= i < self.cache@.len() ==> (#[trigger] self.cache@[i]).slot < self.used()
        &&& forall|i: int, j: int|
            0 <= i < j < self.cache@.len() ==> (#[trigger] self.cache@[i]).path@ != (
            #[trigger] self.cache@[j]).path@
    }

    proof fn lemma_partitioned(&self)
        requires
            self.well_formed(),
        ensures
            self@.partitioned(),
    {
        lemma_cache_map_bound(self.cache@, self.used());
        assert forall|path: Seq<char>| #[trigger]
            self@.cache.contains_key(path) implies self@.assigned(self@.cache[path]) by {
            let slot = self@.cache[path];
            if self@.free.contains(slot) {
                let i = choose|i: int| 0 <= i < self@.free.len() && self@.free[i] == slot;
                assert(self.free_slots@[i] == self.used() + i);
            }
        }
    }

    /// A texture array as `info` describes it, with every layer free.
    pub fn new(info: &TextureArrayInfo) -> (array: Self)
        ensures
            array@ == TextureArrayState::created(*info),
            array@.partitioned(),
    {
        let mut free_slots: VecDeque<u32> = VecDeque::new();
        let layers = info.dims.depth_or_array_layers;
        let mut slot: u32 = 0;
        while slot < layers
            invariant
                slot <= layers,
                free_slots@.len() == slot,
                forall|i: int| 0 <= i < slot ==> #[trigger] free_slots@[i] == i,
            decreases layers - slot,
        {
            free_slots.push_back(slot);
            slot += 1;
        }
        let array = TextureArray { info: *info, free_slots, cache: Vec::new() };
        proof {
            assert(array@.free =~= TextureArrayState::created(*info).free);
            assert(array@.cache =~= TextureArrayState::created(*info).cache);
            array.lemma_partitioned();
        }
        array
    }

    /// The description that the array was created from.
    pub fn info(&self) -> (info: &TextureArrayInfo)
        ensures
            *info == self@.info,
    {
        &self.info
    }

    /// The number of layers that hold no image yet.
    pub fn free_slot_count(&self) -> (count: usize)
        ensures
            count == self@.free.len(),
            self@.partitioned(),
    {
        proof {
            use_type_invariant(self);
            self.lemma_partitioned();
        }
        self.free_slots.len()
    }

    /// The layer that holds the image that was uploaded under `path`, if one
    /// was.
    pub fn by_path(&self, path: &String) -> (slot: Option<&u32>)
        ensures
            self@.partitioned(),
            match slot {
                Some(slot) => self@.cache.contains_key(path@) && self@.cache[path@] == *slot,
                None => !self@.cache.contains_key(path@),
            },
    {
        proof {
            use_type_invariant(self);
            self.lemma_partitioned();
        }
        let mut i: usize = self.cache.len();
        proof {
            assert(self.cache@.take(i as int) =~= self.cache@);
        }
        while i > 0
            invariant
                i <= self.cache@.len(),
                self@.partitioned(),
                cache_map(self.cache@).contains_key(path@) == cache_map(
                    self.cache@.take(i as int),
                ).contains_key(path@),
                cache_map(self.cache@).contains_key(path@) ==> cache_map(self.cache@)[path@]
                    == cache_map(self.cache@.take(i as int))[path@],
            decreases i,
        {
            proof {
                assert(self.cache@.take(i as int).drop_last() =~= self.cache@.take(i - 1));
            }
            i -= 1;
            if self.cache[i].path == *path {
                return Some(&self.cache[i].slot);
            }
        }
        None
    }

    /// Finds the place of an image of `width` by `height` texels, whose
    /// bytes are `pixels`.
    ///
    /// With a `key` that an earlier upload was made under, the place is the
    /// layer of that upload, and nothing is to be written, whatever the
    /// image now holds. Any other image must hold four bytes for each texel,
    /// in rows whose bytes can be counted in 32 bits. It takes the first free
    /// layer, the result describes the write that puts it there, and the
    /// layer is remembered under the key, if there is one. Where the upload
    /// fails the array stays as it is.
    pub fn upload(&mut self, key: Option<String>, pixels: &[u8], width: u32, height: u32) -> (uploaded:
        Result<Upload, UploadError>)
        ensures
            final(self)@ == old(self)@.after(key_of(key), pixels@, width, height),
            uploaded == old(self)@.upload_result(key_of(key), pixels@, width, height),
            final(self)@.partitioned(),
    {
        proof {
            use_type_invariant(&*self);
            self.lemma_partitioned();
        }
        if let Some(path) = &key {
            if let Some(slot) = self.by_path(path) {
                return Ok(Upload { slot: *slot, write: None });
            }
        }
        if width > u32::MAX / 4 {
            return Err(UploadError::RowTooWide);
        }
        let row: u64 = width as u64 * 4;
        assert(row * height <= 0xffff_ffff * 0xffff_ffff) by (nonlinear_arith)
            requires
                row <= 0xffff_ffff,
                height <= 0xffff_ffff,
        ;
        if pixels.len() as u64 != row * height as u64 {
            return Err(UploadError::NotTightlyPacked);
        }
        // The queue leaves the array while it changes, so that the array is
        // well formed at every step.
        let mut free_slots: VecDeque<u32> = VecDeque::new();
        std::mem::swap(&mut self.free_slots, &mut free_slots);
        let popped = free_slots.pop_front();
        self.free_slots = free_slots;
        let slot = match popped {
            Some(slot) => slot,
            None => {
                return Err(UploadError::CapacityExceeded);
            },
        };
        let write = TextureWrite {
            mip_level: 0,
            origin: Origin3d { x: 0, y: 0, z: slot },
            layout: TexelCopyBufferLayout {
                offset: 0,
                bytes_per_row: Some(width * 4),
                rows_per_image: Some(height),
            },
            size: Extent3d { width, height, depth_or_array_layers: 1 },
        };
        if let Some(path) = key {
            let mut cache: Vec<CacheEntry> = Vec::new();
            std::mem::swap(&mut self.cache, &mut cache);
            cache.push(CacheEntry { path, slot });
            proof {
                assert(cache@.drop_last() =~= old(self).cache@);
                assert forall|i: int| 0 <= i < old(self).cache@.len() implies (
                #[trigger] old(self).cache@[i]).path@ != path@ by {
                    lemma_cache_map_keys(old(self).cache@, i);
                }
            }
            self.cache = cache;
        }
        proof {
            assert(self@.free =~= old(self)@.after_upload(key_of(key)).free);
            assert(self@.cache =~= old(self)@.after_upload(key_of(key)).cache);
            self.lemma_partitioned();
        }
        Ok(Upload { slot, write: Some(write) })
    }

    /// Finds the place of the image at `path`, whose file holds `bytes`.
    ///
    /// A path that an earlier upload was made under yields the layer of that
    /// upload; the bytes are not looked at. Otherwise the bytes are decoded
    /// and the picture is uploaded under the path, as in
    /// [`TextureArray::upload`]. The result holds the decoded picture
    /// together with its write.
    pub fn load_from_file(&mut self, path: String, bytes: &[u8]) -> (loaded: Result<
        Loaded,
        LoadError,
    >)
        ensures
            final(self)@.partitioned(),
            loaded_from(old(self)@, final(self)@, path@, loaded),
    {
        proof {
            use_type_invariant(&*self);
            self.lemma_partitioned();
        }
        if let Some(slot) = self.by_path(&path) {
            return Ok(Loaded { slot: *slot, data: None });
        }
        let image = match decode_rgba8(bytes) {
            Ok(image) => image,
            Err(error) => {
                return Err(LoadError::Undecodable(error));
            },
        };
        match self.upload(Some(path), image.pixels.as_slice(), image.width, image.height) {
            Ok(upload) => match upload.write {
                Some(write) => Ok(
                    Loaded { slot: upload.slot, data: Some(LayerData { write, pixels: image.pixels }) },
                ),
                None => Ok(Loaded { slot: upload.slot, data: None }),
            },
            Err(error) => Err(LoadError::Upload(error)),
        }
    }

    /// Finds the place of an image that has no path, of `width` by `height`
    /// texels, whose bytes are `data`: [`TextureArray::upload`] without a key.
    /// Such an image always takes a layer of its own.
    pub fn upload_texture(&mut self, data: &[u8], width: u32, height: u32) -> (uploaded: Result<
        Upload,
        UploadError,
    >)
        ensures
            final(self)@ == old(self)@.after(None, data@, width, height),
            uploaded == old(self)@.upload_result(None, data@, width, height),
            final(self)@.partitioned(),
    {
        self.upload(None, data, width, height)
    }
}

/// The key of an upload as a sequence of characters.
pub open spec fn key_of(key: Option<String>) -> Option<Seq<char>> {
    match key {
        Some(path) => Some(path@),
        None => None,
    }
}

} // verus!
