//! The registry of texture arrays: at most one array for each description.

use vstd::prelude::*;
use crate::render_resource::texture_array::{
    loaded_from,
    LoadError,
    Loaded,
    TextureArray,
    TextureArrayInfo,
    TextureArrayState,
};

verus! {

/// The number of a texture.
#[derive(Debug, Copy, Clone, PartialEq, Eq, Hash, Structural)]
pub struct TextureId(pub u32);

/// What a drawable object holds of its texture: the texture array, by its
/// description, and the layer in it. The binding owns neither.
#[derive(Clone, Copy, Debug, PartialEq, Eq, Hash, Structural)]
pub struct RenderableBinding {
    pub texture_array: TextureArrayInfo,
    pub slot: u32,
}

/// Why an image was not added to a registered texture array.
#[derive(Debug)]
pub enum TextureError {
    /// No texture array is registered under the description.
    NotRegistered,
    /// The array is registered, and loading the image into it failed.
    Load(LoadError),
}

/// Whether no description occurs twice.
spec fn distinct(keys: Seq<TextureArrayInfo>) -> bool {
    forall|i: int, j: int| 0 <= i < j < keys.len() ==> keys[i] != keys[j]
}

/// A position at which `keys` holds `info`.
spec fn position_of(keys: Seq<TextureArrayInfo>, info: TextureArrayInfo) -> int {
    choose|i: int| 0 <= i < keys.len() && keys[i] == info
}

/// The map that a list of descriptions and the list of their arrays stand
/// for.
spec fn registry_map(keys: Seq<TextureArrayInfo>, arrays: Seq<TextureArray>) -> Map<
    TextureArrayInfo,
    TextureArrayState,
> {
    Map::new(
        |info: TextureArrayInfo| exists|i: int| 0 <= i < keys.len() && keys[i] == info,
        |info: TextureArrayInfo| arrays[position_of(keys, info)]@,
    )
}

/// Each description maps to the state of the array at its position.
proof fn lemma_registry_map(keys: Seq<TextureArrayInfo>, arrays: Seq<TextureArray>, at: int)
    requires
        distinct(keys),
        0 <= at < keys.len(),
    ensures
        registry_map(keys, arrays).contains_key(keys[at]),
        registry_map(keys, arrays)[keys[at]] == arrays[at]@,
        position_of(keys, keys[at]) == at,
{
}

/// The registry after a texture array is asked for under `info`: as before
/// where one is registered under `info`, else with a new array under it.
pub open spec fn with_array(
    registry: Map<TextureArrayInfo, TextureArrayState>,
    info: TextureArrayInfo,
) -> Map<TextureArrayInfo, TextureArrayState> {
    if registry.contains_key(info) {
        registry
    } else {
        registry.insert(info, TextureArrayState::created(info))
    }
}

/// Asking twice for the array of one description registers one array: the
/// second request changes nothing, and finds what the first one left.
pub proof fn lemma_same_description_same_array(
    registry: Map<TextureArrayInfo, TextureArrayState>,
    info: TextureArrayInfo,
)
    ensures
        with_array(registry, info).contains_key(info),
        with_array(with_array(registry, info), info) == with_array(registry, info),
{
}

/// Arrays of descriptions that differ in any field, be it only the number of
/// layers, are registered side by side: asking for the second leaves the
/// first as it is.
pub proof fn lemma_other_description_other_array(
    registry: Map<TextureArrayInfo, TextureArrayState>,
    first: TextureArrayInfo,
    second: TextureArrayInfo,
)
    requires
        first != second,
    ensures
        with_array(with_array(registry, first), second).contains_key(first),
        with_array(with_array(registry, first), second).contains_key(second),
        with_array(with_array(registry, first), second)[first] == with_array(registry, first)[first],
        !registry.contains_key(second) ==> with_array(with_array(registry, first), second)[second]
            == TextureArrayState::created(second),
{
}

/// The texture arrays of a renderer, each registered under its description.
#[derive(Debug)]
pub struct TextureManager {
    keys: Vec<TextureArrayInfo>,
    texture_arrays: Vec<TextureArray>,
}

impl View for TextureManager {
    type V = Map<TextureArrayInfo, TextureArrayState>;

    closed spec fn view(&self) -> Map<TextureArrayInfo, TextureArrayState> {
        registry_map(self.keys@, self.texture_arrays@)
    }
}

impl TextureManager {
    #[verifier::type_invariant]
    spec fn well_formed(&self) -> bool {
        &&& distinct(self.keys@)
        &&& self.keys@.len() == self.texture_arrays@.len()
    }

    /// A registry without texture arrays.
    pub fn deafult() -> (manager: Self)
        ensures
            manager@ == Map::<TextureArrayInfo, TextureArrayState>::empty(),
    {
        let manager = TextureManager { keys: Vec::new(), texture_arrays: Vec::new() };
        assert(manager@ =~= Map::<TextureArrayInfo, TextureArrayState>::empty());
        manager
    }

    /// The position of the array that is registered under `info`.
    fn position(&self, info: &TextureArrayInfo) -> (position: Option<usize>)
        ensures
            match position {
                Some(at) => at < self.keys@.len() && self.keys@[at as int] == *info,
                None => !self@.contains_key(*info),
            },
    {
        let mut i: usize = 0;
        while i < self.keys.len()
            invariant
                i <= self.keys@.len(),
                forall|j: int| 0 <= j < i ==> self.keys@[j] != *info,
            decreases self.keys@.len() - i,
        {
            if self.keys[i] == *info {
                return Some(i);
            }
            i += 1;
        }
        None
    }

    /// Registers a new texture array under `texture_array_info`, unless one
    /// is registered under it already.
    pub fn add_texture_array(&mut self, texture_array_info: TextureArrayInfo)
        ensures
            final(self)@ == with_array(old(self)@, texture_array_info),
    {
        proof {
            use_type_invariant(&*self);
        }
        match self.position(&texture_array_info) {
            Some(at) => {
                proof {
                    lemma_registry_map(self.keys@, self.texture_arrays@, at as int);
                }
            },
            None => {
                let array = TextureArray::new(&texture_array_info);
                // Both lists leave the registry while they grow, so that the
                // registry is well formed at every step.
                let mut taken = TextureManager { keys: Vec::new(), texture_arrays: Vec::new() };
                std::mem::swap(self, &mut taken);
                let TextureManager { mut keys, mut texture_arrays } = taken;
                keys.push(texture_array_info);
                texture_arrays.push(array);
                proof {
                    let before = old(self)@;
                    let after = registry_map(keys@, texture_arrays@);
                    assert forall|info: TextureArrayInfo| #[trigger]
                        after.contains_key(info) == with_array(
                            before,
                            texture_array_info,
                        ).contains_key(info) by {
                        if before.contains_key(info) {
                            let i = position_of(old(self).keys@, info);
                            assert(keys@[i] == info);
                        }
                        if info == texture_array_info {
                            assert(keys@[keys@.len() - 1] == info);
                        }
                    }
                    assert forall|info: TextureArrayInfo| #[trigger]
                        after.contains_key(info) implies after[info] == with_array(
                        before,
                        texture_array_info,
                    )[info] by {
                        let i = position_of(keys@, info);
                        if i < keys@.len() - 1 {
                            assert(old(self).keys@[i] == info);
                            lemma_registry_map(old(self).keys@, old(self).texture_arrays@, i);
                        }
                    }
                    assert(after =~= with_array(before, texture_array_info));
                }
                *self = TextureManager { keys, texture_arrays };
            },
        }
    }

    /// The texture array that is registered under `texture_array_info`, if
    /// there is one.
    pub fn get_texture_array(&self, texture_array_info: &TextureArrayInfo) -> (array: Option<
        &TextureArray,
    >)
        ensures
            match array {
                Some(array) => self@.contains_key(*texture_array_info)
                    && self@[*texture_array_info] == array@,
                None => !self@.contains_key(*texture_array_info),
            },
    {
        proof {
            use_type_invariant(self);
        }
        match self.position(texture_array_info) {
            Some(at) => {
                proof {
                    lemma_registry_map(self.keys@, self.texture_arrays@, at as int);
                }
                Some(&self.texture_arrays[at])
            },
            None => None,
        }
    }

    /// The texture array that is registered under `texture_array_info`, if
    /// there is one, for the caller to change.
    pub fn get_texture_array_mut(&mut self, texture_array_info: &TextureArrayInfo) -> (array:
        Option<&mut TextureArray>)
        ensures
            match array {
                Some(array) => {
                    &&& old(self)@.contains_key(*texture_array_info)
                    &&& array@ == old(self)@[*texture_array_info]
                    &&& final(self)@ == old(self)@.insert(*texture_array_info, final(array)@)
                },
                None => {
                    &&& !old(self)@.contains_key(*texture_array_info)
                    &&& final(self)@ == old(self)@
                },
            },
    {
        proof {
            use_type_invariant(&*self);
        }
        match self.position(texture_array_info) {
            Some(at) => {
                let ghost keys = self.keys@;
                let ghost before = self.texture_arrays@;
                let array = &mut self.texture_arrays[at];
                proof {
                    let after = before.update(at as int, *final(array));
                    lemma_registry_map(keys, before, at as int);
                    assert forall|info: TextureArrayInfo| #[trigger]
                        registry_map(keys, after).contains_key(info) implies registry_map(
                        keys,
                        after,
                    )[info] == registry_map(keys, before).insert(
                        *texture_array_info,
                        final(array)@,
                    )[info] by {
                        let i = position_of(keys, info);
                        lemma_registry_map(keys, after, i);
                        lemma_registry_map(keys, before, i);
                    }
                    assert(registry_map(keys, after) =~= registry_map(keys, before).insert(
                        *texture_array_info,
                        final(array)@,
                    ));
                }
                Some(array)
            },
            None => None,
        }
    }

    /// The binding of the image that was uploaded under `path` to the array
    /// that is registered under `texture_array_info`. There is none where no
    /// such array is registered, and where no image was uploaded to it under
    /// the path. The layer of a binding is an assigned layer of its array.
    pub fn binding(&self, texture_array_info: &TextureArrayInfo, path: &String) -> (binding: Option<
        RenderableBinding,
    >)
        ensures
            match binding {
                Some(binding) => {
                    &&& binding.texture_array == *texture_array_info
                    &&& self@.contains_key(*texture_array_info)
                    &&& self@[*texture_array_info].cache.contains_key(path@)
                    &&& self@[*texture_array_info].cache[path@] == binding.slot
                    &&& self@[*texture_array_info].assigned(binding.slot)
                },
                None => !self@.contains_key(*texture_array_info)
                    || !self@[*texture_array_info].cache.contains_key(path@),
            },
    {
        match self.get_texture_array(texture_array_info) {
            Some(array) => match array.by_path(path) {
                Some(slot) => Some(RenderableBinding { texture_array: *texture_array_info, slot: *slot }),
                None => None,
            },
            None => None,
        }
    }

    /// The texture array of `texture_array_info`: the one that is registered
    /// under it, or else a new one, which is registered first.
    pub fn get_or_create(&mut self, texture_array_info: TextureArrayInfo) -> (array: &TextureArray)
        ensures
            final(self)@ == with_array(old(self)@, texture_array_info),
            array@ == final(self)@[texture_array_info],
    {
        self.add_texture_array(texture_array_info);
        self.get_texture_array(&texture_array_info).unwrap()
    }

    /// Finds the place of the image at `path`, whose file holds `bytes`, in
    /// the texture array that is registered under `texture_array_info`.
    ///
    /// Fails where no array is registered under the description, and where
    /// loading the image into the array fails. In both cases nothing changes.
    /// No other array changes in any case.
    pub fn add_texture(
        &mut self,
        path: String,
        bytes: &[u8],
        texture_array_info: &TextureArrayInfo,
    ) -> (added: Result<Loaded, TextureError>)
        ensures
            match added {
                Ok(loaded) => {
                    &&& old(self)@.contains_key(*texture_array_info)
                    &&& changed_at(old(self)@, final(self)@, *texture_array_info)
                    &&& loaded_from(
                        old(self)@[*texture_array_info],
                        final(self)@[*texture_array_info],
                        path@,
                        Ok(loaded),
                    )
                },
                Err(TextureError::Load(error)) => {
                    &&& old(self)@.contains_key(*texture_array_info)
                    &&& changed_at(old(self)@, final(self)@, *texture_array_info)
                    &&& loaded_from(
                        old(self)@[*texture_array_info],
                        final(self)@[*texture_array_info],
                        path@,
                        Err(error),
                    )
                },
                Err(TextureError::NotRegistered) => {
                    &&& !old(self)@.contains_key(*texture_array_info)
                    &&& final(self)@ == old(self)@
                },
            },
    {
        let texture_array = match self.get_texture_array_mut(texture_array_info) {
            Some(texture_array) => texture_array,
            None => {
                return Err(TextureError::NotRegistered);
            },
        };
        match texture_array.load_from_file(path, bytes) {
            Ok(loaded) => Ok(loaded),
            Err(error) => Err(TextureError::Load(error)),
        }
    }
}

/// Whether `after` is `before` but for the array under `info`.
pub open spec fn changed_at(
    before: Map<TextureArrayInfo, TextureArrayState>,
    after: Map<TextureArrayInfo, TextureArrayState>,
    info: TextureArrayInfo,
) -> bool {
    after.contains_key(info) && after == before.insert(info, after[info])
}

} // verus!
