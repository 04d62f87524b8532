//! The texture arrays of a renderer, numbered in the order in which they were
//! added.

use vstd::prelude::*;
use crate::render_resource::texture_array::{TextureArray, TextureArrayState};

verus! {

/// A list of texture arrays, each known by its position.
#[derive(Debug)]
pub struct TextureArrayManager {
    texture_arrays: Vec<TextureArray>,
}

impl View for TextureArrayManager {
    type V = Seq<TextureArrayState>;

    closed spec fn view(&self) -> Seq<TextureArrayState> {
        Seq::new(self.texture_arrays@.len(), |i: int| self.texture_arrays@[i]@)
    }
}

impl TextureArrayManager {
    /// A manager without texture arrays.
    pub fn deafult() -> (manager: Self)
        ensures
            manager@ == Seq::<TextureArrayState>::empty(),
    {
        let manager = TextureArrayManager { texture_arrays: Vec::new() };
        assert(manager@ =~= Seq::<TextureArrayState>::empty());
        manager
    }

    /// Adds `texture_array` behind the arrays that the manager holds.
    pub fn add(&mut self, texture_array: TextureArray)
        ensures
            final(self)@ == old(self)@.push(texture_array@),
    {
        self.texture_arrays.push(texture_array);
        assert(self@ =~= old(self)@.push(texture_array@));
    }

    /// The texture array at position `index`, if there is one.
    pub fn get_texture_array(&self, index: u32) -> (array: Option<&TextureArray>)
        ensures
            match array {
                Some(array) => index < self@.len() && array@ == self@[index as int],
                None => index >= self@.len(),
            },
    {
        if (index as usize) < self.texture_arrays.len() {
            Some(&self.texture_arrays[index as usize])
        } else {
            None
        }
    }

    /// The texture array at position `index`, if there is one, for the caller
    /// to change.
    pub fn get_texture_array_mut(&mut self, index: u32) -> (array: Option<&mut TextureArray>)
        ensures
            match array {
                Some(array) => {
                    &&& index < old(self)@.len()
                    &&& array@ == old(self)@[index as int]
                    &&& final(self)@ == old(self)@.update(index as int, final(array)@)
                },
                None => {
                    &&& index >= old(self)@.len()
                    &&& final(self)@ == old(self)@
                },
            },
    {
        if (index as usize) < self.texture_arrays.len() {
            let ghost before = self.texture_arrays@;
            let array = &mut self.texture_arrays[index as usize];
            proof {
                let after = before.update(index as int, *final(array));
                assert(Seq::new(after.len(), |i: int| after[i]@) =~= Seq::new(
                    before.len(),
                    |i: int| before[i]@,
                ).update(index as int, final(array)@));
            }
            Some(array)
        } else {
            None
        }
    }
}

} // verus!
