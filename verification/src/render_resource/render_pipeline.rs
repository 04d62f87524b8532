use vstd::prelude::*;

verus! {

/// The kinds of render pipeline that a renderer keeps ready.
#[derive(Clone, Copy, Debug, PartialEq, Eq, Hash, Structural)]
pub enum PipelineType {
    Solid,
    Wireframe,
}

} // verus!
