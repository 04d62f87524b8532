use vstd::prelude::*;
use crate::render_resource::render_pipeline::PipelineType;

verus! {

/// Keeps at most one pipeline of each [`PipelineType`].
///
/// `P` is the pipeline handle of whatever graphics API the caller uses; the
/// manager only stores it.
#[derive(Debug)]
pub struct PipelineManager<P> {
    solid: Option<P>,
    wireframe: Option<P>,
}

impl<P> View for PipelineManager<P> {
    type V = Map<PipelineType, P>;

    closed spec fn view(&self) -> Map<PipelineType, P> {
        let with_solid = match self.solid {
            Some(p) => Map::<PipelineType, P>::empty().insert(PipelineType::Solid, p),
            None => Map::<PipelineType, P>::empty(),
        };
        match self.wireframe {
            Some(p) => with_solid.insert(PipelineType::Wireframe, p),
            None => with_solid,
        }
    }
}

impl<P> PipelineManager<P> {
    /// A manager that holds no pipeline.
    pub fn new() -> (manager: Self)
        ensures
            manager@ == Map::<PipelineType, P>::empty(),
    {
        PipelineManager { solid: None, wireframe: None }
    }

    /// Registers `pipeline` under `pipeline_type`, replacing the one that was
    /// registered under it before.
    pub fn add_pipeline(&mut self, pipeline_type: PipelineType, pipeline: P)
        ensures
            final(self)@ == old(self)@.insert(pipeline_type, pipeline),
    {
        match pipeline_type {
            PipelineType::Solid => {
                self.solid = Some(pipeline);
            },
            PipelineType::Wireframe => {
                self.wireframe = Some(pipeline);
            },
        }
        assert(self@ =~= old(self)@.insert(pipeline_type, pipeline));
    }

    /// The pipeline registered under `pipeline_type`, if there is one.
    pub fn get_pipeline(&self, pipeline_type: PipelineType) -> (pipeline: Option<&P>)
        ensures
            match pipeline {
                Some(p) => self@.contains_key(pipeline_type) && self@[pipeline_type] == *p,
                None => !self@.contains_key(pipeline_type),
            },
    {
        match pipeline_type {
            PipelineType::Solid => self.solid.as_ref(),
            PipelineType::Wireframe => self.wireframe.as_ref(),
        }
    }
}

} // verus!
