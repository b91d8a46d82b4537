//! Runners take a pipeline definition and execute it.

use vstd::prelude::*;

use crate::internals::pipeline::{
    bytes_coder_view, coders_grow, registered, root_coder_id, root_transform, Pipeline as PipelineBuilder,
};
use crate::internals::pvalue::{PType, PValue};
use crate::internals::utils::get_pcollection_name;
use crate::proto::{CoderView, PTransformView, Pipeline, ProcessBundleDescriptor};
use crate::text::decimal;

verus! {

/// Runs pipelines in this process.
#[derive(Debug)]
pub struct DirectRunner;

impl DirectRunner {
    pub fn new() -> Self {
        DirectRunner
    }

    /// The descriptor of the one bundle that the pipeline is run as: the pipeline's
    /// components (transforms, PCollections, windowing strategies, coders, environments),
    /// under the empty id.
    pub fn bundle_descriptor(&self, pipeline: Pipeline) -> (r: ProcessBundleDescriptor)
        ensures
            r.id@ == Seq::<char>::empty(),
            r.transforms == pipeline.components.transforms,
            r.pcollections == pipeline.components.pcollections,
            r.coders == pipeline.components.coders,
            r.windowing_strategies == pipeline.components.windowing_strategies,
            r.environments == pipeline.components.environments,
    {
        let Pipeline { components, root_transform_ids } = pipeline;
        ProcessBundleDescriptor {
            id: String::new(),
            transforms: components.transforms,
            pcollections: components.pcollections,
            windowing_strategies: components.windowing_strategies,
            coders: components.coders,
            environments: components.environments,
        }
    }
}

/// A runner that only builds a pipeline whose root stands for a PCollection of bytes.
#[derive(Debug)]
pub struct PlaceholderRunner {
    pipeline: PipelineBuilder,
}

impl PlaceholderRunner {
    pub closed spec fn spec_pipeline(&self) -> PipelineBuilder {
        self.pipeline
    }

    /// A runner with an empty pipeline.
    pub fn new() -> (r: Self)
        ensures
            r.spec_pipeline().wf(),
            r.spec_pipeline().coders() == Map::<Seq<char>, CoderView>::empty(),
            r.spec_pipeline().transforms() == Map::<Seq<char>, PTransformView>::empty(),
            r.spec_pipeline().coder_counter() == 0,
            r.spec_pipeline().name_counter() == 0,
    {
        PlaceholderRunner { pipeline: PipelineBuilder::new(String::new()) }
    }

    /// The pipeline being built.
    pub fn get_pipeline(&self) -> (r: &PipelineBuilder)
        ensures
            *r == self.spec_pipeline(),
    {
        &self.pipeline
    }

    /// Registers the root under a PCollection name drawn at random, and returns it.
    pub fn run(&mut self) -> (r: PValue)
        requires
            old(self).spec_pipeline().wf(),
            old(self).spec_pipeline().coder_counter() < usize::MAX,
        ensures
            final(self).spec_pipeline().wf(),
            r.spec_type() == PType::Root,
            exists|n: usize| r.spec_id() == "ref_PCollection_"@ + decimal(n as nat),
            final(self).spec_pipeline().coders() == old(self).spec_pipeline().coders().insert(
                root_coder_id(old(self).spec_pipeline().coders(), old(self).spec_pipeline().coder_counter()),
                bytes_coder_view(),
            ),
            final(self).spec_pipeline().transforms() == old(self).spec_pipeline().transforms().insert(
                "root"@,
                root_transform(r.spec_id()),
            ),
            coders_grow(old(self).spec_pipeline().coders(), final(self).spec_pipeline().coders()),
            final(self).spec_pipeline().coder_counter() == registered(
                old(self).spec_pipeline().coders(),
                old(self).spec_pipeline().coder_counter(),
                bytes_coder_view(),
            ).1,
            final(self).spec_pipeline().coder_counter() <= old(self).spec_pipeline().coder_counter() + 1,
            final(self).spec_pipeline().pcollections() == old(self).spec_pipeline().pcollections(),
            final(self).spec_pipeline().root_transform_ids() == old(self).spec_pipeline().root_transform_ids(),
            final(self).spec_pipeline().transform_stack() == old(self).spec_pipeline().transform_stack(),
            final(self).spec_pipeline().used_stage_names() == old(self).spec_pipeline().used_stage_names(),
            final(self).spec_pipeline().name_counter() == old(self).spec_pipeline().name_counter(),
            final(self).spec_pipeline().component_prefix() == old(self).spec_pipeline().component_prefix(),
            final(self).spec_pipeline().default_environment() == old(self).spec_pipeline().default_environment(),
    {
        let pcoll_name = get_pcollection_name();
        self.pipeline.register_root_named(pcoll_name)
    }
}

impl Default for PlaceholderRunner {
    /// A runner with an empty pipeline, as `new` makes it.
    fn default() -> (r: Self)
        ensures
            r.spec_pipeline().wf(),
            r.spec_pipeline().coders() == Map::<Seq<char>, CoderView>::empty(),
            r.spec_pipeline().transforms() == Map::<Seq<char>, PTransformView>::empty(),
            r.spec_pipeline().coder_counter() == 0,
            r.spec_pipeline().name_counter() == 0,
    {
        PlaceholderRunner::new()
    }
}

} // verus!
