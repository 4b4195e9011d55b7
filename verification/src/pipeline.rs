//! The pipeline framework: a typed chain of stages, each consuming the
//! previous stage's output with a shared context. Composition is by pairing —
//! a head stage and a tail pipeline — closed off by a terminal identity
//! stage. A run is synchronous and single-threaded; the only fatal error is a
//! failed decode, every per-layer failure is reported through the processor
//! and processing goes on.

use vstd::prelude::*;

use crate::coords::TileCoords;
use crate::geometry::OverAlignedVertexBuffer;
use crate::tile::{Feature, Layer};

verus! {

/// The one fatal pipeline error: the tile bytes did not decode as a vector
/// tile. No stage runs for the tile after it.
#[derive(Clone, Copy, PartialEq, Eq, Structural, Debug)]
pub struct DecodeError;

/// The observer of a pipeline run. The renderer implements it; every method
/// is fire-and-forget, the pipeline never inspects an outcome. `V` is the
/// vertex type of the tessellated geometry.
pub trait PipelineProcessor<V> {
    /// One layer's geometry is ready: the (possibly extruded) buffers, the
    /// per-feature index counts, and the layer snapshot taken before
    /// tessellation.
    fn layer_tesselation_finished(
        &mut self,
        coords: &TileCoords,
        buffer: OverAlignedVertexBuffer<V, u32>,
        feature_indices: Vec<u32>,
        layer: Layer,
    ) {
    }

    /// A geometry index over the layer features is ready.
    fn layer_indexing_finished(&mut self, coords: &TileCoords, geometries: Vec<Feature>) {
    }

    /// A requested layer failed to tessellate or is absent from the tile.
    fn layer_unavailable(&mut self, coords: &TileCoords, layer_name: &String) {
    }

    /// Every layer of the tile was handled; sent exactly once per run.
    fn tile_finished(&mut self, coords: &TileCoords) {
    }
}

/// Carries the processor through one pipeline run.
pub struct PipelineContext<P> {
    pub processor: P,
}

impl<P> PipelineContext<P> {
    pub fn new(processor: P) -> (c: PipelineContext<P>)
        ensures
            c.processor == processor,
    {
        PipelineContext { processor }
    }

    /// The processor, for a stage to call back into.
    pub fn processor_mut(&mut self) -> (p: &mut P)
        ensures
            *p == old(self).processor,
            final(self).processor == *final(p),
    {
        &mut self.processor
    }

    /// Hands the processor back once the run is over.
    pub fn into_processor(self) -> (p: P)
        ensures
            p == self.processor,
    {
        self.processor
    }
}

/// One stage of a pipeline: consumes its input with the shared context and
/// produces the next stage's input. `P` is the processor type the context
/// carries.
pub trait Processable<P> {
    type Input;

    type Output;

    /// What one run of this stage promises: how the result relates to the
    /// input and to the context before and after the run.
    spec fn post(
        &self,
        input: Self::Input,
        r: Result<Self::Output, DecodeError>,
        c0: PipelineContext<P>,
        c1: PipelineContext<P>,
    ) -> bool;

    /// Runs the stage; a `DecodeError` aborts the whole run.
    fn process(&self, input: Self::Input, context: &mut PipelineContext<P>) -> (r: Result<
        Self::Output,
        DecodeError,
    >)
        ensures
            self.post(input, r, *old(context), *final(context)),
    ;
}

/// The terminal stage: hands its input through unchanged.
pub struct PipelineEnd<T> {
    phantom: core::marker::PhantomData<T>,
}

impl<T> PipelineEnd<T> {
    pub fn new() -> PipelineEnd<T> {
        PipelineEnd { phantom: core::marker::PhantomData }
    }
}

impl<P, T> Processable<P> for PipelineEnd<T> {
    type Input = T;

    type Output = T;

    /// The terminal stage hands its input through and leaves the context
    /// alone.
    open spec fn post(
        &self,
        input: T,
        r: Result<T, DecodeError>,
        c0: PipelineContext<P>,
        c1: PipelineContext<P>,
    ) -> bool {
        &&& r == Result::<T, DecodeError>::Ok(input)
        &&& c1 == c0
    }

    fn process(&self, input: T, context: &mut PipelineContext<P>) -> (r: Result<T, DecodeError>) {
        Ok(input)
    }
}

/// A stage chained with the rest of a pipeline: the head runs first, the tail
/// consumes its output; a fatal error skips the tail.
pub struct DataPipeline<H, T> {
    pub head: H,
    pub tail: T,
}

impl<H, T> DataPipeline<H, T> {
    pub fn new(head: H, tail: T) -> (p: DataPipeline<H, T>)
        ensures
            p.head == head,
            p.tail == tail,
    {
        DataPipeline { head, tail }
    }
}

impl<P, H, T> Processable<P> for DataPipeline<H, T> where
    H: Processable<P>,
    T: Processable<P, Input = H::Output>,
 {
    type Input = H::Input;

    type Output = T::Output;

    /// Composition: the head ran first, from the initial context, with some
    /// intermediate outcome; a fatal error is returned as-is with the context
    /// left where the head put it, and otherwise the tail consumed the head's
    /// output and produced the final result and context.
    open spec fn post(
        &self,
        input: H::Input,
        r: Result<T::Output, DecodeError>,
        c0: PipelineContext<P>,
        c1: PipelineContext<P>,
    ) -> bool {
        exists|m: Result<H::Output, DecodeError>, cm: PipelineContext<P>|
            #[trigger] self.head.post(input, m, c0, cm) && match m {
                Result::Ok(mid) => self.tail.post(mid, r, cm, c1),
                Result::Err(e) => r == Result::<T::Output, DecodeError>::Err(e) && c1 == cm,
            }
    }

    fn process(&self, input: H::Input, context: &mut PipelineContext<P>) -> (r: Result<
        T::Output,
        DecodeError,
    >) {
        let ghost c0 = *context;
        let head_result = self.head.process(input, context);
        let ghost mid = head_result;
        let ghost cm = *context;
        match head_result {
            Ok(output) => {
                let ghost between = output;
                let result = self.tail.process(output, context);
                proof {
                    let c1 = *context;
                    assert(self.head.post(input, mid, c0, cm));
                    assert(self.tail.post(between, result, cm, c1));
                    assert(self.post(input, result, c0, c1));
                }
                result
            },
            Err(e) => {
                proof {
                    let c1 = *context;
                    assert(self.head.post(input, mid, c0, cm));
                    assert(self.post(input, Result::<T::Output, DecodeError>::Err(e), c0, c1));
                }
                Err(e)
            },
        }
    }
}

} // verus!
