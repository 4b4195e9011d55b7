//! Tessellated geometry, ready for upload: a vertex list and a triangle-list
//! index buffer, with a record of how many indices are semantically useful.

use vstd::prelude::*;

use crate::buffer_pool::{spec_align_up, COPY_BUFFER_ALIGNMENT};

verus! {

/// Declares lyon's `VertexBuffers` to the verifier. Its two fields are public
/// plain vectors, so verified code reads and fills them directly.
#[verifier::external_type_specification]
#[verifier::reject_recursive_types(V)]
#[verifier::reject_recursive_types(I)]
pub struct ExVertexBuffers<V, I>(pub lyon::tessellation::VertexBuffers<V, I>);

/// Tessellated geometry whose index buffer may be padded beyond
/// `usable_indices` elements so that uploads can satisfy the GPU copy
/// alignment.
#[verifier::reject_recursive_types(V)]
#[verifier::reject_recursive_types(I)]
pub struct OverAlignedVertexBuffer<V, I> {
    pub buffer: lyon::tessellation::VertexBuffers<V, I>,
    /// Number of semantically useful indices; the rest of the index buffer is
    /// alignment padding.
    pub usable_indices: u32,
}

impl<V, I> OverAlignedVertexBuffer<V, I> {
    /// Size in bytes of the vertex data.
    pub open spec fn vertices_bytes(&self) -> int {
        self.buffer.vertices@.len() * vstd::layout::size_of::<V>() as int
    }

    /// Size in bytes of the index data, padding included.
    pub open spec fn indices_bytes(&self) -> int {
        self.buffer.indices@.len() * vstd::layout::size_of::<I>() as int
    }

    /// The buffer is properly over-aligned: the useful indices fit in the
    /// index buffer, both byte counts sit on the GPU copy alignment, and the
    /// padding covers the aligned useful byte count.
    pub open spec fn well_formed(&self) -> bool {
        &&& self.usable_indices <= self.buffer.indices@.len()
        &&& self.vertices_bytes() % (COPY_BUFFER_ALIGNMENT as int) == 0
        &&& self.indices_bytes() % (COPY_BUFFER_ALIGNMENT as int) == 0
        &&& spec_align_up(self.usable_indices * vstd::layout::size_of::<I>() as int)
            <= self.indices_bytes()
        &&& self.vertices_bytes() <= u64::MAX
        &&& self.indices_bytes() <= u64::MAX
    }

    /// Wraps freshly tessellated buffers; every index is useful, alignment
    /// padding comes later.
    pub fn from_buffers(buffer: lyon::tessellation::VertexBuffers<V, I>, usable_indices: u32) -> (r:
        OverAlignedVertexBuffer<V, I>)
        ensures
            r.buffer == buffer,
            r.usable_indices == usable_indices,
    {
        OverAlignedVertexBuffer { buffer, usable_indices }
    }
}

} // verus!
