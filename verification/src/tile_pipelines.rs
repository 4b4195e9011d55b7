//! The vector-tile pipeline stages: parse the encoded bytes, tessellate the
//! requested layers (extruding buildings where the style asks for it), report
//! per-layer success, failure and absence, and finish the tile — in exactly
//! that order.

use vstd::prelude::*;

use crate::coords::TileCoords;
use crate::extrusion::{
    contour_scan, extrude_buffer, lemma_contour_scan_len, spec_wall_indices, ExtrudeVertex,
};
use crate::geometry::OverAlignedVertexBuffer;
use crate::pipeline::{
    DataPipeline, DecodeError, PipelineContext, PipelineEnd, PipelineProcessor, Processable,
};
use crate::tile::{
    contains_name, find_layer_style, missing_layers, seq_contains_name, spec_find_style,
    spec_missing_layers, Feature, Layer, LayerStyle, LayerView, Tile, TileRequest, TileValue,
};

verus! {

/// What the MVT decoder yields for given bytes: the decoded tile's value, or
/// nothing when the bytes are not a valid vector tile. A function of the
/// bytes alone; decoding the same bytes twice yields equal tiles.
pub uninterp spec fn mvt_decode(bytes: Seq<u8>) -> Option<crate::tile::TileView>;

/// Declares the wire format's decoded value message, so that conversions can
/// take it.
#[verifier::external_type_specification]
#[verifier::external_body]
pub struct ExMvtValue(geozero::mvt::tile::Value);

/// Relies on the decoded value message's public fields: each value carried
/// over one for one, the two floating-point variants as their IEEE bit
/// patterns, which preserve the numbers exactly.
#[verifier::external_body]
fn convert_values(values: Vec<geozero::mvt::tile::Value>) -> (r: Vec<TileValue>)
    ensures
        r@.len() == values@.len(),
{
    values.into_iter().map(|v| TileValue {
        string_value: v.string_value, int_value: v.int_value, uint_value: v.uint_value,
        sint_value: v.sint_value, bool_value: v.bool_value,
        float_bits: v.float_value.map(|x| x.to_bits()),
        double_bits: v.double_value.map(|x| x.to_bits()),
    }).collect()
}

/// Relies on geozero's vector-tile decoder: `geozero::mvt::Tile` decoded with
/// `prost::Message::decode`, whose result is a function of the bytes alone.
/// The decoded layers are carried over field by field, the value tables
/// through `convert_values`.
#[verifier::external_body]
fn decode_tile_bytes(data: &Vec<u8>) -> (r: Option<Tile>)
    ensures
        match r {
            Option::Some(tile) => mvt_decode(data@) == Option::Some(tile@),
            Option::None => mvt_decode(data@) is None,
        },
{
    let parsed = <geozero::mvt::Tile as prost::Message>::decode(data.as_slice());
    parsed.ok().map(|t| Tile {
        layers: t.layers.into_iter().map(|l| Layer {
            version: l.version, name: l.name, keys: l.keys, extent: l.extent,
            values: convert_values(l.values),
            features: l.features.into_iter().map(
                |f| Feature { id: f.id, tags: f.tags, geometry: f.geometry },
            ).collect(),
        }).collect(),
    })
}

/// Decodes encoded tile bytes into a structured tile. Decode failure is fatal
/// to this tile: it surfaces as `DecodeError` and no further stage runs.
#[derive(Default)]
pub struct ParseTile;

impl<P> Processable<P> for ParseTile {
    type Input = (TileRequest, Vec<u8>);

    type Output = (TileRequest, Tile);

    /// The request passes through; the bytes decode to the returned tile, or
    /// fail for every run on these bytes; the context is untouched.
    open spec fn post(
        &self,
        input: (TileRequest, Vec<u8>),
        r: Result<(TileRequest, Tile), DecodeError>,
        c0: PipelineContext<P>,
        c1: PipelineContext<P>,
    ) -> bool {
        &&& match r {
            Result::Ok(out) => mvt_decode(input.1@) == Option::Some(out.1@) && out.0 == input.0,
            Result::Err(e) => mvt_decode(input.1@) is None && e == DecodeError,
        }
        &&& c1 == c0
    }

    fn process(&self, input: (TileRequest, Vec<u8>), context: &mut PipelineContext<P>) -> (r:
        Result<(TileRequest, Tile), DecodeError>) {
        let (tile_request, data) = input;
        match decode_tile_bytes(&data) {
            Option::Some(tile) => Ok((tile_request, tile)),
            Option::None => Err(DecodeError),
        }
    }
}

/// A failure of the external tessellator for one layer; reported through the
/// processor, never propagated.
#[derive(Clone, Copy, PartialEq, Eq, Structural, Debug)]
pub struct TessellationError;

/// A freshly tessellated layer: a 2D triangle mesh and the per-feature count
/// of its indices.
#[verifier::reject_recursive_types(V)]
pub struct TessellatedLayer<V> {
    pub buffer: lyon::tessellation::VertexBuffers<V, u32>,
    pub feature_indices: Vec<u32>,
}

/// The low-level tessellator, an external collaborator the renderer supplies:
/// it turns one layer's features into a 2D triangle mesh, or fails for that
/// layer.
pub trait LayerTessellator {
    type Vertex;

    fn tessellate_layer(&self, layer: &Layer) -> Result<
        TessellatedLayer<Self::Vertex>,
        TessellationError,
    >;
}

/// What the tessellate stage tells the processor about one tile, in order.
#[verifier::reject_recursive_types(V)]
pub enum TileEvent<V> {
    /// A requested layer's geometry is ready: the (possibly extruded)
    /// buffers, the per-feature index counts, and the layer snapshot taken
    /// before tessellation.
    TessellationFinished {
        buffer: OverAlignedVertexBuffer<V, u32>,
        feature_indices: Vec<u32>,
        layer: Layer,
    },
    /// A requested layer failed to tessellate, or is absent from the tile.
    LayerUnavailable { name: String },
    /// Every layer of the tile was handled; exactly once, last.
    TileFinished,
}

/// The layer name an event concerns; the tile's end concerns none.
pub open spec fn event_name<V>(ev: TileEvent<V>) -> Seq<char> {
    match ev {
        TileEvent::TessellationFinished { buffer, feature_indices, layer } => layer.name@,
        TileEvent::LayerUnavailable { name } => name@,
        TileEvent::TileFinished => Seq::empty(),
    }
}

/// The names of the events of a sequence, in order.
pub open spec fn event_names<V>(events: Seq<TileEvent<V>>) -> Seq<Seq<char>> {
    events.map_values(|e: TileEvent<V>| event_name(e))
}

/// The names of the tile's layers that the request asks for, in tile order.
pub open spec fn spec_present_names(layers: Seq<Layer>, requested: Seq<String>) -> Seq<Seq<char>>
    decreases layers.len(),
{
    if layers.len() == 0 {
        Seq::empty()
    } else {
        let rest = spec_present_names(layers.skip(1), requested);
        if seq_contains_name(requested, layers[0].name@) {
            seq![layers[0].name@] + rest
        } else {
            rest
        }
    }
}

/// The name each event of a tile run concerns, in order: one per requested
/// layer present in the tile, in tile order, then one per missing requested
/// name, in request order.
pub open spec fn spec_event_names(requested: Seq<String>, layers: Seq<Layer>) -> Seq<Seq<char>> {
    spec_present_names(layers, requested) + spec_missing_layers(requested, layers).map_values(
        |s: String| s@,
    )
}

/// All index values point into the first `bound` vertices.
fn indices_in_bounds(indices: &Vec<u32>, bound: usize) -> (r: bool)
    ensures
        r == (forall|i: int| 0 <= i < indices@.len() ==> (indices@[i] as int) < bound),
{
    let n = indices.len();
    let mut i: usize = 0;
    while i < n
        invariant
            n == indices@.len(),
            0 <= i <= n,
            forall|j: int| 0 <= j < i ==> (indices@[j] as int) < bound,
        decreases n - i,
    {
        if indices[i] as usize >= bound {
            return false;
        }
        i = i + 1;
    }
    true
}

/// The extrusion flag the style prescribes for a layer called `name`: the
/// first matching style entry's flag; a layer no entry matches is treated as
/// non-extruding.
pub open spec fn spec_extrusion_flag(styles: Seq<LayerStyle>, name: Seq<char>) -> bool {
    match spec_find_style(styles, name) {
        Option::Some(style) => style.extrusion,
        Option::None => false,
    }
}

/// A triangle list fit for extrusion: whole triangles, every index within the
/// vertex list, and small enough that the extruded mesh still fits the index
/// type.
pub open spec fn well_shaped_mesh<V>(buffer: lyon::tessellation::VertexBuffers<V, u32>) -> bool {
    &&& buffer.indices@.len() % 3 == 0
    &&& buffer.vertices@.len() <= u32::MAX
    &&& buffer.indices@.len() <= u32::MAX / 8
    &&& buffer.vertices@.len() + 7 * buffer.indices@.len() <= u32::MAX
    &&& forall|i: int|
        0 <= i < buffer.indices@.len() ==> (buffer.indices@[i] as int) < buffer.vertices@.len()
}

/// The event owed for one layer, for each value of the tessellator's outcome.
/// Failure reports the layer unavailable; so does a malformed triangle list
/// when extrusion is asked for. Success yields a geometry event carrying the
/// per-feature counts, a snapshot of the layer, and the buffer — exactly as
/// tessellated when the style does not extrude, or grown by four wall
/// vertices and six wall indices per silhouette edge when it does.
pub open spec fn spec_event_for<V>(
    tessellation: Result<TessellatedLayer<V>, TessellationError>,
    extrusion: bool,
    layer: LayerView,
    event: TileEvent<V>,
) -> bool {
    match tessellation {
        Result::Err(_) => {
            &&& event matches TileEvent::LayerUnavailable { name }
            &&& name@ == layer.name
        },
        Result::Ok(t) => {
            if extrusion && well_shaped_mesh(t.buffer) {
                let edges = contour_scan(t.buffer.indices@, t.buffer.indices@.len() as int);
                &&& event matches TileEvent::TessellationFinished {
                    buffer,
                    feature_indices,
                    layer: snapshot,
                }
                &&& snapshot@ == layer
                &&& feature_indices@ == t.feature_indices@
                &&& buffer.buffer.vertices@.len() == t.buffer.vertices@.len() + 4 * edges.len()
                &&& buffer.buffer.indices@ == t.buffer.indices@ + spec_wall_indices(
                    t.buffer.vertices@.len() as int,
                    edges.len() as int,
                )
                &&& buffer.usable_indices == buffer.buffer.indices@.len()
            } else if extrusion {
                &&& event matches TileEvent::LayerUnavailable { name }
                &&& name@ == layer.name
            } else {
                &&& event matches TileEvent::TessellationFinished {
                    buffer,
                    feature_indices,
                    layer: snapshot,
                }
                &&& snapshot@ == layer
                &&& feature_indices@ == t.feature_indices@
                &&& buffer.buffer.vertices@ == t.buffer.vertices@
                &&& buffer.buffer.indices@ == t.buffer.indices@
                &&& buffer.usable_indices == if t.buffer.indices@.len() <= u32::MAX {
                    t.buffer.indices@.len() as u32
                } else {
                    u32::MAX
                }
            }
        },
    }
}

/// The event is the one some tessellator outcome owes for this layer under
/// this style: what a stage may send for the layer, whatever came back from
/// the external tessellator.
pub open spec fn event_justified<V>(
    styles: Seq<LayerStyle>,
    layer: LayerView,
    event: TileEvent<V>,
) -> bool {
    exists|t: Result<TessellatedLayer<V>, TessellationError>|
        #[trigger] spec_event_for(t, spec_extrusion_flag(styles, layer.name), layer, event)
}

/// Assembles the event one layer's tessellation outcome owes, as
/// `spec_event_for` states it.
pub fn layer_event_of<V: ExtrudeVertex>(
    tessellation: Result<TessellatedLayer<V>, TessellationError>,
    extrusion: bool,
    layer: &Layer,
) -> (event: TileEvent<V>)
    ensures
        spec_event_for(tessellation, extrusion, layer@, event),
        !(event is TileFinished),
        event_name(event) == layer@.name,
{
    match tessellation {
        Result::Err(_) => TileEvent::LayerUnavailable { name: layer.name.clone() },
        Result::Ok(tessellated) => {
            // The snapshot is taken before extrusion mutates the buffers, so
            // the observer sees the metadata as decoded.
            let snapshot = layer.snapshot();
            let mut buffer = tessellated.buffer;
            let feature_indices = tessellated.feature_indices;
            if extrusion {
                let vlen = buffer.vertices.len();
                let ilen = buffer.indices.len();
                let well_shaped = ilen % 3 == 0 && vlen as u64 <= u32::MAX as u64 && ilen as u64
                    <= (u32::MAX / 8) as u64 && (vlen as u64) + 7 * (ilen as u64) <= u32::MAX
                    as u64 && indices_in_bounds(&buffer.indices, vlen);
                if well_shaped {
                    proof {
                        lemma_contour_scan_len(buffer.indices@, buffer.indices@.len() as int);
                    }
                    extrude_buffer(&mut buffer);
                    let usable = buffer.indices.len() as u32;
                    TileEvent::TessellationFinished {
                        buffer: OverAlignedVertexBuffer::from_buffers(buffer, usable),
                        feature_indices,
                        layer: snapshot,
                    }
                } else {
                    // The tessellator handed back a malformed triangle list;
                    // report the layer unavailable rather than abort the tile.
                    TileEvent::LayerUnavailable { name: layer.name.clone() }
                }
            } else {
                // Every index is useful; a count beyond the index type's
                // range cannot be drawn and saturates.
                let usable = if buffer.indices.len() as u64 <= u32::MAX as u64 {
                    buffer.indices.len() as u32
                } else {
                    u32::MAX
                };
                TileEvent::TessellationFinished {
                    buffer: OverAlignedVertexBuffer::from_buffers(buffer, usable),
                    feature_indices,
                    layer: snapshot,
                }
            }
        },
    }
}

/// The tile's layers that the request names, in tile order.
pub open spec fn spec_present_layers(layers: Seq<Layer>, requested: Seq<String>) -> Seq<Layer>
    decreases layers.len(),
{
    if layers.len() == 0 {
        Seq::empty()
    } else {
        let rest = spec_present_layers(layers.skip(1), requested);
        if seq_contains_name(requested, layers[0].name@) {
            seq![layers[0]] + rest
        } else {
            rest
        }
    }
}

/// The present names are exactly the present layers' names, in order.
pub proof fn lemma_present_names(layers: Seq<Layer>, requested: Seq<String>)
    ensures
        spec_present_names(layers, requested) == spec_present_layers(layers, requested).map_values(
            |l: Layer| l.name@,
        ),
    decreases layers.len(),
{
    if layers.len() == 0 {
        assert(spec_present_names(layers, requested) =~= spec_present_layers(
            layers,
            requested,
        ).map_values(|l: Layer| l.name@));
    } else {
        lemma_present_names(layers.skip(1), requested);
        assert(spec_present_names(layers, requested) =~= spec_present_layers(
            layers,
            requested,
        ).map_values(|l: Layer| l.name@));
    }
}

/// Per requested layer of the decoded tile: tessellate it, extrude it when
/// its style asks, and report; then report every requested layer the tile
/// lacks; then finish the tile.
pub struct TessellateLayer<T> {
    pub tessellator: T,
}

impl<T: LayerTessellator> TessellateLayer<T> where T::Vertex: ExtrudeVertex {
    /// The events of one tile run, in the order they are sent: for each layer
    /// of the tile that the request names, in tile order, the event its
    /// tessellation outcome owes (`spec_event_for`, for some outcome of the
    /// external tessellator), carrying that layer's name; then one
    /// unavailability per requested name the tile lacks, in request order;
    /// then the tile's end, exactly once.
    #[verifier::rlimit(50)]
    pub fn tile_events(&self, request: &TileRequest, tile: &Tile) -> (events: Vec<
        TileEvent<T::Vertex>,
    >)
        ensures
            events@.len() == spec_event_names(request.layers@, tile.layers@).len() + 1,
            events@[events@.len() - 1] is TileFinished,
            forall|i: int|
                0 <= i < events@.len() - 1 ==> !((#[trigger] events@[i]) is TileFinished)
                    && event_name(events@[i]) == spec_event_names(
                    request.layers@,
                    tile.layers@,
                )[i],
            forall|i: int|
                spec_present_names(tile.layers@, request.layers@).len() <= i < events@.len() - 1
                    ==> (#[trigger] events@[i]) is LayerUnavailable,
            forall|i: int|
                0 <= i < spec_present_layers(tile.layers@, request.layers@).len()
                    ==> #[trigger] event_justified(
                    request.style.layers@,
                    spec_present_layers(tile.layers@, request.layers@)[i]@,
                    events@[i],
                ),
    {
        let mut events: Vec<TileEvent<T::Vertex>> = Vec::new();
        let ghost all_layers = tile.layers@;
        let ghost requested = request.layers@;
        let ghost present = spec_present_layers(all_layers, requested);
        // The tessellator outcome that justifies each event sent so far.
        let ghost mut outcomes: Seq<Result<TessellatedLayer<T::Vertex>, TessellationError>> =
            Seq::empty();
        let n = tile.layers.len();
        let mut i: usize = 0;
        proof {
            assert(all_layers.skip(0) =~= all_layers);
            assert(event_names(events@) =~= Seq::<Seq<char>>::empty());
            assert(present =~= present.take(0) + spec_present_layers(
                all_layers.skip(0),
                requested,
            ));
        }
        while i < n
            invariant
                n == all_layers.len(),
                all_layers == tile.layers@,
                requested == request.layers@,
                present == spec_present_layers(all_layers, requested),
                0 <= i <= n,
                spec_present_names(all_layers, requested) == event_names(events@)
                    + spec_present_names(all_layers.skip(i as int), requested),
                events@.len() <= present.len(),
                present == present.take(events@.len() as int) + spec_present_layers(
                    all_layers.skip(i as int),
                    requested,
                ),
                outcomes.len() == events@.len(),
                forall|q: int| 0 <= q < events@.len() ==> !((#[trigger] events@[q]) is TileFinished),
                forall|q: int|
                    #![trigger events@[q]]
                    0 <= q < events@.len() ==> spec_event_for(
                        outcomes[q],
                        spec_extrusion_flag(request.style.layers@, present[q]@.name),
                        present[q]@,
                        events@[q],
                    ),
            decreases n - i,
        {
            let ghost before = events@;
            let ghost before_outcomes = outcomes;
            proof {
                assert(all_layers.skip(i as int)[0] == all_layers[i as int]);
                assert(all_layers.skip(i as int).skip(1) =~= all_layers.skip(i as int + 1));
            }
            let layer = &tile.layers[i];
            if contains_name(&request.layers, &layer.name) {
                proof {
                    // This layer is the next present one.
                    assert(spec_present_layers(all_layers.skip(i as int), requested) == seq![
                        all_layers[i as int],
                    ] + spec_present_layers(all_layers.skip(i as int + 1), requested));
                    assert(present[before.len() as int] == all_layers[i as int]) by {
                        assert(present == present.take(before.len() as int) + (seq![
                            all_layers[i as int],
                        ] + spec_present_layers(all_layers.skip(i as int + 1), requested)));
                    }
                }
                let event = self.layer_event(request, layer);
                events.push(event);
                proof {
                    assert(event_justified(request.style.layers@, layer@, event));
                    let t0 = choose|t: Result<TessellatedLayer<T::Vertex>, TessellationError>|
                        #[trigger] spec_event_for(
                            t,
                            spec_extrusion_flag(request.style.layers@, layer@.name),
                            layer@,
                            event,
                        );
                    outcomes = outcomes.push(t0);
                    assert(event_names(events@) =~= event_names(before).push(event_name(event)));
                    assert(event_names(before).push(layer.name@) =~= event_names(before) + seq![
                        layer.name@,
                    ]);
                    assert(event_names(events@) + spec_present_names(
                        all_layers.skip(i as int + 1),
                        requested,
                    ) =~= event_names(before) + (seq![layer.name@] + spec_present_names(
                        all_layers.skip(i as int + 1),
                        requested,
                    )));
                    assert(present.take(events@.len() as int) =~= present.take(
                        before.len() as int,
                    ).push(present[before.len() as int]));
                    assert(present =~= present.take(events@.len() as int) + spec_present_layers(
                        all_layers.skip(i as int + 1),
                        requested,
                    ));
                    assert forall|q: int| #![trigger events@[q]] 0 <= q < events@.len() implies
                        spec_event_for(
                            outcomes[q],
                            spec_extrusion_flag(request.style.layers@, present[q]@.name),
                            present[q]@,
                            events@[q],
                        ) by {
                        if q < before.len() {
                            assert(events@[q] == before[q]);
                            assert(outcomes[q] == before_outcomes[q]);
                        } else {
                            assert(events@[q] == event);
                            assert(outcomes[q] == t0);
                            assert(present[q] == all_layers[i as int]);
                            assert(present[q]@ == layer@);
                        }
                    }
                }
            }
            i = i + 1;
        }
        proof {
            assert(spec_present_names(all_layers.skip(n as int), requested) == Seq::<
                Seq<char>,
            >::empty());
            assert(event_names(events@) + Seq::<Seq<char>>::empty() =~= event_names(events@));
            assert(spec_present_layers(all_layers.skip(n as int), requested) == Seq::<
                Layer,
            >::empty());
            assert(present.take(events@.len() as int) + Seq::<Layer>::empty() =~= present.take(
                events@.len() as int,
            ));
            assert(present.take(events@.len() as int) =~= present);
            lemma_present_names(all_layers, requested);
        }
        let ghost present_count = events@.len();

        // Requested layers the tile does not carry.
        let missing = missing_layers(&request.layers, tile);
        let m = missing.len();
        let mut k: usize = 0;
        while k < m
            invariant
                m == missing@.len(),
                missing@ == spec_missing_layers(requested, all_layers),
                requested == request.layers@,
                all_layers == tile.layers@,
                present == spec_present_layers(all_layers, requested),
                0 <= k <= m,
                events@.len() == present_count + k,
                event_names(events@) =~= spec_present_names(all_layers, requested)
                    + missing@.map_values(|s: String| s@).take(k as int),
                present_count == spec_present_names(all_layers, requested).len(),
                present_count == present.len(),
                outcomes.len() == present_count,
                forall|q: int| 0 <= q < events@.len() ==> !((#[trigger] events@[q]) is TileFinished),
                forall|q: int|
                    present_count <= q < events@.len() ==> (
                    #[trigger] events@[q]) is LayerUnavailable,
                forall|q: int|
                    #![trigger events@[q]]
                    0 <= q < present_count ==> spec_event_for(
                        outcomes[q],
                        spec_extrusion_flag(request.style.layers@, present[q]@.name),
                        present[q]@,
                        events@[q],
                    ),
            decreases m - k,
        {
            let ghost before = events@;
            let name = missing[k].clone();
            events.push(TileEvent::LayerUnavailable { name });
            proof {
                assert(event_names(events@) =~= event_names(before).push(missing@[k as int]@));
                assert(event_names(before).push(missing@[k as int]@) =~= spec_present_names(
                    all_layers,
                    requested,
                ) + missing@.map_values(|s: String| s@).take(k as int + 1));
                assert forall|q: int| #![trigger events@[q]] 0 <= q < present_count implies
                    spec_event_for(
                        outcomes[q],
                        spec_extrusion_flag(request.style.layers@, present[q]@.name),
                        present[q]@,
                        events@[q],
                    ) by {
                    assert(events@[q] == before[q]);
                }
            }
            k = k + 1;
        }
        proof {
            assert(missing@.map_values(|s: String| s@).take(m as int) =~= missing@.map_values(
                |s: String| s@,
            ));
        }

        let ghost named_count = events@.len();
        let ghost before_end = events@;
        events.push(TileEvent::TileFinished);
        proof {
            assert(event_names(events@) =~= event_names(events@.take(named_count as int)).push(
                Seq::<char>::empty(),
            ));
            assert(events@.take(named_count as int) =~= events@.drop_last());
            assert forall|q: int| 0 <= q < events@.len() - 1 implies event_name(events@[q])
                == spec_event_names(requested, all_layers)[q] by {
                assert(events@[q] == events@.drop_last()[q]);
                assert(event_names(events@.drop_last())[q] == event_name(events@.drop_last()[q]));
            }
            assert(present == spec_present_layers(tile.layers@, request.layers@));
            assert forall|q: int|
                0 <= q < spec_present_layers(tile.layers@, request.layers@).len() implies
                #[trigger] event_justified(
                    request.style.layers@,
                    spec_present_layers(tile.layers@, request.layers@)[q]@,
                    events@[q],
                ) by {
                assert(events@[q] == before_end[q]);
                assert(spec_present_layers(tile.layers@, request.layers@)[q] == present[q]);
                assert(spec_event_for(
                    outcomes[q],
                    spec_extrusion_flag(request.style.layers@, present[q]@.name),
                    present[q]@,
                    events@[q],
                ));
            }
        }
        events
    }

    /// One requested, present layer: looks up the style, runs the external
    /// tessellator, and assembles the event its outcome owes. Whatever came
    /// back, the event is the one `spec_event_for` fixes for that outcome.
    fn layer_event(&self, request: &TileRequest, layer: &Layer) -> (event: TileEvent<T::Vertex>)
        ensures
            !(event is TileFinished),
            event_name(event) == layer@.name,
            event_justified(request.style.layers@, layer@, event),
    {
        let extrusion = match find_layer_style(&request.style, &layer.name) {
            Option::Some(layer_style) => layer_style.extrusion,
            // No style matches this layer: treat it as non-extruding.
            Option::None => false,
        };
        proof {
            assert(extrusion == spec_extrusion_flag(request.style.layers@, layer.name@));
        }
        let tessellation = self.tessellator.tessellate_layer(layer);
        let ghost outcome = tessellation;
        let event = layer_event_of(tessellation, extrusion, layer);
        proof {
            assert(spec_event_for(
                outcome,
                spec_extrusion_flag(request.style.layers@, layer@.name),
                layer@,
                event,
            ));
            assert(event_justified(request.style.layers@, layer@, event));
        }
        event
    }
}

impl<P, T: LayerTessellator> Processable<P> for TessellateLayer<T> where
    T::Vertex: ExtrudeVertex,
    P: PipelineProcessor<T::Vertex>,
 {
    type Input = (TileRequest, Tile);

    type Output = (TileRequest, Tile);

    /// The stage never fails and hands its input through; what it told the
    /// processor is fixed by `tile_events`.
    open spec fn post(
        &self,
        input: (TileRequest, Tile),
        r: Result<(TileRequest, Tile), DecodeError>,
        c0: PipelineContext<P>,
        c1: PipelineContext<P>,
    ) -> bool {
        r == Result::<(TileRequest, Tile), DecodeError>::Ok(input)
    }

    fn process(&self, input: (TileRequest, Tile), context: &mut PipelineContext<P>) -> (r: Result<
        (TileRequest, Tile),
        DecodeError,
    >) {
        let (request, tile) = input;
        let mut events = self.tile_events(&request, &tile);
        let coords = request.coords;
        // Send the events in order; each loop turn sends the first pending
        // one.
        while events.len() > 0
            decreases events@.len(),
        {
            let event = events.remove(0);
            match event {
                TileEvent::TessellationFinished { buffer, feature_indices, layer } => {
                    context.processor_mut().layer_tesselation_finished(
                        &coords,
                        buffer,
                        feature_indices,
                        layer,
                    );
                },
                TileEvent::LayerUnavailable { name } => {
                    context.processor_mut().layer_unavailable(&coords, &name);
                },
                TileEvent::TileFinished => {
                    context.processor_mut().tile_finished(&coords);
                },
            }
        }
        Ok((request, tile))
    }
}

/// Reserved optional stage: runs a geometry indexer over the tile and reports
/// the indexed geometries. The indexer abstraction is reserved; a fresh index
/// holds nothing, so the report is empty.
#[verifier::reject_recursive_types(V)]
pub struct IndexLayer<V> {
    phantom: core::marker::PhantomData<V>,
}

impl<V> IndexLayer<V> {
    pub fn new() -> IndexLayer<V> {
        IndexLayer { phantom: core::marker::PhantomData }
    }

    /// The geometry index reported for one tile: the indexer abstraction is
    /// reserved, so a fresh index reports nothing.
    pub fn indexed_geometries(&self, tile: &Tile) -> (geometries: Vec<Feature>)
        ensures
            geometries@ == Seq::<Feature>::empty(),
    {
        Vec::new()
    }
}

impl<V, P: PipelineProcessor<V>> Processable<P> for IndexLayer<V> {
    type Input = (TileRequest, Tile);

    type Output = (TileRequest, Tile);

    /// The stage never fails and hands its input through; the report it sends
    /// is fixed empty by `indexed_geometries`.
    open spec fn post(
        &self,
        input: (TileRequest, Tile),
        r: Result<(TileRequest, Tile), DecodeError>,
        c0: PipelineContext<P>,
        c1: PipelineContext<P>,
    ) -> bool {
        r == Result::<(TileRequest, Tile), DecodeError>::Ok(input)
    }

    fn process(&self, input: (TileRequest, Tile), context: &mut PipelineContext<P>) -> (r: Result<
        (TileRequest, Tile),
        DecodeError,
    >) {
        let (request, tile) = input;
        let geometries = self.indexed_geometries(&tile);
        context.processor_mut().layer_indexing_finished(&request.coords, geometries);
        Ok((request, tile))
    }
}

/// The default tile pipeline: parse the encoded bytes, then tessellate the
/// requested layers around the given tessellator, reporting through the
/// context's processor.
pub fn build_vector_tile_pipeline<T: LayerTessellator>(tessellator: T) -> (p: DataPipeline<
    ParseTile,
    DataPipeline<TessellateLayer<T>, PipelineEnd<(TileRequest, Tile)>>,
>) where T::Vertex: ExtrudeVertex
    ensures
        p.tail.head.tessellator == tessellator,
{
    DataPipeline::new(
        ParseTile,
        DataPipeline::new(TessellateLayer { tessellator }, PipelineEnd::new()),
    )
}

} // verus!
