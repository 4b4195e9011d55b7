use lyon::tessellation::VertexBuffers;
use maplibre::coords::TileCoords;
use maplibre::extrusion::ExtrudeVertex;
use maplibre::geometry::OverAlignedVertexBuffer;
use maplibre::pipeline::{PipelineContext, PipelineProcessor, Processable};
use maplibre::tile::{
    contains_name, find_layer_style, missing_layers, Feature, Layer, LayerStyle, Style, Tile,
    TileRequest,
};
use maplibre::tile_pipelines::{
    build_vector_tile_pipeline, LayerTessellator, ParseTile, TessellateLayer, TessellatedLayer,
    TessellationError,
};

#[derive(Clone, Copy, PartialEq, Debug)]
struct TestVertex {
    position: [f32; 3],
    normal: [f32; 3],
}

impl ExtrudeVertex for TestVertex {
    fn wall_quad(a: &Self, b: &Self) -> (Self, Self, Self, Self) {
        let dx = b.position[0] - a.position[0];
        let dy = b.position[1] - a.position[1];
        let len = (dx * dx + dy * dy).sqrt();
        let normal = [-dy / len, dx / len, 0.0];
        (
            TestVertex { position: [a.position[0], a.position[1], 0.0], normal },
            TestVertex { position: [b.position[0], b.position[1], 0.0], normal },
            TestVertex { position: [a.position[0], a.position[1], 40.0], normal },
            TestVertex { position: [b.position[0], b.position[1], 40.0], normal },
        )
    }

    fn lift_to_roof(v: &Self) -> Self {
        TestVertex { position: [v.position[0], v.position[1], 40.0], normal: v.normal }
    }
}

fn square_mesh() -> VertexBuffers<TestVertex, u32> {
    let v = |x: f32, y: f32| TestVertex { position: [x, y, 0.0], normal: [0.0, 0.0, 1.0] };
    VertexBuffers {
        vertices: vec![v(0.0, 0.0), v(1.0, 0.0), v(0.0, 1.0), v(1.0, 1.0)],
        indices: vec![0, 1, 2, 2, 1, 3],
    }
}

/// Tessellates every layer into the same small square mesh; fails on layers
/// whose name starts with "bad".
struct SquareTessellator;

impl LayerTessellator for SquareTessellator {
    type Vertex = TestVertex;

    fn tessellate_layer(
        &self,
        layer: &Layer,
    ) -> Result<TessellatedLayer<TestVertex>, TessellationError> {
        if layer.name.starts_with("bad") {
            Err(TessellationError)
        } else {
            Ok(TessellatedLayer { buffer: square_mesh(), feature_indices: vec![6] })
        }
    }
}

/// Records what the pipeline reports, in order.
#[derive(Default)]
struct RecordingProcessor {
    log: Vec<String>,
    buffers: Vec<OverAlignedVertexBuffer<TestVertex, u32>>,
    layers: Vec<Layer>,
}

impl PipelineProcessor<TestVertex> for RecordingProcessor {
    fn layer_tesselation_finished(
        &mut self,
        coords: &TileCoords,
        buffer: OverAlignedVertexBuffer<TestVertex, u32>,
        feature_indices: Vec<u32>,
        layer: Layer,
    ) {
        assert_eq!(vec![6], feature_indices);
        self.log.push(format!("tess {} {},{},{}", layer.name, coords.x, coords.y, coords.z));
        self.buffers.push(buffer);
        self.layers.push(layer);
    }

    fn layer_unavailable(&mut self, coords: &TileCoords, layer_name: &String) {
        self.log.push(format!("unavail {} {},{},{}", layer_name, coords.x, coords.y, coords.z));
    }

    fn tile_finished(&mut self, coords: &TileCoords) {
        self.log.push(format!("finished {},{},{}", coords.x, coords.y, coords.z));
    }
}

/// A minimal encoded vector tile: one layer message per name, each holding
/// the required name (field 1) and version 2 (field 15).
fn tile_bytes(names: &[&str]) -> Vec<u8> {
    let mut out = Vec::new();
    for name in names {
        let name_bytes = name.as_bytes();
        let layer_len = 2 + name_bytes.len() + 2;
        out.push(0x1A); // tile field 3, length-delimited: a layer
        out.push(layer_len as u8);
        out.push(0x0A); // layer field 1, length-delimited: the name
        out.push(name_bytes.len() as u8);
        out.extend_from_slice(name_bytes);
        out.push(0x78); // layer field 15, varint: the version
        out.push(0x02);
    }
    out
}

fn request(layers: &[&str], style_layers: Vec<LayerStyle>) -> TileRequest {
    TileRequest {
        coords: TileCoords::new(1, 2, 3),
        layers: layers.iter().map(|s| s.to_string()).collect(),
        style: Style { layers: style_layers },
    }
}

fn plain_style(name: &str, extrusion: bool) -> LayerStyle {
    LayerStyle { source_layer: Some(name.to_string()), extrusion }
}

#[test]
fn decode_is_idempotent() {
    let bytes = tile_bytes(&["water", "landuse"]);
    let pipeline = build_vector_tile_pipeline(SquareTessellator);
    let mut context = PipelineContext::new(RecordingProcessor::default());
    let req = request(&["water"], vec![plain_style("water", false)]);
    let (_, first) = pipeline.process((req.clone(), bytes.clone()), &mut context).expect("decodes");
    let (_, second) = pipeline.process((req, bytes), &mut context).expect("decodes");
    assert_eq!(first, second);
    assert_eq!(2, first.layers.len());
    assert_eq!("water", first.layers[0].name);
    assert_eq!("landuse", first.layers[1].name);
    assert_eq!(2, first.layers[0].version);
}

#[test]
fn empty_bytes_decode_to_an_empty_tile() {
    let pipeline = build_vector_tile_pipeline(SquareTessellator);
    let mut context = PipelineContext::new(RecordingProcessor::default());
    let req = request(&[], vec![]);
    let (_, tile) = pipeline.process((req, Vec::new()), &mut context).expect("decodes");
    assert_eq!(0, tile.layers.len());
    let processor = context.into_processor();
    assert_eq!(vec!["finished 1,2,3".to_string()], processor.log);
}

#[test]
fn garbage_bytes_fail_to_decode() {
    let pipeline = build_vector_tile_pipeline(SquareTessellator);
    let mut context = PipelineContext::new(RecordingProcessor::default());
    let req = request(&["water"], vec![plain_style("water", false)]);
    // Field 3 announces twenty bytes that are not there.
    let result = pipeline.process((req, vec![0x1A, 0x14, 0xFF]), &mut context);
    assert!(result.is_err());
    let processor = context.into_processor();
    assert!(processor.log.is_empty(), "no callback before a failed decode");
}

#[test]
fn missing_layer_reporting_order() {
    // Requested: water, roads, poi. Tile: water, landuse. Expected, in order:
    // water's geometry, roads missing, poi missing, tile finished; landuse is
    // never mentioned.
    let bytes = tile_bytes(&["water", "landuse"]);
    let req = request(
        &["water", "roads", "poi"],
        vec![plain_style("water", false), plain_style("roads", true)],
    );
    let pipeline = build_vector_tile_pipeline(SquareTessellator);
    let mut context = PipelineContext::new(RecordingProcessor::default());
    pipeline.process((req, bytes), &mut context).expect("decodes");
    let processor = context.into_processor();
    assert_eq!(
        vec![
            "tess water 1,2,3".to_string(),
            "unavail roads 1,2,3".to_string(),
            "unavail poi 1,2,3".to_string(),
            "finished 1,2,3".to_string(),
        ],
        processor.log,
    );
}

#[test]
fn failed_tessellation_is_reported_and_does_not_abort() {
    let bytes = tile_bytes(&["badwater", "parks"]);
    let req = request(&["badwater", "parks"], vec![]);
    let pipeline = build_vector_tile_pipeline(SquareTessellator);
    let mut context = PipelineContext::new(RecordingProcessor::default());
    pipeline.process((req, bytes), &mut context).expect("decodes");
    let processor = context.into_processor();
    assert_eq!(
        vec![
            "unavail badwater 1,2,3".to_string(),
            "tess parks 1,2,3".to_string(),
            "finished 1,2,3".to_string(),
        ],
        processor.log,
    );
}

#[test]
fn extrusion_disabled_passes_the_mesh_through() {
    let bytes = tile_bytes(&["water"]);
    let req = request(&["water"], vec![plain_style("water", false)]);
    let pipeline = build_vector_tile_pipeline(SquareTessellator);
    let mut context = PipelineContext::new(RecordingProcessor::default());
    pipeline.process((req, bytes), &mut context).expect("decodes");
    let processor = context.into_processor();
    let buffer = &processor.buffers[0];
    assert_eq!(4, buffer.buffer.vertices.len());
    assert_eq!(6, buffer.buffer.indices.len());
    assert_eq!(6, buffer.usable_indices);
    for v in &buffer.buffer.vertices {
        assert_eq!(0.0, v.position[2], "no z-coordinate modification");
    }
}

#[test]
fn extrusion_enabled_builds_the_walls() {
    let bytes = tile_bytes(&["buildings"]);
    let req = request(&["buildings"], vec![plain_style("buildings", true)]);
    let pipeline = build_vector_tile_pipeline(SquareTessellator);
    let mut context = PipelineContext::new(RecordingProcessor::default());
    pipeline.process((req, bytes), &mut context).expect("decodes");
    let processor = context.into_processor();
    let buffer = &processor.buffers[0];
    // The square's silhouette has four edges: sixteen wall vertices and
    // twenty-four wall indices join the originals.
    assert_eq!(4 + 16, buffer.buffer.vertices.len());
    assert_eq!(6 + 24, buffer.buffer.indices.len());
    assert_eq!(30, buffer.usable_indices);
    for k in 0..4 {
        assert_eq!(40.0, buffer.buffer.vertices[k].position[2], "roof lifted");
    }
}

#[test]
fn unstyled_layers_default_to_no_extrusion() {
    let bytes = tile_bytes(&["water"]);
    let req = request(&["water"], vec![plain_style("roads", true)]);
    let pipeline = build_vector_tile_pipeline(SquareTessellator);
    let mut context = PipelineContext::new(RecordingProcessor::default());
    pipeline.process((req, bytes), &mut context).expect("decodes");
    let processor = context.into_processor();
    assert_eq!(4, processor.buffers[0].buffer.vertices.len());
}

#[test]
fn parse_tile_keeps_the_request() {
    let stage = ParseTile;
    let mut context: PipelineContext<RecordingProcessor> =
        PipelineContext::new(RecordingProcessor::default());
    let req = request(&["water"], vec![]);
    let bytes = tile_bytes(&["water"]);
    let (out_req, tile) = stage.process((req.clone(), bytes), &mut context).expect("decodes");
    assert_eq!(req, out_req);
    assert_eq!(1, tile.layers.len());
    assert_eq!("water", tile.layers[0].name);
    assert!(tile.layers[0].features.is_empty());
}

#[test]
fn tile_events_enumerates_in_order() {
    let stage = TessellateLayer { tessellator: SquareTessellator };
    let tile = Tile {
        layers: vec![
            Layer {
                version: 2,
                name: "water".to_string(),
                features: vec![Feature { id: Some(1), tags: vec![], geometry: vec![9, 8] }],
                keys: vec!["kind".to_string()],
                values: vec![],
                extent: Some(4096),
            },
            Layer {
                version: 2,
                name: "landuse".to_string(),
                features: vec![],
                keys: vec![],
                values: vec![],
                extent: None,
            },
        ],
    };
    let req = request(&["water", "poi"], vec![plain_style("water", false)]);
    let events = stage.tile_events(&req, &tile);
    assert_eq!(3, events.len());
}

#[test]
fn membership_and_style_helpers() {
    let names: Vec<String> = vec!["water".to_string(), "roads".to_string()];
    assert!(contains_name(&names, &"roads".to_string()));
    assert!(!contains_name(&names, &"poi".to_string()));

    let style = Style {
        layers: vec![
            LayerStyle { source_layer: None, extrusion: true },
            plain_style("water", false),
            plain_style("water", true),
        ],
    };
    // The first match wins; a missing source layer matches the empty name.
    let found = find_layer_style(&style, &"water".to_string()).expect("matches");
    assert!(!found.extrusion);
    let unnamed = find_layer_style(&style, &"".to_string()).expect("matches");
    assert!(unnamed.extrusion);
    assert!(find_layer_style(&style, &"poi".to_string()).is_none());

    let tile = Tile {
        layers: vec![Layer {
            version: 2,
            name: "water".to_string(),
            features: vec![],
            keys: vec![],
            values: vec![],
            extent: None,
        }],
    };
    let missing = missing_layers(&names, &tile);
    assert_eq!(vec!["roads".to_string()], missing);
}

#[test]
fn decode_carries_keys_and_values() {
    // One layer "poi" with key "height", a double value 40.0 (field 3),
    // an unsigned value 7 (field 5), and a string value "inn" (field 1).
    let mut bytes: Vec<u8> = Vec::new();
    bytes.push(0x1A); // tile field 3: a layer
    let mut layer: Vec<u8> = Vec::new();
    layer.extend_from_slice(&[0x0A, 0x03]); // field 1: name
    layer.extend_from_slice(b"poi");
    layer.extend_from_slice(&[0x78, 0x02]); // field 15: version 2
    layer.extend_from_slice(&[0x1A, 0x06]); // field 3: a key
    layer.extend_from_slice(b"height");
    layer.extend_from_slice(&[0x22, 0x09, 0x19]); // field 4: value, double
    layer.extend_from_slice(&40.0f64.to_le_bytes());
    layer.extend_from_slice(&[0x22, 0x02, 0x28, 0x07]); // field 4: value, uint 7
    layer.extend_from_slice(&[0x22, 0x05, 0x0A, 0x03]); // field 4: value, string
    layer.extend_from_slice(b"inn");
    bytes.push(layer.len() as u8);
    bytes.extend_from_slice(&layer);

    let stage = ParseTile;
    let mut context: PipelineContext<RecordingProcessor> =
        PipelineContext::new(RecordingProcessor::default());
    let req = request(&[], vec![]);
    let (_, tile) = stage.process((req, bytes), &mut context).expect("decodes");
    let layer = &tile.layers[0];
    assert_eq!("poi", layer.name);
    assert_eq!(vec!["height".to_string()], layer.keys);
    assert_eq!(3, layer.values.len());
    assert_eq!(Some(40.0f64.to_bits()), layer.values[0].double_bits);
    assert_eq!(None, layer.values[0].uint_value);
    assert_eq!(Some(7), layer.values[1].uint_value);
    assert_eq!(Some("inn".to_string()), layer.values[2].string_value);
    assert_eq!(None, layer.values[2].double_bits);
}

#[test]
fn snapshot_metadata_reaches_the_observer() {
    // The geometry callback carries the layer as decoded: name, keys, values.
    let mut bytes: Vec<u8> = Vec::new();
    bytes.push(0x1A); // tile field 3: a layer
    let mut layer: Vec<u8> = Vec::new();
    layer.extend_from_slice(&[0x0A, 0x05]); // field 1: name
    layer.extend_from_slice(b"water");
    layer.extend_from_slice(&[0x78, 0x02]); // field 15: version 2
    layer.extend_from_slice(&[0x1A, 0x04]); // field 3: a key
    layer.extend_from_slice(b"kind");
    layer.extend_from_slice(&[0x22, 0x02, 0x28, 0x09]); // field 4: value, uint 9
    bytes.push(layer.len() as u8);
    bytes.extend_from_slice(&layer);

    let req = request(&["water"], vec![plain_style("water", false)]);
    let pipeline = build_vector_tile_pipeline(SquareTessellator);
    let mut context = PipelineContext::new(RecordingProcessor::default());
    pipeline.process((req, bytes), &mut context).expect("decodes");
    let processor = context.into_processor();
    let seen = &processor.layers[0];
    assert_eq!("water", seen.name);
    assert_eq!(2, seen.version);
    assert_eq!(vec!["kind".to_string()], seen.keys);
    assert_eq!(1, seen.values.len());
    assert_eq!(Some(9), seen.values[0].uint_value);
}
