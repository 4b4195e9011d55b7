//! The decoded form of a vector tile, the request that drives its
//! processing, and the style that governs per-layer handling.

use vstd::prelude::*;

use crate::coords::TileCoords;

verus! {

/// A feature of a layer, as the MVT wire format carries it: encoded geometry
/// commands and tag references into the layer's metadata tables.
#[derive(Clone, PartialEq, Eq, Debug)]
pub struct Feature {
    pub id: Option<u64>,
    pub tags: Vec<u32>,
    pub geometry: Vec<u32>,
}

/// One entry of a layer's typed value table. Exactly one field is set in a
/// valid table. The wire format's two floating-point variants are carried as
/// their IEEE bit patterns, which preserve the value exactly; the renderer
/// reassembles the numbers.
#[derive(Clone, PartialEq, Eq, Debug)]
pub struct TileValue {
    pub string_value: Option<String>,
    pub float_bits: Option<u32>,
    pub double_bits: Option<u64>,
    pub int_value: Option<i64>,
    pub uint_value: Option<u64>,
    pub sint_value: Option<i64>,
    pub bool_value: Option<bool>,
}

/// One layer of a decoded tile: its name, features, and metadata key and
/// value tables.
#[derive(Clone, PartialEq, Eq, Debug)]
pub struct Layer {
    pub version: u32,
    pub name: String,
    pub features: Vec<Feature>,
    pub keys: Vec<String>,
    pub values: Vec<TileValue>,
    pub extent: Option<u32>,
}

/// A decoded vector tile: a sequence of layers in wire order.
#[derive(Clone, PartialEq, Eq, Debug)]
pub struct Tile {
    pub layers: Vec<Layer>,
}

/// Style of one layer: which source layer it applies to (a missing name
/// matches the empty name), and whether that layer's buildings are extruded.
#[derive(Clone, PartialEq, Eq, Debug)]
pub struct LayerStyle {
    pub source_layer: Option<String>,
    pub extrusion: bool,
}

/// A style: the layer styles in definition order; the first match wins.
#[derive(Clone, PartialEq, Eq, Debug)]
pub struct Style {
    pub layers: Vec<LayerStyle>,
}

/// What the caller wants from one tile: its coordinates, the names of the
/// layers to prepare (a set, kept in request order), and the style.
#[derive(Clone, PartialEq, Eq, Debug)]
pub struct TileRequest {
    pub coords: TileCoords,
    pub layers: Vec<String>,
    pub style: Style,
}

/// The mathematical value of a feature.
pub ghost struct FeatureView {
    pub id: Option<u64>,
    pub tags: Seq<u32>,
    pub geometry: Seq<u32>,
}

impl View for Feature {
    type V = FeatureView;

    open spec fn view(&self) -> FeatureView {
        FeatureView { id: self.id, tags: self.tags@, geometry: self.geometry@ }
    }
}

/// The mathematical value of a typed table entry.
pub ghost struct TileValueView {
    pub string_value: Option<Seq<char>>,
    pub float_bits: Option<u32>,
    pub double_bits: Option<u64>,
    pub int_value: Option<i64>,
    pub uint_value: Option<u64>,
    pub sint_value: Option<i64>,
    pub bool_value: Option<bool>,
}

impl View for TileValue {
    type V = TileValueView;

    open spec fn view(&self) -> TileValueView {
        TileValueView {
            string_value: self.string_value.deep_view(),
            float_bits: self.float_bits,
            double_bits: self.double_bits,
            int_value: self.int_value,
            uint_value: self.uint_value,
            sint_value: self.sint_value,
            bool_value: self.bool_value,
        }
    }
}

/// The mathematical value of a layer.
pub ghost struct LayerView {
    pub version: u32,
    pub name: Seq<char>,
    pub features: Seq<FeatureView>,
    pub keys: Seq<Seq<char>>,
    pub values: Seq<TileValueView>,
    pub extent: Option<u32>,
}

impl View for Layer {
    type V = LayerView;

    open spec fn view(&self) -> LayerView {
        LayerView {
            version: self.version,
            name: self.name@,
            features: self.features@.map_values(|f: Feature| f@),
            keys: self.keys@.map_values(|k: String| k@),
            values: self.values@.map_values(|v: TileValue| v@),
            extent: self.extent,
        }
    }
}

/// The mathematical value of a decoded tile.
pub ghost struct TileView {
    pub layers: Seq<LayerView>,
}

impl View for Tile {
    type V = TileView;

    open spec fn view(&self) -> TileView {
        TileView { layers: self.layers@.map_values(|l: Layer| l@) }
    }
}

/// A fresh vector with the same numbers.
fn copy_u32s(v: &Vec<u32>) -> (r: Vec<u32>)
    ensures
        r@ == v@,
{
    let n = v.len();
    let mut out: Vec<u32> = Vec::new();
    let mut i: usize = 0;
    while i < n
        invariant
            n == v@.len(),
            0 <= i <= n,
            out@ == v@.take(i as int),
        decreases n - i,
    {
        out.push(v[i]);
        proof {
            assert(out@ =~= v@.take(i as int + 1));
        }
        i = i + 1;
    }
    proof {
        assert(v@.take(n as int) =~= v@);
    }
    out
}

/// A fresh vector with equal strings.
fn copy_strings(v: &Vec<String>) -> (r: Vec<String>)
    ensures
        r@ == v@,
{
    let n = v.len();
    let mut out: Vec<String> = Vec::new();
    let mut i: usize = 0;
    while i < n
        invariant
            n == v@.len(),
            0 <= i <= n,
            out@ == v@.take(i as int),
        decreases n - i,
    {
        out.push(v[i].clone());
        proof {
            assert(out@ =~= v@.take(i as int + 1));
        }
        i = i + 1;
    }
    proof {
        assert(v@.take(n as int) =~= v@);
    }
    out
}

impl Feature {
    /// A value copy, equal in view to the original.
    pub fn snapshot(&self) -> (r: Feature)
        ensures
            r@ == self@,
    {
        Feature {
            id: self.id,
            tags: copy_u32s(&self.tags),
            geometry: copy_u32s(&self.geometry),
        }
    }
}

impl TileValue {
    /// A value copy, equal in view to the original.
    pub fn snapshot(&self) -> (r: TileValue)
        ensures
            r@ == self@,
    {
        let string_value = match &self.string_value {
            Option::Some(s) => Option::Some(s.clone()),
            Option::None => Option::None,
        };
        TileValue {
            string_value,
            float_bits: self.float_bits,
            double_bits: self.double_bits,
            int_value: self.int_value,
            uint_value: self.uint_value,
            sint_value: self.sint_value,
            bool_value: self.bool_value,
        }
    }
}

impl Layer {
    /// A value copy of the layer, equal in view to the original: the observer
    /// of a pipeline run sees the metadata exactly as decoded.
    pub fn snapshot(&self) -> (r: Layer)
        ensures
            r@ == self@,
    {
        let n = self.features.len();
        let mut features: Vec<Feature> = Vec::new();
        let mut i: usize = 0;
        while i < n
            invariant
                n == self.features@.len(),
                0 <= i <= n,
                features@.len() == i,
                forall|j: int| 0 <= j < i ==> (#[trigger] features@[j])@ == self.features@[j]@,
            decreases n - i,
        {
            features.push(self.features[i].snapshot());
            i = i + 1;
        }
        let m = self.values.len();
        let mut values: Vec<TileValue> = Vec::new();
        let mut k: usize = 0;
        while k < m
            invariant
                m == self.values@.len(),
                0 <= k <= m,
                values@.len() == k,
                forall|j: int| 0 <= j < k ==> (#[trigger] values@[j])@ == self.values@[j]@,
                features@.len() == self.features@.len(),
                forall|j: int|
                    0 <= j < features@.len() ==> (#[trigger] features@[j])@ == self.features@[j]@,
            decreases m - k,
        {
            values.push(self.values[k].snapshot());
            k = k + 1;
        }
        let r = Layer {
            version: self.version,
            name: self.name.clone(),
            features,
            keys: copy_strings(&self.keys),
            values,
            extent: self.extent,
        };
        proof {
            assert(r@.features =~= self@.features);
            assert(r@.keys =~= self@.keys);
            assert(r@.values =~= self@.values);
        }
        r
    }
}

/// One of `names` reads exactly `name`.
pub open spec fn seq_contains_name(names: Seq<String>, name: Seq<char>) -> bool {
    exists|i: int| 0 <= i < names.len() && names[i]@ == name
}

/// The tile has a layer called `name`.
pub open spec fn tile_has_layer(layers: Seq<Layer>, name: Seq<char>) -> bool {
    exists|i: int| 0 <= i < layers.len() && layers[i].name@ == name
}

/// The requested names that the tile lacks, in request order.
pub open spec fn spec_missing_layers(requested: Seq<String>, layers: Seq<Layer>) -> Seq<String>
    decreases requested.len(),
{
    if requested.len() == 0 {
        Seq::empty()
    } else {
        let rest = spec_missing_layers(requested.skip(1), layers);
        if tile_has_layer(layers, requested[0]@) {
            rest
        } else {
            seq![requested[0]] + rest
        }
    }
}

/// The style entry that governs a layer called `name`: the first whose
/// source layer reads `name`, a missing source layer matching the empty name.
pub open spec fn style_matches(style: LayerStyle, name: Seq<char>) -> bool {
    match style.source_layer {
        Option::Some(s) => s@ == name,
        Option::None => name == Seq::<char>::empty(),
    }
}

pub open spec fn spec_find_style(styles: Seq<LayerStyle>, name: Seq<char>) -> Option<LayerStyle>
    decreases styles.len(),
{
    if styles.len() == 0 {
        Option::None
    } else if style_matches(styles[0], name) {
        Option::Some(styles[0])
    } else {
        spec_find_style(styles.skip(1), name)
    }
}

/// True exactly when one of `names` reads `name`.
pub fn contains_name(names: &Vec<String>, name: &String) -> (r: bool)
    ensures
        r == seq_contains_name(names@, name@),
{
    let n = names.len();
    let mut i: usize = 0;
    while i < n
        invariant
            n == names@.len(),
            0 <= i <= n,
            forall|j: int| 0 <= j < i ==> names@[j]@ != name@,
        decreases n - i,
    {
        if names[i].eq(name) {
            return true;
        }
        i = i + 1;
    }
    false
}

impl Tile {
    /// The tile holds a layer called `name`.
    pub fn has_layer(&self, name: &String) -> (r: bool)
        ensures
            r == tile_has_layer(self.layers@, name@),
    {
        let n = self.layers.len();
        let mut i: usize = 0;
        while i < n
            invariant
                n == self.layers@.len(),
                0 <= i <= n,
                forall|j: int| 0 <= j < i ==> self.layers@[j].name@ != name@,
            decreases n - i,
        {
            if self.layers[i].name.eq(name) {
                return true;
            }
            i = i + 1;
        }
        false
    }
}

/// The requested layer names absent from the tile, in request order.
pub fn missing_layers(requested: &Vec<String>, tile: &Tile) -> (missing: Vec<String>)
    ensures
        missing@ == spec_missing_layers(requested@, tile.layers@),
{
    let n = requested.len();
    let mut out: Vec<String> = Vec::new();
    let mut i: usize = 0;
    proof {
        assert(requested@.skip(0) =~= requested@);
    }
    while i < n
        invariant
            n == requested@.len(),
            0 <= i <= n,
            spec_missing_layers(requested@, tile.layers@) == out@ + spec_missing_layers(
                requested@.skip(i as int),
                tile.layers@,
            ),
        decreases n - i,
    {
        let ghost pending = requested@.skip(i as int);
        proof {
            assert(pending[0] == requested@[i as int]);
            assert(pending.skip(1) =~= requested@.skip(i as int + 1));
        }
        let ghost kept = out@;
        let has = tile.has_layer(&requested[i]);
        if has {
        } else {
            out.push(requested[i].clone());
        }
        proof {
            let rest = spec_missing_layers(requested@.skip(i as int + 1), tile.layers@);
            if has {
                assert(spec_missing_layers(pending, tile.layers@) == rest);
            } else {
                assert(spec_missing_layers(pending, tile.layers@) == seq![pending[0]] + rest);
                assert(out@ + rest =~= kept + (seq![pending[0]] + rest));
            }
        }
        i = i + 1;
    }
    proof {
        assert(spec_missing_layers(requested@.skip(n as int), tile.layers@) == Seq::<
            String,
        >::empty());
        assert(out@ + Seq::<String>::empty() =~= out@);
    }
    out
}

/// The first style entry matching `name`; a style whose source layer is
/// absent matches only the empty name.
pub fn find_layer_style<'a>(style: &'a Style, name: &String) -> (r: Option<&'a LayerStyle>)
    ensures
        match r {
            Option::Some(ls) => spec_find_style(style.layers@, name@) == Option::Some(*ls),
            Option::None => spec_find_style(style.layers@, name@) is None,
        },
{
    let n = style.layers.len();
    let mut i: usize = 0;
    proof {
        assert(style.layers@.skip(0) =~= style.layers@);
    }
    while i < n
        invariant
            n == style.layers@.len(),
            0 <= i <= n,
            spec_find_style(style.layers@, name@) == spec_find_style(
                style.layers@.skip(i as int),
                name@,
            ),
        decreases n - i,
    {
        proof {
            assert(style.layers@.skip(i as int)[0] == style.layers@[i as int]);
            assert(style.layers@.skip(i as int).skip(1) =~= style.layers@.skip(i as int + 1));
        }
        let ls = &style.layers[i];
        let is_match = match &ls.source_layer {
            Option::Some(s) => s.eq(name),
            Option::None => name.as_str().is_empty(),
        };
        if is_match {
            proof {
                if name@.len() == 0 {
                    assert(name@ =~= Seq::<char>::empty());
                }
            }
            return Some(ls);
        }
        proof {
            if name@.len() == 0 {
                assert(name@ =~= Seq::<char>::empty());
            }
        }
        i = i + 1;
    }
    None
}

} // verus!
