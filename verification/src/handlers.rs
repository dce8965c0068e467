//! What the tile service's request handlers decide: how path parameters are
//! read, where each requested resource comes from, and which endpoints a
//! layer offers.
use vstd::prelude::*;
use vstd::string::StrSliceExecFns;
use vstd::std_specs::bits::u64_trailing_zeros;
use crate::cell::{
    cell_parent, cell_token, face_level_col_row_from_cell_id, spec_cell_parent, spec_cell_token,
    spec_face_level_col_row,
};
use crate::text::{
    chars_of, ends_with, has_suffix, int_decimal, lemma_i32_decimal_roundtrip, lemma_text_le_total, lemma_text_le_transitive, parse_i32,
    push_str, replace_all, spec_parse_i32, spec_replace, str_equal, text_le, text_less_equal,
};
use crate::tiles::{feature_tile_uri, tile_path, LayerDefinition};
use crate::uri::{
    check_absolute_uri, is_absolute_uri, resolve_reference, resolve_relative, uri_relative_resolution,
    uri_resolution,
};

verus! {

/// Path parameters of a layer's top-node tileset.
#[derive(Debug)]
pub struct GetRootTilesetTopNodePaths {
    pub id: String,
}

/// Path parameters of a synthesized child tileset; `row` carries the
/// `.json` extension.
#[derive(Debug)]
pub struct GetChildTilesetPaths {
    pub id: String,
    pub face: u8,
    pub level: i32,
    pub col: i32,
    pub row: String,
}

/// Path parameters of a content package's top-level tileset.
#[derive(Debug)]
pub struct GetContentToplevelPaths {
    pub id: String,
    pub token: String,
}

/// Path parameters of a content payload: a path inside a package.
#[derive(Debug)]
pub struct GetContentPayloadPaths {
    pub id: String,
    pub token: String,
    pub rest: String,
}

/// Path parameters of a base globe terrain payload.
#[derive(Debug)]
pub struct GetBaseGlobeTerrainPayloadPaths {
    pub id: String,
    pub rest: String,
}

/// Path parameters of a Terrarium elevation tile; `y` carries the `.png`
/// extension.
#[derive(Debug)]
pub struct GetTerrariumTilePaths {
    pub id: String,
    pub zoom: i32,
    pub x: i32,
    pub y: String,
}

/// Path parameters of a simple WMTS imagery tile; `y` carries the `.jpg`
/// extension.
#[derive(Debug)]
pub struct GetWmtsSimpleImageryPaths {
    pub id: String,
    pub zoom: i32,
    pub x: i32,
    pub y: String,
}

/// Path parameters of a feature collection.
#[derive(Debug)]
pub struct GetFeaturesPaths {
    pub id: String,
}

/// Query parameters of a feature request: a `minx,miny,maxx,maxy` box and
/// a limit on the number of features.
#[derive(Debug)]
pub struct GetFeaturesBboxParams {
    pub bbox: Option<String>,
    pub limit: Option<usize>,
}

/// The number in a path segment that ends with `suffix`: the segment
/// without the suffix, read as an `i32`; none when the suffix is missing
/// or the rest is not a number.
pub open spec fn spec_tile_coordinate(segment: Seq<char>, suffix: Seq<char>) -> Option<i32> {
    if has_suffix(segment, suffix) {
        spec_parse_i32(segment.take(segment.len() - suffix.len()))
    } else {
        None
    }
}

/// Reads the number of a path segment such as `12.json`.
pub fn parse_tile_coordinate(segment: &str, suffix: &str) -> (r: Option<i32>)
    ensures
        r == spec_tile_coordinate(segment@, suffix@),
{
    if !ends_with(segment, suffix) {
        return None;
    }
    let cs = chars_of(segment);
    let n = suffix.unicode_len();
    let body = vstd::slice::slice_subrange(cs.as_slice(), 0, cs.len() - n);
    assert(body@ =~= segment@.take(segment@.len() - suffix@.len()));
    parse_i32(body)
}

/// A number written in decimal and followed by a suffix reads back as
/// that number: the row a child tile's path names (`row.json`) is the row
/// that `row_number` reads.
pub proof fn lemma_tile_coordinate_roundtrip(n: i32, suffix: Seq<char>)
    ensures
        spec_tile_coordinate(int_decimal(n as int) + suffix, suffix) == Some(n),
{
    let s = int_decimal(n as int) + suffix;
    assert(s.skip(s.len() - suffix.len()) =~= suffix);
    assert(s.take(s.len() - suffix.len()) =~= int_decimal(n as int));
    lemma_i32_decimal_roundtrip(n);
}

impl GetChildTilesetPaths {
    /// The row, read from `row` without its `.json` extension.
    pub fn row_number(&self) -> (r: Option<i32>)
        ensures
            r == spec_tile_coordinate(self.row@, ".json"@),
    {
        parse_tile_coordinate(self.row.as_str(), ".json")
    }
}

impl GetTerrariumTilePaths {
    /// The tile row, read from `y` without its `.png` extension.
    pub fn row_number(&self) -> (r: Option<i32>)
        ensures
            r == spec_tile_coordinate(self.y@, ".png"@),
    {
        parse_tile_coordinate(self.y.as_str(), ".png")
    }
}

impl GetWmtsSimpleImageryPaths {
    /// The tile row, read from `y` without its `.jpg` extension.
    pub fn row_number(&self) -> (r: Option<i32>)
        ensures
            r == spec_tile_coordinate(self.y@, ".jpg"@),
    {
        parse_tile_coordinate(self.y.as_str(), ".jpg")
    }
}

/// Where a content payload is read from.
#[derive(Debug)]
pub struct PayloadSource {
    pub uri: String,
    /// The payload is built by combining the models that the GeoJSON at
    /// `uri` references.
    pub inline_referenced_models: bool,
}

/// Why a content payload request cannot be served.
#[derive(Clone, Copy, Debug, PartialEq, Eq, Structural)]
pub enum PayloadError {
    /// The package's root tileset URI is not an absolute URI (a server
    /// fault).
    RootNotAbsolute,
    /// The requested path is not a URI reference.
    BadReference,
    /// The resolved URI is not an absolute URI.
    BadResolvedUri,
}

impl LayerDefinition {
    /// Where the top-level tileset of package `token` is read from; none
    /// when that is not an absolute URI.
    pub fn content_toplevel_source(&self, token: &str) -> (r: Option<String>)
        ensures
            is_absolute_uri(self.spec_content_root_tileset_uri(token@)) ==> (r matches Some(u)
                && u@ == self.spec_content_root_tileset_uri(token@)),
            !is_absolute_uri(self.spec_content_root_tileset_uri(token@)) ==> r is None,
    {
        let root = self.content_root_tileset_uri(token);
        if check_absolute_uri(root.as_str()) {
            Some(root)
        } else {
            None
        }
    }

    /// What `content_payload_source` gives: `rest` resolved against the
    /// package's root tileset, with `.glb` turned into `.geojson` when the
    /// layer inlines referenced models for it.
    pub open spec fn spec_payload_source(&self, token: Seq<char>, rest: Seq<char>) -> Result<
        (Seq<char>, bool),
        PayloadError,
    > {
        let root = self.spec_content_root_tileset_uri(token);
        let inline = (exists|i: int|
            0 <= i < self.content_transforms@.len() && #[trigger] self.content_transforms@[i]@
                == "inline_owt_referenced_models"@) && has_suffix(rest, ".glb"@);
        if !is_absolute_uri(root) {
            Err(PayloadError::RootNotAbsolute)
        } else {
            match uri_resolution(root, rest) {
                None => Err(PayloadError::BadReference),
                Some(resolved) => {
                    let uri = if inline {
                        spec_replace(resolved, ".glb"@, ".geojson"@)
                    } else {
                        resolved
                    };
                    if is_absolute_uri(uri) {
                        Ok((uri, inline))
                    } else {
                        Err(PayloadError::BadResolvedUri)
                    }
                },
            }
        }
    }

    /// Where the payload at path `rest` of package `token` is read from,
    /// and whether it is built from referenced models.
    pub fn content_payload_source(&self, token: &str, rest: &str) -> (r: Result<
        PayloadSource,
        PayloadError,
    >)
        ensures
            match (r, self.spec_payload_source(token@, rest@)) {
                (Ok(p), Ok((u, i))) => p.uri@ == u && p.inline_referenced_models == i,
                (Err(e), Err(f)) => e == f,
                _ => false,
            },
    {
        let root = self.content_root_tileset_uri(token);
        if !check_absolute_uri(root.as_str()) {
            return Err(PayloadError::RootNotAbsolute);
        }
        let resolved = match resolve_reference(root.as_str(), rest) {
            Some(s) => s,
            None => {
                return Err(PayloadError::BadReference);
            },
        };
        let inline = self.inlines_referenced_models(rest);
        let uri = if inline {
            proof {
                reveal_strlit(".glb");
            }
            replace_all(resolved.as_str(), ".glb", ".geojson")
        } else {
            resolved
        };
        if !check_absolute_uri(uri.as_str()) {
            return Err(PayloadError::BadResolvedUri);
        }
        Ok(PayloadSource { uri, inline_referenced_models: inline })
    }

    /// What `feature_tile_source_uri` gives for a content cell.
    pub open spec fn spec_feature_tile_source(&self, token: u64) -> Seq<char> {
        let flcr = spec_face_level_col_row(token);
        let package = spec_cell_token(
            spec_cell_parent(token, self.source_s2_content_package_level as u64),
        );
        self.spec_resolve_content_uri_template(package) + "/"@ + tile_path(
            flcr.0,
            flcr.1,
            flcr.2,
            flcr.3,
        ) + ".geojson"@
    }

    /// Where the GeoJSON of content cell `token` is read from: its tile
    /// path inside the package of its ancestor at the package level.
    pub fn feature_tile_source_uri(&self, token: u64) -> (r: String)
        requires
            0 <= self.source_s2_content_package_level <= 30,
            u64_trailing_zeros(token) <= 61,
        ensures
            r@ == self.spec_feature_tile_source(token),
    {
        let parent = cell_parent(token, self.source_s2_content_package_level as u64);
        let archive = self.resolve_content_uri_template(cell_token(parent).as_str());
        let (face, level, col, row) = face_level_col_row_from_cell_id(token);
        feature_tile_uri(archive.as_str(), face, level, col, row)
    }
}

/// The first `limit` items, or all of them without a limit.
pub fn apply_limit<T>(items: &mut Vec<T>, limit: Option<usize>)
    ensures
        final(items)@ == match limit {
            Some(l) => if l < old(items)@.len() {
                old(items)@.take(l as int)
            } else {
                old(items)@
            },
            None => old(items)@,
        },
{
    match limit {
        Some(l) => {
            if l < items.len() {
                items.truncate(l);
            }
        },
        None => {},
    }
}

/// One way to reach a layer: the kind of service and its URI.
#[derive(Debug)]
pub struct LayerItemEndpoint {
    pub kind: String,
    pub uri: String,
}

/// A layer in the layer listing.
#[derive(Debug)]
pub struct LayerItem {
    pub id: String,
    pub description: String,
    pub endpoints: Vec<LayerItemEndpoint>,
}

/// The layer listing.
#[derive(Debug)]
pub struct ListLayerItems {
    pub items: Vec<LayerItem>,
}

/// Why the layer listing cannot be built (a server fault either way).
#[derive(Clone, Copy, Debug, PartialEq, Eq, Structural)]
pub enum LayerListError {
    /// The service's base URL is not an absolute URI.
    BaseNotAbsolute,
    /// An endpoint path is not a relative reference.
    Unresolvable,
}

/// The endpoints of a layer as kinds and paths relative to the service:
/// its 3D Tiles, then Terrarium elevation when it has elevation rasters,
/// simple WMTS imagery when it has imagery rasters, and OGC API Features
/// when its content is GeoJSON.
pub open spec fn endpoint_paths(layer: LayerDefinition) -> Seq<(Seq<char>, Seq<char>)> {
    let id = layer.id@;
    let tiles = seq![("3d_tiles"@, id)];
    let elevation = if layer.elevation_raster_content is Some {
        seq![("elevation_mapzen_terrarium_rgb_png"@, "terrarium/"@ + id)]
    } else {
        Seq::empty()
    };
    let imagery = if layer.imagery_raster_content is Some {
        seq![("imagery_wmts_simple_jpg"@, "wmts/"@ + id)]
    } else {
        Seq::empty()
    };
    let features = if layer.source_s2_content_extension@ == "geojson"@ {
        seq![("ogc_api_features"@, "features/collections/"@ + id + "/items"@)]
    } else {
        Seq::empty()
    };
    tiles + elevation + imagery + features
}

/// Each endpoint path resolved against `base`; none when one does not
/// resolve.
pub open spec fn resolve_endpoints(base: Seq<char>, paths: Seq<(Seq<char>, Seq<char>)>) -> Option<
    Seq<(Seq<char>, Seq<char>)>,
>
    decreases paths.len(),
{
    if paths.len() == 0 {
        Some(Seq::empty())
    } else {
        match (
            resolve_endpoints(base, paths.drop_last()),
            uri_relative_resolution(base, paths.last().1),
        ) {
            (Some(done), Some(u)) => Some(done.push((paths.last().0, u))),
            _ => None,
        }
    }
}

/// A layer's listing entry: its id, its description (empty when it has
/// none) and its resolved endpoints.
pub open spec fn spec_layer_item(base: Seq<char>, layer: LayerDefinition) -> Option<
    (Seq<char>, Seq<char>, Seq<(Seq<char>, Seq<char>)>),
> {
    match resolve_endpoints(base, endpoint_paths(layer)) {
        None => None,
        Some(eps) => Some(
            (
                layer.id@,
                match layer.description {
                    Some(d) => d@,
                    None => Seq::empty(),
                },
                eps,
            ),
        ),
    }
}

/// The view of a listing entry.
pub open spec fn item_view(item: LayerItem) -> (Seq<char>, Seq<char>, Seq<(Seq<char>, Seq<char>)>) {
    (
        item.id@,
        item.description@,
        item.endpoints@.map_values(|e: LayerItemEndpoint| (e.kind@, e.uri@)),
    )
}

/// Without the `inline_owt_referenced_models` transform a payload is
/// read as asked for: its source is the path resolved against the
/// package's root tileset, unchanged, and nothing is inlined; the request
/// succeeds exactly when the root and the resolved URI are absolute.
pub proof fn lemma_payload_without_inlining(layer: LayerDefinition, token: Seq<char>, rest: Seq<char>)
    requires
        forall|i: int|
            0 <= i < layer.content_transforms@.len() ==> (#[trigger] layer.content_transforms@[i])@
                != "inline_owt_referenced_models"@,
    ensures
        ({
            let root = layer.spec_content_root_tileset_uri(token);
            &&& layer.spec_payload_source(token, rest) matches Ok((uri, inline)) ==> !inline && Some(
                uri,
            ) == uri_resolution(root, rest)
            &&& layer.spec_payload_source(token, rest) is Ok <==> (is_absolute_uri(root) && (
            uri_resolution(root, rest) matches Some(u) && is_absolute_uri(u)))
        }),
{
}

/// With the `inline_owt_referenced_models` transform, a `.glb` payload is
/// built by inlining the models its GeoJSON references: its source is the
/// resolved URI with `.glb` made `.geojson`; any other payload is read as
/// asked for.
pub proof fn lemma_payload_with_inlining(layer: LayerDefinition, token: Seq<char>, rest: Seq<char>, t: int)
    requires
        0 <= t < layer.content_transforms@.len(),
        layer.content_transforms@[t]@ == "inline_owt_referenced_models"@,
    ensures
        ({
            let root = layer.spec_content_root_tileset_uri(token);
            &&& has_suffix(rest, ".glb"@) ==> (layer.spec_payload_source(token, rest) matches Ok(
                (uri, inline),
            ) ==> inline && uri == spec_replace(uri_resolution(root, rest).unwrap(), ".glb"@, ".geojson"@))
            &&& !has_suffix(rest, ".glb"@) ==> (layer.spec_payload_source(token, rest) matches Ok(
                (uri, inline),
            ) ==> !inline && Some(uri) == uri_resolution(root, rest))
        }),
{
}

/// Resolves endpoint paths one after the other into `out`.
fn push_endpoint(
    out: &mut Vec<LayerItemEndpoint>,
    base: &str,
    kind: &str,
    path: &str,
    Ghost(done): Ghost<Seq<(Seq<char>, Seq<char>)>>,
    Ghost(paths): Ghost<Seq<(Seq<char>, Seq<char>)>>,
) -> (ok: bool)
    requires
        paths.len() > 0,
        paths.last() == (kind@, path@),
        resolve_endpoints(base@, paths.drop_last()) == Some(done),
        old(out)@.map_values(|e: LayerItemEndpoint| (e.kind@, e.uri@)) == done,
    ensures
        ok <==> resolve_endpoints(base@, paths) is Some,
        ok ==> Some(final(out)@.map_values(|e: LayerItemEndpoint| (e.kind@, e.uri@)))
            == resolve_endpoints(base@, paths),
{
    match resolve_relative(base, path) {
        None => false,
        Some(u) => {
            let ghost before = out@;
            out.push(LayerItemEndpoint { kind: kind.to_owned(), uri: u });
            assert(out@.map_values(|e: LayerItemEndpoint| (e.kind@, e.uri@)) =~= before.map_values(
                |e: LayerItemEndpoint| (e.kind@, e.uri@),
            ).push((kind@, uri_relative_resolution(base@, path@).unwrap())));
            true
        },
    }
}

/// The listing entry of one layer, its endpoints resolved against the
/// service's base URL.
pub fn layer_item(layer: &LayerDefinition, base: &str) -> (r: Result<LayerItem, LayerListError>)
    ensures
        match spec_layer_item(base@, *layer) {
            None => r == Err::<LayerItem, LayerListError>(LayerListError::Unresolvable),
            Some(v) => r matches Ok(item) && item_view(item) == v,
        },
{
    proof {
        reveal_strlit("terrarium/");
        reveal_strlit("wmts/");
        reveal_strlit("features/collections/");
        reveal_strlit("/items");
    }
    let ghost all = endpoint_paths(*layer);
    let ghost id = layer.id@;
    let mut eps: Vec<LayerItemEndpoint> = Vec::new();
    let ghost p1 = seq![("3d_tiles"@, id)];
    assert(p1.drop_last() =~= Seq::<(Seq<char>, Seq<char>)>::empty());
    assert(eps@.map_values(|e: LayerItemEndpoint| (e.kind@, e.uri@)) =~= Seq::<
        (Seq<char>, Seq<char>),
    >::empty());
    if !push_endpoint(&mut eps, base, "3d_tiles", layer.id.as_str(), Ghost(Seq::empty()), Ghost(p1)) {
        assert(resolve_endpoints(base@, all) is None) by {
            lemma_resolve_prefix(base@, p1, all.skip(1));
            assert(p1 + all.skip(1) =~= all);
        }
        return Err(LayerListError::Unresolvable);
    }
    let ghost mut done_paths = p1;
    if layer.elevation_raster_content.is_some() {
        let mut path = String::new();
        push_str(&mut path, "terrarium/");
        push_str(&mut path, layer.id.as_str());
        let ghost next = done_paths.push(("elevation_mapzen_terrarium_rgb_png"@, path@));
        assert(next.drop_last() =~= done_paths);
        if !push_endpoint(
            &mut eps,
            base,
            "elevation_mapzen_terrarium_rgb_png",
            path.as_str(),
            Ghost(resolve_endpoints(base@, done_paths).unwrap()),
            Ghost(next),
        ) {
            assert(resolve_endpoints(base@, all) is None) by {
                lemma_resolve_prefix(base@, next, all.skip(next.len() as int));
                assert(next + all.skip(next.len() as int) =~= all);
            }
            return Err(LayerListError::Unresolvable);
        }
        proof {
            done_paths = next;
        }
    }
    if layer.imagery_raster_content.is_some() {
        let mut path = String::new();
        push_str(&mut path, "wmts/");
        push_str(&mut path, layer.id.as_str());
        let ghost next = done_paths.push(("imagery_wmts_simple_jpg"@, path@));
        assert(next.drop_last() =~= done_paths);
        if !push_endpoint(
            &mut eps,
            base,
            "imagery_wmts_simple_jpg",
            path.as_str(),
            Ghost(resolve_endpoints(base@, done_paths).unwrap()),
            Ghost(next),
        ) {
            assert(resolve_endpoints(base@, all) is None) by {
                lemma_resolve_prefix(base@, next, all.skip(next.len() as int));
                assert(next + all.skip(next.len() as int) =~= all);
            }
            return Err(LayerListError::Unresolvable);
        }
        proof {
            done_paths = next;
        }
    }
    if str_equal(layer.source_s2_content_extension.as_str(), "geojson") {
        let mut path = String::new();
        push_str(&mut path, "features/collections/");
        push_str(&mut path, layer.id.as_str());
        push_str(&mut path, "/items");
        let ghost next = done_paths.push(("ogc_api_features"@, path@));
        assert(next.drop_last() =~= done_paths);
        if !push_endpoint(
            &mut eps,
            base,
            "ogc_api_features",
            path.as_str(),
            Ghost(resolve_endpoints(base@, done_paths).unwrap()),
            Ghost(next),
        ) {
            assert(resolve_endpoints(base@, all) is None) by {
                lemma_resolve_prefix(base@, next, all.skip(next.len() as int));
                assert(next + all.skip(next.len() as int) =~= all);
            }
            return Err(LayerListError::Unresolvable);
        }
        proof {
            done_paths = next;
        }
    }
    assert(done_paths =~= all);
    let description = match &layer.description {
        Some(d) => d.clone(),
        None => String::new(),
    };
    Ok(LayerItem { id: layer.id.clone(), description, endpoints: eps })
}

/// A path list whose prefix does not resolve does not resolve.
proof fn lemma_resolve_prefix(
    base: Seq<char>,
    prefix: Seq<(Seq<char>, Seq<char>)>,
    rest: Seq<(Seq<char>, Seq<char>)>,
)
    requires
        resolve_endpoints(base, prefix) is None,
    ensures
        resolve_endpoints(base, prefix + rest) is None,
    decreases rest.len(),
{
    if rest.len() == 0 {
        assert(prefix + rest =~= prefix);
    } else {
        lemma_resolve_prefix(base, prefix, rest.drop_last());
        assert((prefix + rest).drop_last() =~= prefix + rest.drop_last());
    }
}

/// Resolving endpoint paths keeps each endpoint's kind, in order, and
/// gives each the resolution of its path.
proof fn lemma_resolve_keeps_kinds(base: Seq<char>, paths: Seq<(Seq<char>, Seq<char>)>)
    ensures
        resolve_endpoints(base, paths) matches Some(eps) ==> {
            &&& eps.len() == paths.len()
            &&& forall|k: int|
                0 <= k < paths.len() ==> (#[trigger] eps[k]).0 == paths[k].0 && Some(eps[k].1)
                    == uri_relative_resolution(base, paths[k].1)
        },
    decreases paths.len(),
{
    if paths.len() > 0 {
        lemma_resolve_keeps_kinds(base, paths.drop_last());
    }
}

/// Whether a listing entry's endpoints hold one of `kind`.
pub open spec fn has_endpoint(eps: Seq<(Seq<char>, Seq<char>)>, kind: Seq<char>) -> bool {
    exists|k: int| 0 <= k < eps.len() && (#[trigger] eps[k]).0 == kind
}

/// A layer's listing entry names the layer, lists its 3D Tiles first, and
/// lists Terrarium elevation exactly when the layer has elevation rasters,
/// simple WMTS imagery exactly when it has imagery rasters, and OGC API
/// Features exactly when its content is GeoJSON, each endpoint the
/// service URL of the layer's path for that kind.
pub proof fn lemma_layer_item_endpoints(base: Seq<char>, layer: LayerDefinition)
    requires
        spec_layer_item(base, layer) is Some,
    ensures
        ({
            let (id, _, eps) = spec_layer_item(base, layer).unwrap();
            &&& id == layer.id@
            &&& eps.len() >= 1
            &&& eps[0].0 == "3d_tiles"@
            &&& Some(eps[0].1) == uri_relative_resolution(base, layer.id@)
            &&& has_endpoint(eps, "elevation_mapzen_terrarium_rgb_png"@)
                <==> layer.elevation_raster_content is Some
            &&& has_endpoint(eps, "imagery_wmts_simple_jpg"@) <==> layer.imagery_raster_content is Some
            &&& has_endpoint(eps, "ogc_api_features"@) <==> layer.source_s2_content_extension@
                == "geojson"@
            &&& forall|k: int|
                0 <= k < eps.len() && (#[trigger] eps[k]).0 == "elevation_mapzen_terrarium_rgb_png"@
                    ==> Some(eps[k].1) == uri_relative_resolution(base, "terrarium/"@ + layer.id@)
            &&& forall|k: int|
                0 <= k < eps.len() && (#[trigger] eps[k]).0 == "imagery_wmts_simple_jpg"@ ==> Some(
                    eps[k].1,
                ) == uri_relative_resolution(base, "wmts/"@ + layer.id@)
            &&& forall|k: int|
                0 <= k < eps.len() && (#[trigger] eps[k]).0 == "ogc_api_features"@ ==> Some(eps[k].1)
                    == uri_relative_resolution(base, "features/collections/"@ + layer.id@ + "/items"@)
        }),
{
    reveal_strlit("3d_tiles");
    reveal_strlit("elevation_mapzen_terrarium_rgb_png");
    reveal_strlit("imagery_wmts_simple_jpg");
    reveal_strlit("ogc_api_features");
    let paths = endpoint_paths(layer);
    let eps = spec_layer_item(base, layer).unwrap().2;
    lemma_resolve_keeps_kinds(base, paths);
    let id = layer.id@;
    let tiles_part = seq![("3d_tiles"@, id)];
    let elevation_part = if layer.elevation_raster_content is Some {
        seq![("elevation_mapzen_terrarium_rgb_png"@, "terrarium/"@ + id)]
    } else {
        Seq::empty()
    };
    let imagery_part = if layer.imagery_raster_content is Some {
        seq![("imagery_wmts_simple_jpg"@, "wmts/"@ + id)]
    } else {
        Seq::empty()
    };
    let features_part = if layer.source_s2_content_extension@ == "geojson"@ {
        seq![("ogc_api_features"@, "features/collections/"@ + id + "/items"@)]
    } else {
        Seq::empty()
    };
    assert(paths == tiles_part + elevation_part + imagery_part + features_part);
    let e = elevation_part.len() as int;
    let i = imagery_part.len() as int;
    let f = features_part.len() as int;
    assert(paths.len() == 1 + e + i + f);
    assert(paths[0] == tiles_part[0]);
    assert forall|k: int| 1 <= k < 1 + e implies #[trigger] paths[k] == elevation_part[k - 1] by {}
    assert forall|k: int| 1 + e <= k < 1 + e + i implies #[trigger] paths[k] == imagery_part[k - 1 - e] by {}
    assert forall|k: int| 1 + e + i <= k < paths.len() implies #[trigger] paths[k] == features_part[k - 1 - e
        - i] by {}
    assert("3d_tiles"@.len() != "elevation_mapzen_terrarium_rgb_png"@.len());
    assert("3d_tiles"@.len() != "imagery_wmts_simple_jpg"@.len());
    assert("3d_tiles"@.len() != "ogc_api_features"@.len());
    assert("elevation_mapzen_terrarium_rgb_png"@.len() != "imagery_wmts_simple_jpg"@.len());
    assert("elevation_mapzen_terrarium_rgb_png"@.len() != "ogc_api_features"@.len());
    assert("imagery_wmts_simple_jpg"@.len() != "ogc_api_features"@.len());
    if layer.elevation_raster_content is Some {
        assert(eps[1].0 == paths[1].0);
    }
    if layer.imagery_raster_content is Some {
        assert(eps[1 + e].0 == paths[1 + e].0);
    }
    if layer.source_s2_content_extension@ == "geojson"@ {
        assert(eps[1 + e + i].0 == paths[1 + e + i].0);
    }
}

/// Whether `order` lists every index of `keys` once, in `text_le` order of
/// their keys, equal keys in their original order: the order a stable sort
/// by key produces.
pub open spec fn is_stable_sort_order(order: Seq<usize>, keys: Seq<Seq<char>>) -> bool {
    &&& order.len() == keys.len()
    &&& forall|k: int| 0 <= k < order.len() ==> #[trigger] order[k] < keys.len()
    &&& forall|k: int, l: int| 0 <= k < l < order.len() ==> #[trigger] order[k] != #[trigger] order[l]
    &&& forall|k: int, l: int|
        0 <= k < l < order.len() ==> text_le(
            #[trigger] keys[order[k] as int],
            #[trigger] keys[order[l] as int],
        )
    &&& forall|k: int, l: int|
        0 <= k < l < order.len() && #[trigger] keys[order[k] as int] == #[trigger] keys[order[l]
            as int] ==> order[k] < order[l]
}

/// The indices of `keys` in stable `text_le` order (insertion sort).
pub fn stable_text_order(keys: &[String]) -> (r: Vec<usize>)
    ensures
        is_stable_sort_order(r@, keys@.map_values(|s: String| s@)),
{
    let ghost ks = keys@.map_values(|s: String| s@);
    let n = keys.len();
    let mut order: Vec<usize> = Vec::new();
    let mut i: usize = 0;
    while i < n
        invariant
            n == keys@.len(),
            ks == keys@.map_values(|s: String| s@),
            i <= n,
            order@.len() == i,
            forall|k: int| 0 <= k < i ==> #[trigger] order@[k] < i,
            forall|k: int, l: int| 0 <= k < l < i ==> #[trigger] order@[k] != #[trigger] order@[l],
            forall|k: int, l: int|
                0 <= k < l < i ==> text_le(
                    #[trigger] ks[order@[k] as int],
                    #[trigger] ks[order@[l] as int],
                ),
            forall|k: int, l: int|
                0 <= k < l < i && #[trigger] ks[order@[k] as int] == #[trigger] ks[order@[l]
                    as int] ==> order@[k] < order@[l],
        decreases n - i,
    {
        let mut p: usize = i;
        while p > 0 && !text_less_equal(keys[order[p - 1]].as_str(), keys[i].as_str())
            invariant
                n == keys@.len(),
                ks == keys@.map_values(|s: String| s@),
                i < n,
                p <= i,
                order@.len() == i,
                forall|k: int| 0 <= k < i ==> #[trigger] order@[k] < i,
                forall|m: int| p <= m < i ==> !text_le(#[trigger] ks[order@[m] as int], ks[i as int]),
            decreases p,
        {
            p = p - 1;
        }
        let ghost old_order = order@;
        proof {
            assert forall|k: int| 0 <= k < p implies text_le(
                #[trigger] ks[old_order[k] as int],
                ks[i as int],
            ) by {
                if k < p - 1 {
                    lemma_text_le_transitive(
                        ks[old_order[k] as int],
                        ks[old_order[p - 1] as int],
                        ks[i as int],
                    );
                }
            }
            assert forall|m: int| p <= m < i implies text_le(
                ks[i as int],
                #[trigger] ks[old_order[m] as int],
            ) && ks[old_order[m] as int] != ks[i as int] by {
                lemma_text_le_total(ks[i as int], ks[old_order[m] as int]);
                lemma_text_le_total(ks[old_order[m] as int], ks[old_order[m] as int]);
            }
        }
        order.insert(p, i);
        proof {
            old_order.insert_ensures(p as int, i);
            let o = order@;
            assert forall|k: int| 0 <= k < i + 1 implies #[trigger] o[k] < i + 1 by {
                if k > p {
                    assert(o[k] == old_order[k - 1]);
                }
            }
            assert forall|k: int, l: int| 0 <= k < l < i + 1 implies #[trigger] o[k] != #[trigger] o[l]
                && text_le(ks[o[k] as int], ks[o[l] as int]) && (ks[o[k] as int] == ks[o[l] as int]
                ==> o[k] < o[l]) by {
                if l < p {
                    assert(o[k] == old_order[k] && o[l] == old_order[l]);
                } else if l == p {
                    assert(o[k] == old_order[k]);
                } else if k < p {
                    assert(o[k] == old_order[k] && o[l] == old_order[l - 1]);
                    lemma_text_le_transitive(
                        ks[old_order[k] as int],
                        ks[i as int],
                        ks[old_order[l - 1] as int],
                    );
                } else if k == p {
                    assert(o[l] == old_order[l - 1]);
                } else {
                    assert(o[k] == old_order[k - 1] && o[l] == old_order[l - 1]);
                }
            }
        }
        i = i + 1;
    }
    order
}

/// The ids of layers.
pub open spec fn layer_ids(layers: Seq<LayerDefinition>) -> Seq<Seq<char>> {
    layers.map_values(|l: LayerDefinition| l.id@)
}

/// The layer listing: each layer's entry, in stable order of layer id.
pub fn list_layer_items(layers: &[LayerDefinition], base: &str) -> (r: Result<
    ListLayerItems,
    LayerListError,
>)
    ensures
        !is_absolute_uri(base@) ==> r == Err::<ListLayerItems, LayerListError>(
            LayerListError::BaseNotAbsolute,
        ),
        is_absolute_uri(base@) && (exists|i: int|
            0 <= i < layers@.len() && spec_layer_item(base@, #[trigger] layers@[i]) is None) ==> r
            == Err::<ListLayerItems, LayerListError>(LayerListError::Unresolvable),
        is_absolute_uri(base@) && (forall|i: int|
            0 <= i < layers@.len() ==> spec_layer_item(base@, #[trigger] layers@[i]) is Some) ==> (
        r matches Ok(list) && list.items@.len() == layers@.len() && exists|order: Seq<usize>|
            #[trigger] is_stable_sort_order(order, layer_ids(layers@))
                && forall|
                k: int,
            |
                0 <= k < list.items@.len() ==> Some(item_view(#[trigger] list.items@[k]))
                    == spec_layer_item(base@, layers@[order[k] as int])),
{
    if !check_absolute_uri(base) {
        return Err(LayerListError::BaseNotAbsolute);
    }
    let mut i: usize = 0;
    while i < layers.len()
        invariant
            is_absolute_uri(base@),
            i <= layers@.len(),
            forall|k: int| 0 <= k < i ==> spec_layer_item(base@, #[trigger] layers@[k]) is Some,
        decreases layers@.len() - i,
    {
        match layer_item(&layers[i], base) {
            Err(e) => {
                return Err(e);
            },
            Ok(_) => {},
        }
        i = i + 1;
    }
    let mut ids: Vec<String> = Vec::new();
    let mut j: usize = 0;
    while j < layers.len()
        invariant
            j <= layers@.len(),
            ids@.len() == j,
            forall|k: int| 0 <= k < j ==> #[trigger] ids@[k]@ == layers@[k].id@,
        decreases layers@.len() - j,
    {
        ids.push(layers[j].id.clone());
        j = j + 1;
    }
    let order = stable_text_order(ids.as_slice());
    assert(ids@.map_values(|s: String| s@) =~= layer_ids(layers@));
    let mut items: Vec<LayerItem> = Vec::new();
    let mut k: usize = 0;
    while k < order.len()
        invariant
            order@.len() == layers@.len(),
            forall|m: int| 0 <= m < order@.len() ==> #[trigger] order@[m] < layers@.len(),
            forall|m: int| 0 <= m < layers@.len() ==> spec_layer_item(base@, #[trigger] layers@[m]) is Some,
            k <= order@.len(),
            items@.len() == k,
            forall|m: int|
                0 <= m < k ==> Some(item_view(#[trigger] items@[m])) == spec_layer_item(
                    base@,
                    layers@[order@[m] as int],
                ),
        decreases order@.len() - k,
    {
        let idx = order[k];
        assert(spec_layer_item(base@, layers@[idx as int]) is Some);
        match layer_item(&layers[idx], base) {
            Ok(item) => {
                items.push(item);
            },
            Err(e) => {
                return Err(e);
            },
        }
        k = k + 1;
    }
    Ok(ListLayerItems { items })
}

} // verus!
