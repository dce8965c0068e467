//! A streamed layer's definition and the paths of its synthesized 3D Tiles
//! tilesets: which content a tile points at, which children it lists, and
//! where each served resource is read from.
use vstd::prelude::*;
use vstd::std_specs::bits::u64_trailing_zeros;
use crate::cell::{
    cell_children, cell_face, cell_from_token, hex_char, spec_cell_face, cell_id_of_token, cell_parent, cell_token,
    cell_range_ok, cell_union_intersects, face_level_col_row_from_cell_id, lemma_range_ok_of_level,
    spec_cell_children, spec_cell_parent, spec_cell_token, spec_face_level_col_row, spec_cell_at, cell_id_from_face_level_col_row,
    union_intersects,
};
use crate::text::{
    decimal_digits, ends_with, has_suffix, int_decimal, push_decimal_i64, push_decimal_u64,
    push_str, replace_all, spec_replace, str_equal, string_push,
};

verus! {

/// How a layer's source content is laid out and what it offers.
#[derive(Debug)]
pub struct LayerDefinition {
    pub id: String,
    /// URI of a content package, with `{CONTENT_ROOT_TOKEN}` where the
    /// package's S2 token goes.
    pub source_uri_content_template: String,
    /// S2 level of the cells that content packages cover.
    pub source_s2_content_package_level: i32,
    pub source_s2_content_min_level: i32,
    pub source_s2_content_max_level: i32,
    /// File extension of the content tiles, such as `glb` or `geojson`.
    pub source_s2_content_extension: String,
    /// S2 tokens of the cells the content covers.
    pub source_s2_content_coverage_tokens: Vec<String>,
    /// Arbitrary value that changes when the underlying content does.
    pub version: i32,
    pub base_globe_terrain_uri: Option<String>,
    pub asset_id: i64,
    pub description: Option<String>,
    pub content_transforms: Vec<String>,
    /// Path of elevation rasters inside a package, like
    /// `dtm/{FACE}/{LEVEL}/{COL}/{ROW}.tif`.
    pub elevation_raster_content: Option<String>,
    /// Path of imagery rasters inside a package.
    pub imagery_raster_content: Option<String>,
}

/// A child of a synthesized tile: its cell, level, tileset path and the
/// cell's token (which its bounding volume is made from).
#[derive(Debug)]
pub struct ChildTilePlan {
    pub cell: u64,
    pub level: i32,
    pub uri: String,
    pub token: String,
}

/// What a synthesized tileset for one cell holds, apart from its bounding
/// volumes and geometric errors.
#[derive(Debug)]
pub struct TilesetPlan {
    pub cell: u64,
    /// The cell's token, which the tile's bounding volume is made from.
    pub token: String,
    pub level: i32,
    /// The tile's own content, when it has one.
    pub content_uri: Option<String>,
    pub children: Vec<ChildTilePlan>,
}

/// The placeholder for a package token in a content URI template.
pub open spec fn root_token_placeholder() -> Seq<char> {
    "{CONTENT_ROOT_TOKEN}"@
}

/// `face/level/col/row`.
pub open spec fn tile_path(face: u8, level: i32, col: i32, row: i32) -> Seq<char> {
    decimal_digits(face as nat) + "/"@ + int_decimal(level as int) + "/"@ + int_decimal(col as int)
        + "/"@ + int_decimal(row as int)
}

/// Appends `face/level/col/row`.
fn push_tile_path(out: &mut String, face: u8, level: i32, col: i32, row: i32)
    ensures
        final(out)@ == old(out)@ + tile_path(face, level, col, row),
{
    push_decimal_u64(out, face as u64);
    push_str(out, "/");
    push_decimal_i64(out, level as i64);
    push_str(out, "/");
    push_decimal_i64(out, col as i64);
    push_str(out, "/");
    push_decimal_i64(out, row as i64);
    assert(final(out)@ =~= old(out)@ + tile_path(face, level, col, row));
}

/// The tileset path of a child tile, relative to its parent's tileset.
pub open spec fn child_tile_uri(level: i32, col: i32, row: i32) -> Seq<char> {
    "../../"@ + int_decimal(level as int) + "/"@ + int_decimal(col as int) + "/"@ + int_decimal(
        row as int,
    ) + ".json"@
}

/// The cell ids of coverage tokens.
pub open spec fn coverage_ids(tokens: Seq<String>) -> Seq<u64> {
    tokens.map_values(|t: String| cell_id_of_token(t@))
}

/// The children of a synthesized tile, in order: each of the cell's four
/// children that the coverage reaches, with its level, tileset path and
/// token.
pub open spec fn child_plans(children: Seq<u64>, coverage: Seq<u64>) -> Seq<
    (u64, int, Seq<char>, Seq<char>),
>
    decreases children.len(),
{
    if children.len() == 0 {
        Seq::empty()
    } else {
        let rest = child_plans(children.drop_last(), coverage);
        let c = children.last();
        let flcr = spec_face_level_col_row(c);
        if cell_union_intersects(coverage, c) {
            rest.push((c, flcr.1 as int, child_tile_uri(flcr.1, flcr.2, flcr.3), spec_cell_token(c)))
        } else {
            rest
        }
    }
}

/// The views of child plans.
pub open spec fn plans_view(plans: Seq<ChildTilePlan>) -> Seq<(u64, int, Seq<char>, Seq<char>)> {
    plans.map_values(|p: ChildTilePlan| (p.cell, p.level as int, p.uri@, p.token@))
}

impl LayerDefinition {
    /// The URI of the package whose root cell has token `token`.
    pub open spec fn spec_resolve_content_uri_template(&self, token: Seq<char>) -> Seq<char> {
        spec_replace(self.source_uri_content_template@, root_token_placeholder(), token)
    }

    /// The URI of the package whose root cell has token
    /// `content_root_token`: the template with the token in place of
    /// `{CONTENT_ROOT_TOKEN}`.
    pub fn resolve_content_uri_template(&self, content_root_token: &str) -> (r: String)
        ensures
            r@ == self.spec_resolve_content_uri_template(content_root_token@),
    {
        proof {
            reveal_strlit("{CONTENT_ROOT_TOKEN}");
        }
        replace_all(
            self.source_uri_content_template.as_str(),
            "{CONTENT_ROOT_TOKEN}",
            content_root_token,
        )
    }

    /// The URI of a package's root tileset: inside a `.3tz` archive it is
    /// the archive's `tileset.json`.
    pub open spec fn spec_content_root_tileset_uri(&self, token: Seq<char>) -> Seq<char> {
        let root = self.spec_resolve_content_uri_template(token);
        if has_suffix(root, ".3tz"@) {
            root + "/tileset.json"@
        } else {
            root
        }
    }

    /// The URI of the root tileset of the package with token `token`.
    pub fn content_root_tileset_uri(&self, token: &str) -> (r: String)
        ensures
            r@ == self.spec_content_root_tileset_uri(token@),
    {
        let mut root = self.resolve_content_uri_template(token);
        if ends_with(root.as_str(), ".3tz") {
            push_str(&mut root, "/tileset.json");
        }
        root
    }

    /// Whether the layer lists the content transform `name`.
    pub fn has_content_transform(&self, name: &str) -> (r: bool)
        ensures
            r == exists|i: int|
                0 <= i < self.content_transforms@.len() && #[trigger] self.content_transforms@[i]@
                    == name@,
    {
        let mut i: usize = 0;
        while i < self.content_transforms.len()
            invariant
                i <= self.content_transforms@.len(),
                forall|k: int| 0 <= k < i ==> #[trigger] self.content_transforms@[k]@ != name@,
            decreases self.content_transforms@.len() - i,
        {
            if str_equal(self.content_transforms[i].as_str(), name) {
                return true;
            }
            i = i + 1;
        }
        false
    }

    /// Whether a payload request for `rest` is answered by combining the
    /// models that a GeoJSON file references: the layer inlines referenced
    /// models and a `.glb` is asked for.
    pub fn inlines_referenced_models(&self, rest: &str) -> (r: bool)
        ensures
            r == ((exists|i: int|
                0 <= i < self.content_transforms@.len() && #[trigger] self.content_transforms@[i]@
                    == "inline_owt_referenced_models"@) && has_suffix(rest@, ".glb"@)),
    {
        self.has_content_transform("inline_owt_referenced_models") && ends_with(rest, ".glb")
    }

    /// Where a base globe terrain payload is read from: `rest` under the
    /// base globe URI; none when the layer has no base globe.
    pub fn base_globe_payload_uri(&self, rest: &str) -> (r: Option<String>)
        ensures
            match self.base_globe_terrain_uri {
                None => r is None,
                Some(base) => r matches Some(u) && u@ == base@ + "/"@ + rest@,
            },
    {
        match &self.base_globe_terrain_uri {
            None => None,
            Some(base) => {
                let mut out = String::new();
                push_str(&mut out, base.as_str());
                push_str(&mut out, "/");
                push_str(&mut out, rest);
                Some(out)
            },
        }
    }

    /// The raster template under the content template and, when there is a
    /// base globe, under the base globe URI; none without a raster path.
    pub open spec fn spec_raster_uris(&self, raster: Option<String>) -> Option<
        (Seq<char>, Option<Seq<char>>),
    > {
        match raster {
            None => None,
            Some(path) => Some(
                (
                    self.source_uri_content_template@ + "/"@ + path@,
                    match self.base_globe_terrain_uri {
                        None => None,
                        Some(base) => Some(base@ + "/"@ + path@),
                    },
                ),
            ),
        }
    }

    /// The raster templates for one kind of raster.
    fn raster_uris(&self, raster: &Option<String>) -> (r: Option<(String, Option<String>)>)
        ensures
            match (r, self.spec_raster_uris(*raster)) {
                (None, None) => true,
                (Some((a, b)), Some((sa, sb))) => a@ == sa && match (b, sb) {
                    (None, None) => true,
                    (Some(x), Some(y)) => x@ == y,
                    _ => false,
                },
                _ => false,
            },
    {
        match raster {
            None => None,
            Some(path) => {
                let mut primary = String::new();
                push_str(&mut primary, self.source_uri_content_template.as_str());
                push_str(&mut primary, "/");
                push_str(&mut primary, path.as_str());
                let fallback = match &self.base_globe_terrain_uri {
                    None => None,
                    Some(base) => {
                        let mut f = String::new();
                        push_str(&mut f, base.as_str());
                        push_str(&mut f, "/");
                        push_str(&mut f, path.as_str());
                        Some(f)
                    },
                };
                Some((primary, fallback))
            },
        }
    }

    /// Templates of the elevation rasters and of their base globe fallback;
    /// none when the layer has no elevation rasters.
    pub fn elevation_raster_uris(&self) -> (r: Option<(String, Option<String>)>)
        ensures
            match (r, self.spec_raster_uris(self.elevation_raster_content)) {
                (None, None) => true,
                (Some((a, b)), Some((sa, sb))) => a@ == sa && match (b, sb) {
                    (None, None) => true,
                    (Some(x), Some(y)) => x@ == y,
                    _ => false,
                },
                _ => false,
            },
    {
        self.raster_uris(&self.elevation_raster_content)
    }

    /// Templates of the imagery rasters and of their base globe fallback;
    /// none when the layer has no imagery rasters.
    pub fn imagery_raster_uris(&self) -> (r: Option<(String, Option<String>)>)
        ensures
            match (r, self.spec_raster_uris(self.imagery_raster_content)) {
                (None, None) => true,
                (Some((a, b)), Some((sa, sb))) => a@ == sa && match (b, sb) {
                    (None, None) => true,
                    (Some(x), Some(y)) => x@ == y,
                    _ => false,
                },
                _ => false,
            },
    {
        self.raster_uris(&self.imagery_raster_content)
    }

    /// The content of a synthesized tile: below the content levels, the
    /// base globe's `.glb` tile when the layer has a base globe and `glb`
    /// content; within them, the tile in its content package; none deeper.
    pub open spec fn spec_tile_content_uri(
        &self,
        package_token: Seq<char>,
        face: u8,
        level: i32,
        col: i32,
        row: i32,
    ) -> Option<Seq<char>> {
        if level < self.source_s2_content_min_level {
            if self.base_globe_terrain_uri is Some && self.source_s2_content_extension@ == "glb"@ {
                Some("../../../../bgc/"@ + tile_path(face, level, col, row) + ".glb"@)
            } else {
                None
            }
        } else if level <= self.source_s2_content_max_level {
            Some(
                "../../../../c/"@ + package_token + "/"@ + tile_path(face, level, col, row) + "."@
                    + self.source_s2_content_extension@,
            )
        } else {
            None
        }
    }

    /// Whether the `s2` crate can plan the tileset of `cell` at `level`: the
    /// package level is an S2 level and, below the deepest content level,
    /// the cell's children have levels and the cell, its children and the
    /// coverage cells have ranges the crate can compute.
    pub open spec fn can_synthesize(&self, cell: u64, level: i32) -> bool {
        &&& 0 <= self.source_s2_content_package_level <= 30
        &&& level < self.source_s2_content_max_level ==> {
            &&& cell != 0x8000_0000_0000_0000u64
            &&& forall|k: int| 0 <= k < 4 ==> u64_trailing_zeros(#[trigger] spec_cell_children(cell)[k]) <= 61
            &&& forall|k: int|
                0 <= k < self.source_s2_content_coverage_tokens@.len() ==> cell_range_ok(
                    #[trigger] coverage_ids(self.source_s2_content_coverage_tokens@)[k],
                )
        }
    }

    /// The tileset plan of cell `cell` at `face/level/col/row`: its content,
    /// and below the deepest content level the children that the coverage
    /// reaches.
    pub open spec fn is_tileset_plan(
        &self,
        r: TilesetPlan,
        cell: u64,
        face: u8,
        level: i32,
        col: i32,
        row: i32,
    ) -> bool {
        &&& r.cell == cell
        &&& r.token@ == spec_cell_token(cell)
        &&& r.level == level
        &&& match (
            r.content_uri,
            self.spec_tile_content_uri(
                spec_cell_token(spec_cell_parent(cell, self.source_s2_content_package_level as u64)),
                face,
                level,
                col,
                row,
            ),
        ) {
            (None, None) => true,
            (Some(u), Some(s)) => u@ == s,
            _ => false,
        }
        &&& plans_view(r.children@) == if level < self.source_s2_content_max_level {
            child_plans(spec_cell_children(cell), coverage_ids(self.source_s2_content_coverage_tokens@))
        } else {
            Seq::empty()
        }
    }

    /// The tileset of the cell at `face/level/col/row` where the `s2` crate
    /// can plan it; `None` where it cannot (see `can_synthesize`).
    pub fn try_synthesize_tileset(&self, face: u8, level: i32, col: i32, row: i32) -> (r: Option<
        TilesetPlan,
    >)
        requires
            face < 8,
            0 <= level <= 30,
        ensures
            r is Some <==> self.can_synthesize(spec_cell_at(face, level, col, row), level),
            r matches Some(p) ==> self.is_tileset_plan(
                p,
                spec_cell_at(face, level, col, row),
                face,
                level,
                col,
                row,
            ),
    {
        let cell = cell_id_from_face_level_col_row(face, level, col, row);
        if self.source_s2_content_package_level < 0 || self.source_s2_content_package_level > 30 {
            return None;
        }
        if level < self.source_s2_content_max_level {
            if cell == 0x8000_0000_0000_0000u64 {
                return None;
            }
            let kids = cell_children(cell);
            let mut k: usize = 0;
            while k < 4
                invariant
                    0 <= self.source_s2_content_package_level <= 30,
                    level < self.source_s2_content_max_level,
                    cell != 0x8000_0000_0000_0000u64,
                    cell == spec_cell_at(face, level, col, row),
                    kids@ == spec_cell_children(cell),
                    k <= 4,
                    forall|m: int| 0 <= m < k ==> u64_trailing_zeros(#[trigger] kids@[m]) <= 61,
                decreases 4 - k,
            {
                if kids[k].trailing_zeros() > 61 {
                    assert(spec_cell_children(cell)[k as int] == kids@[k as int]);
                    return None;
                }
                k = k + 1;
            }
            let coverage = self.coverage_cell_ids();
            let mut i: usize = 0;
            while i < coverage.len()
                invariant
                    0 <= self.source_s2_content_package_level <= 30,
                    level < self.source_s2_content_max_level,
                    coverage@ == coverage_ids(self.source_s2_content_coverage_tokens@),
                    i <= coverage@.len(),
                    forall|m: int| 0 <= m < i ==> cell_range_ok(#[trigger] coverage@[m]),
                decreases coverage@.len() - i,
            {
                if coverage[i] == 0 || coverage[i] == 0x8000_0000_0000_0000u64 {
                    assert(coverage_ids(self.source_s2_content_coverage_tokens@)[i as int]
                        == coverage@[i as int]);
                    return None;
                }
                i = i + 1;
            }
        }
        Some(self.synthesize_tileset(face, level, col, row))
    }

    /// The tileset of the cell at `face/level/col/row` without its bounding
    /// volumes and geometric errors: its content, and below the deepest
    /// content level the children that the coverage reaches.
    pub fn synthesize_tileset(&self, face: u8, level: i32, col: i32, row: i32) -> (r: TilesetPlan)
        requires
            face < 8,
            0 <= level <= 30,
            self.can_synthesize(spec_cell_at(face, level, col, row), level),
        ensures
            self.is_tileset_plan(r, spec_cell_at(face, level, col, row), face, level, col, row),
    {
        let cell = cell_id_from_face_level_col_row(face, level, col, row);
        let package = cell_parent(cell, self.source_s2_content_package_level as u64);
        let package_token = cell_token(package);
        let content_uri = if level < self.source_s2_content_min_level {
            if self.base_globe_terrain_uri.is_some() && str_equal(
                self.source_s2_content_extension.as_str(),
                "glb",
            ) {
                let mut u = String::new();
                push_str(&mut u, "../../../../bgc/");
                push_tile_path(&mut u, face, level, col, row);
                push_str(&mut u, ".glb");
                Some(u)
            } else {
                None
            }
        } else if level <= self.source_s2_content_max_level {
            let mut u = String::new();
            push_str(&mut u, "../../../../c/");
            push_str(&mut u, package_token.as_str());
            push_str(&mut u, "/");
            push_tile_path(&mut u, face, level, col, row);
            push_str(&mut u, ".");
            push_str(&mut u, self.source_s2_content_extension.as_str());
            Some(u)
        } else {
            None
        };
        let mut children: Vec<ChildTilePlan> = Vec::new();
        if level < self.source_s2_content_max_level {
            let coverage = self.coverage_cell_ids();
            let kids = cell_children(cell);
            let ghost cov = coverage_ids(self.source_s2_content_coverage_tokens@);
            let mut k: usize = 0;
            assert(kids@.subrange(0, 0) =~= Seq::<u64>::empty());
            assert forall|m: int| 0 <= m < 4 implies u64_trailing_zeros(#[trigger] kids@[m]) <= 61 by {
                assert(kids@[m] == spec_cell_children(cell)[m]);
            }
            assert forall|m: int| 0 <= m < coverage@.len() implies cell_range_ok(#[trigger] coverage@[m]) by {
                assert(coverage@[m] == coverage_ids(self.source_s2_content_coverage_tokens@)[m]);
            }
            while k < 4
                invariant
                    kids@.len() == 4,
                    k <= 4,
                    coverage@ == cov,
                    forall|m: int| 0 <= m < 4 ==> u64_trailing_zeros(#[trigger] kids@[m]) <= 61,
                    forall|m: int| 0 <= m < coverage@.len() ==> cell_range_ok(#[trigger] coverage@[m]),
                    plans_view(children@) == child_plans(kids@.subrange(0, k as int), cov),
                decreases 4 - k,
            {
                let child = kids[k];
                assert(kids@.subrange(0, k + 1).drop_last() =~= kids@.subrange(0, k as int));
                assert(child == kids@[k as int]);
                proof {
                    lemma_range_ok_of_level(child);
                }
                if union_intersects(coverage.as_slice(), child) {
                    let (_, child_level, child_col, child_row) = face_level_col_row_from_cell_id(
                        child,
                    );
                    let mut u = String::new();
                    push_str(&mut u, "../../");
                    push_decimal_i64(&mut u, child_level as i64);
                    push_str(&mut u, "/");
                    push_decimal_i64(&mut u, child_col as i64);
                    push_str(&mut u, "/");
                    push_decimal_i64(&mut u, child_row as i64);
                    push_str(&mut u, ".json");
                    let child_token = cell_token(child);
                    let ghost before = children@;
                    children.push(
                        ChildTilePlan { cell: child, level: child_level, uri: u, token: child_token },
                    );
                    assert(plans_view(children@) =~= plans_view(before).push(
                        (
                            child,
                            child_level as int,
                            child_tile_uri(child_level, child_col, child_row),
                            spec_cell_token(child),
                        ),
                    ));
                }
                k = k + 1;
            }
            assert(kids@.subrange(0, 4) =~= kids@);
        }
        let token = cell_token(cell);
        let r = TilesetPlan { cell, token, level, content_uri, children };
        assert(plans_view(r.children@) =~= if level < self.source_s2_content_max_level {
            child_plans(spec_cell_children(cell), coverage_ids(self.source_s2_content_coverage_tokens@))
        } else {
            Seq::empty()
        });
        r
    }

    /// The cell ids of the coverage tokens, in order.
    pub fn coverage_cell_ids(&self) -> (r: Vec<u64>)
        ensures
            r@ == coverage_ids(self.source_s2_content_coverage_tokens@),
    {
        let mut out: Vec<u64> = Vec::new();
        let mut i: usize = 0;
        while i < self.source_s2_content_coverage_tokens.len()
            invariant
                i <= self.source_s2_content_coverage_tokens@.len(),
                out@ == coverage_ids(self.source_s2_content_coverage_tokens@.subrange(0, i as int)),
            decreases self.source_s2_content_coverage_tokens@.len() - i,
        {
            let id = cell_from_token(self.source_s2_content_coverage_tokens[i].as_str());
            out.push(id);
            i = i + 1;
            assert(out@ =~= coverage_ids(
                self.source_s2_content_coverage_tokens@.subrange(0, i as int),
            ));
        }
        assert(self.source_s2_content_coverage_tokens@.subrange(
            0,
            self.source_s2_content_coverage_tokens@.len() as int,
        ) =~= self.source_s2_content_coverage_tokens@);
        out
    }
}

/// The tileset path of a face's top tile in the synthesized S2 root.
pub fn s2_root_child_uri(face: u8) -> (r: String)
    ensures
        r@ == "t/"@ + decimal_digits(face as nat) + "/0/0/0.json"@,
{
    let mut u = String::new();
    push_str(&mut u, "t/");
    push_decimal_u64(&mut u, face as u64);
    push_str(&mut u, "/0/0/0.json");
    u
}

/// Where the GeoJSON of one content tile is read: under its package, at
/// `face/level/col/row.geojson`.
pub fn feature_tile_uri(package_uri: &str, face: u8, level: i32, col: i32, row: i32) -> (r: String)
    ensures
        r@ == package_uri@ + "/"@ + tile_path(face, level, col, row) + ".geojson"@,
{
    let mut u = String::new();
    push_str(&mut u, package_uri);
    push_str(&mut u, "/");
    push_tile_path(&mut u, face, level, col, row);
    push_str(&mut u, ".geojson");
    u
}

/// The URI of the georeferencing sidecar of a raster.
pub fn sidecar_uri(raster_uri: &str) -> (r: String)
    ensures
        r@ == raster_uri@ + ".aux.xml"@,
{
    let mut u = String::new();
    push_str(&mut u, raster_uri);
    push_str(&mut u, ".aux.xml");
    u
}

/// The content URI of a layer's root tileset: the synthesized tileset of
/// layer `id` in the version that `hash` identifies.
pub fn root_tileset_content_uri(id: &str, hash: &str) -> (r: String)
    ensures
        r@ == id@ + "/"@ + hash@ + "/tileset.json"@,
{
    let mut u = String::new();
    push_str(&mut u, id);
    push_str(&mut u, "/");
    push_str(&mut u, hash);
    push_str(&mut u, "/tileset.json");
    u
}

/// The face of the cell a coverage token names.
pub open spec fn token_face(t: Seq<char>) -> u8 {
    spec_cell_face(cell_id_of_token(t))
}

/// The tokens of a coverage whose cells lie on face `f`, in order.
pub open spec fn tokens_on_face(ts: Seq<Seq<char>>, f: u8) -> Seq<Seq<char>>
    decreases ts.len(),
{
    if ts.len() == 0 {
        Seq::empty()
    } else {
        let rest = tokens_on_face(ts.drop_last(), f);
        if token_face(ts.last()) == f {
            rest.push(ts.last())
        } else {
            rest
        }
    }
}

/// The views of strings.
pub open spec fn strings_view(v: Seq<String>) -> Seq<Seq<char>> {
    v.map_values(|s: String| s@)
}

/// A token on a face keeps its face's group non-empty.
proof fn lemma_face_group_nonempty(ts: Seq<Seq<char>>, i: int)
    requires
        0 <= i < ts.len(),
    ensures
        tokens_on_face(ts, token_face(ts[i])).len() > 0,
    decreases ts.len(),
{
    if i < ts.len() - 1 {
        lemma_face_group_nonempty(ts.drop_last(), i);
        assert(ts.drop_last()[i] == ts[i]);
    }
}

/// Every face of a coverage is below 8.
proof fn lemma_faces_below_eight(ts: Seq<Seq<char>>, f: u8)
    requires
        f >= 8,
    ensures
        tokens_on_face(ts, f).len() == 0,
    decreases ts.len(),
{
    if ts.len() > 0 {
        lemma_faces_below_eight(ts.drop_last(), f);
        let id = cell_id_of_token(ts.last());
        assert(((id >> 61u64) as u8) < 8u8) by (bit_vector);
    }
}

impl LayerDefinition {
    /// The coverage tokens grouped by the cube face of their cells: one
    /// group per face that has tokens, faces ascending, tokens in coverage
    /// order.
    pub fn content_coverage_tokens_by_s2_face(&self) -> (r: Vec<(u8, Vec<String>)>)
        ensures
            forall|k: int, l: int| 0 <= k < l < r@.len() ==> r@[k].0 < r@[l].0,
            forall|k: int|
                0 <= k < r@.len() ==> strings_view(#[trigger] r@[k].1@) == tokens_on_face(
                    strings_view(self.source_s2_content_coverage_tokens@),
                    r@[k].0,
                ) && r@[k].1@.len() > 0,
            forall|f: u8|
                tokens_on_face(strings_view(self.source_s2_content_coverage_tokens@), f).len() > 0
                    ==> exists|k: int| 0 <= k < r@.len() && #[trigger] r@[k].0 == f,
    {
        let tokens = &self.source_s2_content_coverage_tokens;
        let ghost ts = strings_view(tokens@);
        let mut faces: Vec<u8> = Vec::new();
        let mut i: usize = 0;
        while i < tokens.len()
            invariant
                i <= tokens@.len(),
                faces@.len() == i,
                forall|k: int| 0 <= k < i ==> #[trigger] faces@[k] == token_face(tokens@[k]@),
            decreases tokens@.len() - i,
        {
            faces.push(cell_face(cell_from_token(tokens[i].as_str())));
            i = i + 1;
        }
        let mut groups: Vec<(u8, Vec<String>)> = Vec::new();
        let mut f: u8 = 0;
        while f < 8
            invariant
                ts == strings_view(tokens@),
                faces@.len() == tokens@.len(),
                forall|k: int| 0 <= k < tokens@.len() ==> #[trigger] faces@[k] == token_face(
                    tokens@[k]@,
                ),
                f <= 8,
                forall|k: int, l: int| 0 <= k < l < groups@.len() ==> groups@[k].0 < groups@[l].0,
                forall|k: int| 0 <= k < groups@.len() ==> groups@[k].0 < f,
                forall|k: int|
                    0 <= k < groups@.len() ==> strings_view(#[trigger] groups@[k].1@)
                        == tokens_on_face(ts, groups@[k].0) && groups@[k].1@.len() > 0,
                forall|g: u8|
                    g < f && tokens_on_face(ts, g).len() > 0 ==> exists|k: int|
                        0 <= k < groups@.len() && #[trigger] groups@[k].0 == g,
            decreases 8 - f,
        {
            let mut group: Vec<String> = Vec::new();
            let mut j: usize = 0;
            while j < tokens.len()
                invariant
                    ts == strings_view(tokens@),
                    faces@.len() == tokens@.len(),
                    forall|k: int| 0 <= k < tokens@.len() ==> #[trigger] faces@[k] == token_face(
                        tokens@[k]@,
                    ),
                    j <= tokens@.len(),
                    strings_view(group@) == tokens_on_face(ts.take(j as int), f),
                decreases tokens@.len() - j,
            {
                assert(ts.take(j + 1).drop_last() =~= ts.take(j as int));
                if faces[j] == f {
                    let ghost before = group@;
                    group.push(tokens[j].clone());
                    assert(strings_view(group@) =~= strings_view(before).push(tokens@[j as int]@));
                }
                j = j + 1;
            }
            assert(ts.take(tokens@.len() as int) =~= ts);
            if group.len() > 0 {
                let ghost before = groups@;
                groups.push((f, group));
                assert forall|g: u8|
                    g < f + 1 && tokens_on_face(ts, g).len() > 0 implies exists|k: int|
                        0 <= k < groups@.len() && #[trigger] groups@[k].0 == g by {
                    if g == f {
                        assert(groups@[before.len() as int].0 == g);
                    } else {
                        let k = choose|k: int| 0 <= k < before.len() && #[trigger] before[k].0 == g;
                        assert(groups@[k].0 == g);
                    }
                }
            }
            f = f + 1;
        }
        proof {
            assert forall|g: u8| tokens_on_face(ts, g).len() > 0 implies exists|k: int|
                0 <= k < groups@.len() && #[trigger] groups@[k].0 == g by {
                if g >= 8 {
                    lemma_faces_below_eight(ts, g);
                }
            }
        }
        groups
    }
}

/// The lower-case hex digits of the first `n` bytes of `d`.
pub open spec fn hex_prefix(d: Seq<u8>, n: nat) -> Seq<char>
    decreases n,
{
    if n == 0 {
        Seq::empty()
    } else {
        hex_prefix(d, (n - 1) as nat) + seq![
            hex_char((d[n - 1] / 16) as int),
            hex_char((d[n - 1] % 16) as int),
        ]
    }
}

/// The BLAKE3 digest of some bytes.
pub uninterp spec fn blake3_digest(data: Seq<u8>) -> Seq<u8>;

/// `blake3::hash`: the 32-byte BLAKE3 digest.
#[verifier::external_body]
pub(crate) fn blake3_hash(data: &[u8]) -> (r: [u8; 32])
    ensures
        r@ == blake3_digest(data@),
{
    *blake3::hash(data).as_bytes()
}

/// The version tag of a layer: the first 16 hex digits of the BLAKE3
/// digest of its serialized definition.
pub fn definition_hash(serialized: &[u8]) -> (r: String)
    ensures
        r@ == hex_prefix(blake3_digest(serialized@), 8),
{
    let digest = blake3_hash(serialized);
    let mut out = String::new();
    let mut k: usize = 0;
    while k < 8
        invariant
            k <= 8,
            digest@ == blake3_digest(serialized@),
            out@ == hex_prefix(digest@, k as nat),
        decreases 8 - k,
    {
        let b = digest[k];
        string_push(&mut out, hex_digit(b / 16));
        string_push(&mut out, hex_digit(b % 16));
        k = k + 1;
        assert(out@ =~= hex_prefix(digest@, k as nat));
    }
    out
}

/// The lower-case hex digit for `d`.
fn hex_digit(d: u8) -> (c: char)
    requires
        d < 16,
    ensures
        c == hex_char(d as int),
{
    if d < 10 {
        ((48 + d) as char)
    } else {
        ((87 + d) as char)
    }
}

/// What to do with one tile while looking for the tile at the content
/// level of a package's tileset.
#[derive(Debug)]
pub enum TileSearchStep {
    /// This tile is the one: its grid level is the content level.
    Found,
    /// Look into the external tileset this tile's content points at (a
    /// reference relative to the tile's tileset), then into its children.
    External(String),
    /// Look into the tile's children.
    Children,
}

/// One step of the search for the tile at `content_level`: a tile whose
/// grid extension names that level is found; otherwise a tile whose content
/// is a `.json` tileset is searched through that tileset first.
pub fn tile_search_step(grid_level: Option<i32>, content_uri: Option<&str>, content_level: i32) -> (r:
    TileSearchStep)
    ensures
        grid_level == Some(content_level) ==> r is Found,
        grid_level != Some(content_level) ==> match content_uri {
            Some(u) => if has_suffix(u@, ".json"@) {
                r matches TileSearchStep::External(e) && e@ == u@
            } else {
                r is Children
            },
            None => r is Children,
        },
{
    match grid_level {
        Some(l) => if l == content_level {
            return TileSearchStep::Found;
        },
        None => {},
    }
    match content_uri {
        Some(u) => if ends_with(u, ".json") {
            TileSearchStep::External(u.to_owned())
        } else {
            TileSearchStep::Children
        },
        None => TileSearchStep::Children,
    }
}

/// Which tiles have content, and where it comes from: a tile above the
/// content levels has content only when the layer has a base globe terrain
/// and `glb` content, and then it is the base globe's tile; a tile within
/// the content levels always has content, from the content packages; a
/// tile below them has none. Only tiles above the deepest content level
/// have children.
pub proof fn lemma_tileset_content_by_level(
    layer: LayerDefinition,
    r: TilesetPlan,
    cell: u64,
    face: u8,
    level: i32,
    col: i32,
    row: i32,
)
    requires
        layer.is_tileset_plan(r, cell, face, level, col, row),
    ensures
        level < layer.source_s2_content_min_level ==> (r.content_uri is Some <==> (
        layer.base_globe_terrain_uri is Some && layer.source_s2_content_extension@ == "glb"@)),
        level < layer.source_s2_content_min_level && layer.base_globe_terrain_uri is None
            ==> r.content_uri is None,
        level < layer.source_s2_content_min_level ==> (r.content_uri matches Some(u)
            ==> "../../../../bgc/"@.is_prefix_of(u@)),
        layer.source_s2_content_min_level <= level <= layer.source_s2_content_max_level ==> (
        r.content_uri matches Some(u) && "../../../../c/"@.is_prefix_of(u@)),
        level > layer.source_s2_content_max_level && level >= layer.source_s2_content_min_level
            ==> r.content_uri is None,
        level >= layer.source_s2_content_max_level ==> r.children@.len() == 0,
        r.cell == cell && r.level == level,
{
    let pt = spec_cell_token(spec_cell_parent(cell, layer.source_s2_content_package_level as u64));
    let tp = tile_path(face, level, col, row);
    if level < layer.source_s2_content_min_level {
        if let Some(u) = r.content_uri {
            let bgc = "../../../../bgc/"@;
            assert(u@ == bgc + tp + ".glb"@);
            assert((bgc + tp + ".glb"@).subrange(0, bgc.len() as int) =~= bgc);
        }
    } else if level <= layer.source_s2_content_max_level {
        let c = "../../../../c/"@;
        let u = r.content_uri.unwrap();
        assert(u@ == c + pt + "/"@ + tp + "."@ + layer.source_s2_content_extension@);
        assert((c + pt + "/"@ + tp + "."@ + layer.source_s2_content_extension@).subrange(
            0,
            c.len() as int,
        ) =~= c);
    }
    if level >= layer.source_s2_content_max_level {
        assert(plans_view(r.children@).len() == 0);
    }
}

} // verus!
