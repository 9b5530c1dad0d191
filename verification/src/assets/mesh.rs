use vstd::prelude::*;
use vstd::string::StringExecFns;

use crate::assets::error::AssetError;
use crate::text::{decimal, push_decimal};

verus! {

/// Most vertices one mesh primitive may declare (2^20). A provisional
/// denial-of-service bound: a primitive claiming more is refused before
/// any vertex data is read.
pub const MAX_MESH_VERTICES_PER_PRIMITIVE: usize = 1048576;

/// Most indices one mesh primitive may declare (2^24).
pub const MAX_MESH_INDICES_PER_PRIMITIVE: usize = 16777216;

/// How a glTF primitive's vertices are assembled, named as glTF names
/// the modes.
#[derive(Debug, Clone, Copy, PartialEq, Eq, Structural)]
pub enum PrimitiveMode {
    Points,
    Lines,
    LineLoop,
    LineStrip,
    Triangles,
    TriangleStrip,
    TriangleFan,
}

/// What a primitive declares before any of its data is read.
#[derive(Debug, Clone, Copy, PartialEq, Eq, Structural)]
pub struct PrimitiveHeader {
    /// The primitive's mode (glTF's default, triangles, when omitted).
    pub mode: PrimitiveMode,
    /// The declared vertex count, or `None` without a POSITION attribute.
    pub position_count: Option<usize>,
    /// The declared index count, or `None` for a non-indexed primitive.
    pub index_count: Option<usize>,
    /// The declared NORMAL count, if the attribute is present.
    pub normal_count: Option<usize>,
    /// The declared TEXCOORD_0 count, if the attribute is present.
    pub uv_count: Option<usize>,
}

/// What reading one optional per-vertex attribute gave.
#[derive(Debug, Clone, Copy, PartialEq, Eq, Structural)]
pub enum AttributeRead {
    /// The primitive does not declare the attribute.
    Absent,
    /// The attribute is declared but its data cannot be read.
    Unreadable,
    /// This many values were read.
    Read(usize),
}

/// The glTF name of a primitive mode, as text.
pub open spec fn mode_text(m: PrimitiveMode) -> Seq<char> {
    match m {
        PrimitiveMode::Points => "Points"@,
        PrimitiveMode::Lines => "Lines"@,
        PrimitiveMode::LineLoop => "LineLoop"@,
        PrimitiveMode::LineStrip => "LineStrip"@,
        PrimitiveMode::Triangles => "Triangles"@,
        PrimitiveMode::TriangleStrip => "TriangleStrip"@,
        PrimitiveMode::TriangleFan => "TriangleFan"@,
    }
}

/// The glTF name of a primitive mode.
fn mode_name(m: PrimitiveMode) -> (r: &'static str)
    ensures
        r@ == mode_text(m),
{
    match m {
        PrimitiveMode::Points => "Points",
        PrimitiveMode::Lines => "Lines",
        PrimitiveMode::LineLoop => "LineLoop",
        PrimitiveMode::LineStrip => "LineStrip",
        PrimitiveMode::Triangles => "Triangles",
        PrimitiveMode::TriangleStrip => "TriangleStrip",
        PrimitiveMode::TriangleFan => "TriangleFan",
    }
}

/// Whether `e` is the `InvalidFormat` error for `path`.
pub open spec fn is_invalid_for(e: AssetError, path: &str) -> bool {
    e matches AssetError::InvalidFormat { path: p, .. } && p@ == path@
}

/// Whether `e` is the `UnsupportedFeature` error for `path`.
pub open spec fn is_unsupported_for(e: AssetError, path: &str) -> bool {
    e matches AssetError::UnsupportedFeature { path: p, .. } && p@ == path@
}

/// Whether `e` is the `OverBudget` error for `path` with these numbers.
pub open spec fn is_over_budget_for(e: AssetError, path: &str, limit: u64, actual: u64) -> bool {
    e matches AssetError::OverBudget { path: p, limit: l, actual: a } && p@ == path@ && l == limit
        && a == actual
}

/// Refuses a declared element `count` past `limit`, reporting both
/// numbers.
pub fn check_count_budget(path: &str, count: usize, limit: usize) -> (r: Result<(), AssetError>)
    ensures
        count <= limit ==> r is Ok,
        count > limit ==> (r matches Err(e) && is_over_budget_for(e, path, limit as u64, count as u64)),
{
    if count > limit {
        return Err(AssetError::over_budget(path, limit as u64, count as u64));
    }
    Ok(())
}

/// The error for a per-vertex attribute `name` whose count differs from
/// the primitive's vertex count, or `Ok` when they agree.
fn check_attribute_count(path: &str, name: &str, count: usize, position_count: usize) -> (r: Result<
    (),
    AssetError,
>)
    ensures
        count == position_count ==> r is Ok,
        count != position_count ==> (r matches Err(e) && is_invalid_for(e, path)),
{
    if count != position_count {
        let mut reason = String::from_str(name);
        reason.append(" holds ");
        push_decimal(&mut reason, count as u64);
        reason.append(" vertices but POSITION holds ");
        push_decimal(&mut reason, position_count as u64);
        return Err(AssetError::invalid_format(path, reason.as_str()));
    }
    Ok(())
}

/// Checks what a primitive declares, before any data is read: only
/// indexed triangle primitives with at least one vertex and index,
/// within the vertex and index budgets, with a whole number of triangles
/// and with every per-vertex attribute as long as POSITION.
pub fn check_primitive_header(path: &str, h: PrimitiveHeader) -> (r: Result<(), AssetError>)
    ensures
        h.mode != PrimitiveMode::Triangles ==> (r matches Err(e) && is_unsupported_for(e, path)),
        h.mode == PrimitiveMode::Triangles && h.position_count is None ==> (r matches Err(e)
            && is_invalid_for(e, path)),
        h.mode == PrimitiveMode::Triangles && h.position_count == Some(0usize) ==> (r matches Err(e)
            && is_invalid_for(e, path)),
        h.mode == PrimitiveMode::Triangles && (h.position_count matches Some(n) && n > 0 && n
            > MAX_MESH_VERTICES_PER_PRIMITIVE) ==> (r matches Err(e) && is_over_budget_for(
            e,
            path,
            MAX_MESH_VERTICES_PER_PRIMITIVE as u64,
            h.position_count.unwrap() as u64,
        )),
        r is Ok <==> {
            &&& h.mode == PrimitiveMode::Triangles
            &&& h.position_count matches Some(n) && 0 < n <= MAX_MESH_VERTICES_PER_PRIMITIVE
            &&& h.index_count matches Some(k) && 0 < k <= MAX_MESH_INDICES_PER_PRIMITIVE && k % 3 == 0
            &&& h.normal_count matches Some(c) ==> c == h.position_count.unwrap()
            &&& h.uv_count matches Some(c) ==> c == h.position_count.unwrap()
        },
        h.mode == PrimitiveMode::Triangles && (h.position_count matches Some(n) && 0 < n
            <= MAX_MESH_VERTICES_PER_PRIMITIVE) ==> {
            &&& h.index_count is None ==> (r matches Err(e) && is_unsupported_for(e, path))
            &&& h.index_count == Some(0usize) ==> (r matches Err(e) && is_invalid_for(e, path))
            &&& (h.index_count matches Some(k) && k > MAX_MESH_INDICES_PER_PRIMITIVE) ==> (r matches Err(e)
                && is_over_budget_for(
                e,
                path,
                MAX_MESH_INDICES_PER_PRIMITIVE as u64,
                h.index_count.unwrap() as u64,
            ))
            &&& (h.index_count matches Some(k) && 0 < k <= MAX_MESH_INDICES_PER_PRIMITIVE) && !(r is Ok)
                ==> (r matches Err(e) && is_invalid_for(e, path))
        },
{
    if h.mode != PrimitiveMode::Triangles {
        let mut feature = String::from_str("primitive mode ");
        feature.append(mode_name(h.mode));
        feature.append(": only triangle primitives are supported");
        return Err(AssetError::unsupported_feature(path, feature.as_str()));
    }
    let position_count = match h.position_count {
        Some(n) => n,
        None => {
            return Err(AssetError::invalid_format(path, "primitive is missing the POSITION attribute"));
        },
    };
    if position_count == 0 {
        return Err(AssetError::invalid_format(path, "primitive has no vertices"));
    }
    match check_count_budget(path, position_count, MAX_MESH_VERTICES_PER_PRIMITIVE) {
        Ok(()) => {},
        Err(e) => {
            return Err(e);
        },
    }
    let index_count = match h.index_count {
        Some(n) => n,
        None => {
            return Err(AssetError::unsupported_feature(path, "non-indexed primitive: indices are required"));
        },
    };
    if index_count == 0 {
        return Err(AssetError::invalid_format(path, "primitive has no indices"));
    }
    match check_count_budget(path, index_count, MAX_MESH_INDICES_PER_PRIMITIVE) {
        Ok(()) => {},
        Err(e) => {
            return Err(e);
        },
    }
    if index_count % 3 != 0 {
        let mut reason = String::from_str("triangle primitive has ");
        push_decimal(&mut reason, index_count as u64);
        reason.append(" indices, not a multiple of 3");
        return Err(AssetError::invalid_format(path, reason.as_str()));
    }
    if let Some(count) = h.normal_count {
        match check_attribute_count(path, "NORMAL", count, position_count) {
            Ok(()) => {},
            Err(e) => {
                return Err(e);
            },
        }
    }
    if let Some(count) = h.uv_count {
        match check_attribute_count(path, "TEXCOORD_0", count, position_count) {
            Ok(()) => {},
            Err(e) => {
                return Err(e);
            },
        }
    }
    Ok(())
}

/// The error for a per-vertex attribute `name` that read `got` values
/// where `declared` were declared.
fn read_count_mismatch(path: &str, name: &str, got: usize, declared: usize) -> (e: AssetError)
    ensures
        is_invalid_for(e, path),
{
    let mut reason = String::from_str(name);
    reason.append(" holds ");
    push_decimal(&mut reason, got as u64);
    reason.append(" vertices but declares ");
    push_decimal(&mut reason, declared as u64);
    AssetError::invalid_format(path, reason.as_str())
}

/// The reason given for the first out-of-range index `index` among
/// `vertex_count` vertices.
pub open spec fn out_of_bounds_reason(index: u32, vertex_count: nat) -> Seq<char> {
    "index "@ + decimal(index as nat) + " is out of bounds for "@ + decimal(vertex_count) + " vertices"@
}

/// Whether every index names one of `vertex_count` vertices (counted as a
/// `u32`, so a count past `u32::MAX` accepts indices below `u32::MAX`).
pub open spec fn indices_in_bounds(indices: Seq<u32>, vertex_count: nat) -> bool {
    let bound: nat = if vertex_count <= u32::MAX { vertex_count } else { u32::MAX as nat };
    forall|i: int| 0 <= i < indices.len() ==> (#[trigger] indices[i] as nat) < bound
}

/// Checks what reading a primitive gave, against what it declared: every
/// attribute that is declared must be readable and hold exactly as many
/// values as declared, the indices must be readable, as many as declared,
/// and each must name an existing vertex.
pub fn check_primitive_data(
    path: &str,
    position_count: usize,
    positions_read: Option<usize>,
    normals: AttributeRead,
    uvs: AttributeRead,
    index_count: usize,
    indices: Option<&[u32]>,
) -> (r: Result<(), AssetError>)
    ensures
        r is Ok <==> {
            &&& positions_read == Some(position_count)
            &&& (normals is Absent || normals == AttributeRead::Read(position_count))
            &&& (uvs is Absent || uvs == AttributeRead::Read(position_count))
            &&& indices matches Some(ix) && ix@.len() == index_count && indices_in_bounds(
                ix@,
                position_count as nat,
            )
        },
        r matches Err(e) ==> is_invalid_for(e, path),
        ({
            &&& positions_read == Some(position_count)
            &&& (normals is Absent || normals == AttributeRead::Read(position_count))
            &&& (uvs is Absent || uvs == AttributeRead::Read(position_count))
            &&& indices matches Some(ix) && ix@.len() == index_count && !indices_in_bounds(
                ix@,
                position_count as nat,
            )
        }) ==> (r matches Err(AssetError::InvalidFormat { reason, .. }) && exists|j: int|
            #![trigger indices.unwrap()@[j]]
            0 <= j < indices.unwrap()@.len() && indices_in_bounds(
                indices.unwrap()@.take(j),
                position_count as nat,
            ) && !indices_in_bounds(seq![indices.unwrap()@[j]], position_count as nat) && reason@
                == out_of_bounds_reason(indices.unwrap()@[j], position_count as nat)),
{
    match positions_read {
        None => {
            return Err(AssetError::invalid_format(path, "POSITION attribute is unreadable"));
        },
        Some(n) => {
            if n != position_count {
                return Err(read_count_mismatch(path, "POSITION", n, position_count));
            }
        },
    }
    match normals {
        AttributeRead::Absent => {},
        AttributeRead::Unreadable => {
            return Err(AssetError::invalid_format(path, "NORMAL attribute is unreadable"));
        },
        AttributeRead::Read(n) => {
            if n != position_count {
                return Err(read_count_mismatch(path, "NORMAL", n, position_count));
            }
        },
    }
    match uvs {
        AttributeRead::Absent => {},
        AttributeRead::Unreadable => {
            return Err(AssetError::invalid_format(path, "TEXCOORD_0 attribute is unreadable"));
        },
        AttributeRead::Read(n) => {
            if n != position_count {
                return Err(read_count_mismatch(path, "TEXCOORD_0", n, position_count));
            }
        },
    }
    let ix = match indices {
        Some(ix) => ix,
        None => {
            return Err(AssetError::invalid_format(path, "indices are unreadable"));
        },
    };
    if ix.len() != index_count {
        let mut reason = String::from_str("indices hold ");
        push_decimal(&mut reason, ix.len() as u64);
        reason.append(" entries but declare ");
        push_decimal(&mut reason, index_count as u64);
        return Err(AssetError::invalid_format(path, reason.as_str()));
    }
    let vertex_count: u32 = if position_count <= u32::MAX as usize {
        position_count as u32
    } else {
        u32::MAX
    };
    let mut i: usize = 0;
    while i < ix.len()
        invariant
            i <= ix@.len(),
            positions_read == Some(position_count),
            normals is Absent || normals == AttributeRead::Read(position_count),
            uvs is Absent || uvs == AttributeRead::Read(position_count),
            indices == Some(ix),
            ix@.len() == index_count,
            vertex_count == (if position_count <= u32::MAX { position_count as u32 } else { u32::MAX }),
            forall|j: int| 0 <= j < i ==> (#[trigger] ix@[j] as nat) < vertex_count as nat,
        decreases ix@.len() - i,
    {
        let index = ix[i];
        if index >= vertex_count {
            let mut reason = String::from_str("index ");
            push_decimal(&mut reason, index as u64);
            reason.append(" is out of bounds for ");
            push_decimal(&mut reason, position_count as u64);
            reason.append(" vertices");
            proof {
                assert(!((ix@[i as int] as nat) < vertex_count as nat));
                let j = i as int;
                assert(indices_in_bounds(ix@.take(j), position_count as nat)) by {
                    assert forall|k: int| 0 <= k < ix@.take(j).len() implies (#[trigger] ix@.take(j)[k]
                        as nat) < (if position_count <= u32::MAX { position_count as nat } else {
                        u32::MAX as nat
                    }) by {
                        assert(ix@.take(j)[k] == ix@[k]);
                    }
                }
                assert(!indices_in_bounds(seq![ix@[j]], position_count as nat)) by {
                    assert(seq![ix@[j]][0] == ix@[j]);
                }
                assert(reason@ == out_of_bounds_reason(ix@[j], position_count as nat));
            }
            return Err(AssetError::invalid_format(path, reason.as_str()));
        }
        i = i + 1;
    }
    Ok(())
}

/// Checks a parsed GLB container before its primitives are read: it must
/// hold at least one mesh, and exactly one buffer, which must be the
/// file's own embedded BIN chunk.
pub fn check_container(
    path: &str,
    mesh_count: usize,
    buffer_count: usize,
    first_buffer_is_bin: bool,
    has_bin_chunk: bool,
) -> (r: Result<(), AssetError>)
    ensures
        mesh_count == 0 ==> (r matches Err(e) && is_invalid_for(e, path)),
        mesh_count > 0 ==> (r is Ok <==> (buffer_count == 1 && has_bin_chunk && first_buffer_is_bin)),
        mesh_count > 0 && !(buffer_count == 1 && has_bin_chunk && first_buffer_is_bin) ==> (r matches Err(e)
            && is_unsupported_for(e, path)),
{
    if mesh_count == 0 {
        return Err(AssetError::invalid_format(path, "file contains no mesh primitives"));
    }
    if buffer_count == 1 && has_bin_chunk {
        if !first_buffer_is_bin {
            return Err(AssetError::unsupported_feature(path, "external mesh buffer referenced by URI"));
        }
        return Ok(());
    }
    Err(AssetError::unsupported_feature(path, "mesh buffers outside the GLB's embedded BIN chunk"))
}

/// `gltf::Gltf`, a parsed glTF document with its binary chunk.
#[verifier::external_type_specification]
#[verifier::external_body]
pub struct ExGltf(gltf::Gltf);

/// `gltf::Error`, a glTF parse or validation failure.
#[verifier::external_type_specification]
#[verifier::external_body]
pub struct ExGltfError(gltf::Error);

/// What a parsed GLB container holds, as far as accepting it goes: how
/// many meshes and buffers it declares, whether its first buffer is the
/// embedded BIN chunk, and whether it has a BIN chunk.
#[derive(Debug, Clone, Copy, PartialEq, Eq, Structural)]
pub struct GlbContainer {
    pub mesh_count: usize,
    pub buffer_count: usize,
    pub first_buffer_is_bin: bool,
    pub has_bin_chunk: bool,
}

/// A parsed glTF document together with the bytes it was parsed from.
pub struct GltfParsed<'a> {
    document: gltf::Gltf,
    source: &'a [u8],
}

/// Whether the GLB header of `bytes`, if they start with one, declares a
/// total length of at least the header's own 12 bytes. `gltf` subtracts
/// the header size from that length unchecked, which panics where
/// overflow checks are on.
pub open spec fn glb_length_sound(bytes: Seq<u8>) -> bool {
    !(bytes.len() >= 12 && bytes[0] == 0x67u8 && bytes[1] == 0x6cu8 && bytes[2] == 0x54u8 && bytes[3]
        == 0x46u8 && bytes[8] < 12 && bytes[9] == 0 && bytes[10] == 0 && bytes[11] == 0)
}

/// What `gltf::Gltf::from_slice_without_validation` parses from `bytes`,
/// as far as validating it safely goes: for every primitive of every
/// mesh, in order, the index of its `POSITION` accessor if it names one,
/// and the number of accessors; `None` where parsing fails. Parsing
/// depends on the bytes alone.
pub uninterp spec fn glb_positions_of(bytes: Seq<u8>) -> Option<(Seq<Option<usize>>, usize)>;

/// Whether the document parsed from `bytes` passes glTF validation
/// (`gltf::Document::from_json` returns `Ok`).
pub uninterp spec fn glb_validates(bytes: Seq<u8>) -> bool;

/// The container summary of the document parsed from `bytes`.
pub uninterp spec fn glb_container_of(bytes: Seq<u8>) -> GlbContainer;

/// Whether every `POSITION` accessor index names an existing accessor.
/// Validation indexes the accessor table by it unchecked, so it panics
/// on a dangling one.
pub open spec fn positions_in_range(positions: Seq<Option<usize>>, accessor_count: usize) -> bool {
    forall|i: int| 0 <= i < positions.len() ==> (#[trigger] positions[i] matches Some(a) ==> a < accessor_count)
}

/// Parses glTF or GLB `bytes` without validating them
/// (`gltf::Gltf::from_slice_without_validation`), giving the document,
/// each primitive's `POSITION` accessor index and the accessor count, as
/// `glb_positions_of` names them.
#[verifier::external_body]
fn gltf_parse_unvalidated<'a>(bytes: &'a [u8]) -> (r: Result<(GltfParsed<'a>, Vec<Option<usize>>, usize), gltf::Error>)
    requires
        glb_length_sound(bytes@),
    ensures
        match glb_positions_of(bytes@) {
            Some(x) => r matches Ok(p) && p.0.source@ == bytes@ && p.1@ == x.0 && p.2 == x.1,
            None => r is Err,
        },
{
    let g = gltf::Gltf::from_slice_without_validation(bytes)?;
    let root = g.document.as_json();
    let positions = root.meshes.iter().flat_map(|m| m.primitives.iter()).map(
        |p| p.attributes.get(&gltf::json::validation::Checked::Valid(gltf::Semantic::Positions)).map(|i| i.value()),
    ).collect();
    let count = root.accessors.len();
    Ok((GltfParsed { document: g, source: bytes }, positions, count))
}

/// Validates a parsed document (`gltf::Document::from_json` on its JSON),
/// succeeding exactly when `glb_validates` holds of its bytes.
#[verifier::external_body]
fn gltf_validate<'a>(p: GltfParsed<'a>) -> (r: Result<GltfParsed<'a>, gltf::Error>)
    requires
        glb_positions_of(p.source@) matches Some(x) && positions_in_range(x.0, x.1),
    ensures
        r is Ok <==> glb_validates(p.source@),
        r matches Ok(q) ==> q.source == p.source,
{
    let GltfParsed { document, source } = p;
    let validated = gltf::Document::from_json(document.document.into_json())?;
    Ok(GltfParsed { document: gltf::Gltf { document: validated, blob: document.blob }, source })
}

/// Summarizes a parsed document's container: the counts of
/// `Document::meshes` and `Document::buffers`, whether the first buffer's
/// `source` is `Source::Bin`, and whether a BIN chunk (`blob`) is present.
#[verifier::external_body]
fn gltf_container(p: &GltfParsed) -> (c: GlbContainer)
    requires
        glb_positions_of(p.source@) is Some,
    ensures
        c == glb_container_of(p.source@),
{
    let d = &p.document.document;
    GlbContainer {
        mesh_count: d.meshes().count(),
        buffer_count: d.buffers().count(),
        first_buffer_is_bin: matches!(d.buffers().next().map(|b| b.source()), Some(gltf::buffer::Source::Bin)),
        has_bin_chunk: p.document.blob.is_some(),
    }
}

/// Whether `bytes` parse as a glTF document that passes validation.
pub open spec fn glb_parses(bytes: Seq<u8>) -> bool {
    &&& glb_length_sound(bytes)
    &&& glb_positions_of(bytes) matches Some(x)
    &&& positions_in_range(x.0, x.1)
    &&& glb_validates(bytes)
}

/// Whether a container is one this loader reads: at least one mesh, and
/// exactly one buffer, the file's own embedded BIN chunk.
pub open spec fn container_accepted(c: GlbContainer) -> bool {
    c.mesh_count > 0 && c.buffer_count == 1 && c.has_bin_chunk && c.first_buffer_is_bin
}

/// Parses GLB `bytes` read from `path` and checks the container (see
/// `check_container`), giving the parsed document and its summary.
/// Bytes that do not parse and validate as glTF are `InvalidFormat`,
/// including a GLB header whose length is shorter than the header and a
/// primitive whose `POSITION` names a missing accessor, which are refused
/// before `gltf` would trip over them.
pub fn check_glb(path: &str, bytes: &[u8]) -> (r: Result<(gltf::Gltf, GlbContainer), AssetError>)
    ensures
        !glb_parses(bytes@) ==> (r matches Err(e) && is_invalid_for(e, path)),
        glb_parses(bytes@) ==> {
            let c = glb_container_of(bytes@);
            &&& (r is Ok <==> container_accepted(c))
            &&& r matches Ok(p) ==> p.1 == c
            &&& c.mesh_count == 0 ==> (r matches Err(e) && is_invalid_for(e, path))
            &&& c.mesh_count > 0 && !container_accepted(c) ==> (r matches Err(e) && is_unsupported_for(e, path))
        },
{
    if bytes.len() >= 12 && bytes[0] == 0x67 && bytes[1] == 0x6c && bytes[2] == 0x54 && bytes[3] == 0x46
        && bytes[8] < 12 && bytes[9] == 0 && bytes[10] == 0 && bytes[11] == 0 {
        return Err(AssetError::invalid_format(path, "GLB header declares a length shorter than the header"));
    }
    let (parsed, positions, accessor_count) = match gltf_parse_unvalidated(bytes) {
        Ok(p) => p,
        Err(e) => {
            let mut reason = String::from_str("not a parseable glTF file: ");
            let detail = e.to_string();
            reason.append(detail.as_str());
            return Err(AssetError::invalid_format(path, reason.as_str()));
        },
    };
    let mut i: usize = 0;
    while i < positions.len()
        invariant
            i <= positions@.len(),
            glb_positions_of(bytes@) == Some((positions@, accessor_count)),
            forall|j: int| 0 <= j < i ==> (#[trigger] positions@[j] matches Some(a) ==> a < accessor_count),
        decreases positions@.len() - i,
    {
        match positions[i] {
            Some(a) => {
                if a >= accessor_count {
                    assert(positions@[i as int] == Some(a));
                    return Err(AssetError::invalid_format(path, "a primitive's POSITION names a missing accessor"));
                }
            },
            None => {},
        }
        i = i + 1;
    }
    let parsed = match gltf_validate(parsed) {
        Ok(p) => p,
        Err(e) => {
            let mut reason = String::from_str("not a parseable glTF file: ");
            let detail = e.to_string();
            reason.append(detail.as_str());
            return Err(AssetError::invalid_format(path, reason.as_str()));
        },
    };
    let c = gltf_container(&parsed);
    match check_container(path, c.mesh_count, c.buffer_count, c.first_buffer_is_bin, c.has_bin_chunk) {
        Ok(()) => Ok((parsed.document, c)),
        Err(e) => Err(e),
    }
}

/// Checks that reading a container's meshes found at least one
/// primitive; a file with none is `InvalidFormat`.
pub fn check_primitives_found(path: &str, primitive_count: usize) -> (r: Result<(), AssetError>)
    ensures
        r is Ok <==> primitive_count > 0,
        r matches Err(e) ==> is_invalid_for(e, path),
{
    if primitive_count == 0 {
        return Err(AssetError::invalid_format(path, "file contains no mesh primitives"));
    }
    Ok(())
}

} // verus!


