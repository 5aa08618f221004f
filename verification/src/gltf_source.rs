//! Checking a glTF source before it is spawned: its path, its file's extension, and what the
//! parsed document offers (the scene asked for, and morph targets within the engine's limit).
//!
//! Finding and reading the file is the caller's part; this module parses the bytes with the
//! `gltf` crate and decides.
use vstd::prelude::*;
use crate::catalog::{ascii_lower, is_blank, is_white_space};
use gltf::json::mesh::Semantic;
use gltf::json::validation::Checked;

verus! {

/// The most morph targets the engine's glTF loader accepts on one mesh primitive.
pub const MAX_MORPH_TARGETS: usize = 64;

/// What the check reads from a parsed glTF document: how many scenes it has and, for every
/// mesh primitive in mesh order, its mesh's name and its number of morph targets.
pub struct XrdsGltfDocumentFacts {
    pub scene_count: usize,
    pub primitive_morph_targets: Vec<(Option<String>, usize)>,
}

/// A glTF document's facts by value.
pub type GltfFactsView = (nat, Seq<(Option<Seq<char>>, nat)>);

pub open spec fn name_view(n: Option<String>) -> Option<Seq<char>> {
    match n {
        Some(s) => Some(s@),
        None => None,
    }
}

pub open spec fn facts_view(f: XrdsGltfDocumentFacts) -> GltfFactsView {
    (
        f.scene_count as nat,
        f.primitive_morph_targets@.map_values(|p: (Option<String>, usize)| (name_view(p.0), p.1 as nat)),
    )
}

pub open spec fn parsed_view(r: Result<XrdsGltfDocumentFacts, String>) -> Result<GltfFactsView, Seq<char>> {
    match r {
        Ok(f) => Ok(facts_view(f)),
        Err(m) => Err(m@),
    }
}

/// What the `gltf` crate's parser makes of `bytes`: the document's facts, or its error
/// message.
pub uninterp spec fn gltf_document_facts(bytes: Seq<u8>) -> Result<GltfFactsView, Seq<char>>;

/// The little-endian 32-bit number at `b[i..i + 4]`.
pub open spec fn le_u32_at(b: Seq<u8>, i: int) -> int {
    b[i] + 256 * b[i + 1] + 65536 * b[i + 2] + 16777216 * b[i + 3]
}

/// `b` is a version 2 binary glTF whose header declares a total length shorter than the
/// 12-byte header itself: the parser would compute a negative content length.
pub open spec fn glb_length_unusable(b: Seq<u8>) -> bool {
    &&& b.len() >= 12
    &&& b[0] == 0x67u8 && b[1] == 0x6cu8 && b[2] == 0x54u8 && b[3] == 0x46u8
    &&& le_u32_at(b, 4) == 2
    &&& le_u32_at(b, 8) < 12
}

/// Whether `bytes` is a binary glTF whose declared length cannot be used.
pub fn glb_length_is_unusable(bytes: &[u8]) -> (r: bool)
    ensures
        r == glb_length_unusable(bytes@),
{
    if bytes.len() < 12 {
        return false;
    }
    if !(bytes[0] == 0x67u8 && bytes[1] == 0x6cu8 && bytes[2] == 0x54u8 && bytes[3] == 0x46u8) {
        return false;
    }
    let version: u64 = bytes[4] as u64 + 256 * (bytes[5] as u64) + 65536 * (bytes[6] as u64) + 16777216 * (bytes[7] as u64);
    let length: u64 = bytes[8] as u64 + 256 * (bytes[9] as u64) + 65536 * (bytes[10] as u64) + 16777216 * (bytes[11] as u64);
    version == 2 && length < 12
}

/// What the check reads from a glTF document before the crate validates it: how many
/// accessors it has and, for every mesh primitive in mesh order, the accessor its `POSITION`
/// attribute names, if any.
pub struct XrdsGltfIndexFacts {
    pub accessor_count: usize,
    pub position_accessors: Vec<Option<usize>>,
}

/// A document's accessor facts by value.
pub type GltfIndexView = (nat, Seq<Option<nat>>);

pub open spec fn position_view(p: Option<usize>) -> Option<nat> {
    match p {
        Some(i) => Some(i as nat),
        None => None,
    }
}

pub open spec fn indices_view(r: Result<XrdsGltfIndexFacts, String>) -> Result<GltfIndexView, Seq<char>> {
    match r {
        Ok(f) => Ok((f.accessor_count as nat, f.position_accessors@.map_values(|p: Option<usize>| position_view(p)))),
        Err(m) => Err(m@),
    }
}

/// What the `gltf` crate's parser, run without its validation, makes of `bytes`: the
/// document's accessor facts, or its error message.
pub uninterp spec fn gltf_index_facts(bytes: Seq<u8>) -> Result<GltfIndexView, Seq<char>>;

/// The first primitive whose `POSITION` accessor is not among the document's accessors.
pub open spec fn first_bad_position(v: GltfIndexView) -> Option<int>
    decreases v.1.len(),
{
    if v.1.len() == 0 {
        None
    } else {
        match first_bad_position((v.0, v.1.drop_last())) {
            Some(i) => Some(i),
            None => match v.1.last() {
                Some(a) => if a >= v.0 { Some(v.1.len() - 1) } else { None },
                None => None,
            },
        }
    }
}

/// The verdict on a document's accessor facts: a parse error, a primitive naming a
/// `POSITION` accessor that is not there, or nothing to object to.
pub open spec fn indices_outcome(indices: Result<GltfIndexView, Seq<char>>) -> Result<(), GltfSourceFailure> {
    match indices {
        Err(m) => Err(GltfSourceFailure::Parse(m)),
        Ok(v) => match first_bad_position(v) {
            Some(i) => Err(GltfSourceFailure::BadPositionAccessor(v.1[i]->0, v.0)),
            None => Ok(()),
        },
    }
}

/// Parse `bytes` as a glTF or binary glTF document with
/// `gltf::Gltf::from_reader_without_validation` (the reading half of opening a file with the
/// crate), and read off its accessor count and each mesh primitive's `POSITION` accessor
/// index. The parse depends on the bytes alone, so its outcome is named, not described. A
/// version 2 binary glTF whose declared length is below its 12-byte header would make the
/// parser subtract past zero: it is left out.
#[verifier::external_body]
fn read_gltf_indices(bytes: &[u8]) -> (r: Result<XrdsGltfIndexFacts, String>)
    requires
        !glb_length_unusable(bytes@),
    ensures
        indices_view(r) == gltf_index_facts(bytes@),
{
    match gltf::Gltf::from_reader_without_validation(std::io::Cursor::new(bytes)) {
        Ok(gltf) => {
            let json = gltf.document.as_json();
            let mut position_accessors = Vec::new();
            for mesh in &json.meshes {
                for primitive in &mesh.primitives {
                    position_accessors.push(primitive.attributes.get(&Checked::Valid(Semantic::Positions)).map(|i| i.value()));
                }
            }
            Ok(XrdsGltfIndexFacts { accessor_count: json.accessors.len(), position_accessors })
        },
        Err(error) => Err(error.to_string()),
    }
}

/// Parse `bytes` with `gltf::Gltf::from_reader`, which reads the document as
/// `read_gltf_indices` does and then runs the crate's validation, and read off its facts.
/// The outcome depends on the bytes alone, so it is named, not described. The validation
/// looks up each primitive's `POSITION` accessor without a bounds check, so the bytes must
/// have parsed without validation into a document whose `POSITION` accessors all exist.
#[verifier::external_body]
fn parse_gltf_document(bytes: &[u8]) -> (r: Result<XrdsGltfDocumentFacts, String>)
    requires
        !glb_length_unusable(bytes@),
        gltf_index_facts(bytes@) is Ok,
        first_bad_position(gltf_index_facts(bytes@)->Ok_0) is None,
    ensures
        parsed_view(r) == gltf_document_facts(bytes@),
{
    match gltf::Gltf::from_reader(std::io::Cursor::new(bytes)) {
        Ok(document) => {
            let mut primitive_morph_targets = Vec::new();
            for mesh in document.meshes() {
                for primitive in mesh.primitives() {
                    primitive_morph_targets.push((mesh.name().map(String::from), primitive.morph_targets().count()));
                }
            }
            Ok(XrdsGltfDocumentFacts { scene_count: document.scenes().count(), primitive_morph_targets })
        },
        Err(error) => Err(error.to_string()),
    }
}

/// Judge a document's accessor facts, read before validation: a parse error is reported,
/// and so is the first mesh primitive whose `POSITION` attribute names an accessor the
/// document does not have.
pub fn check_gltf_indices(indices: Result<XrdsGltfIndexFacts, String>) -> (r: Result<(), XrdsGltfSourceError>)
    ensures
        outcome_view(r) == indices_outcome(indices_view(indices)),
{
    match indices {
        Err(message) => Err(XrdsGltfSourceError::Parse(message)),
        Ok(facts) => {
            let ghost v = indices_view(Ok::<XrdsGltfIndexFacts, String>(facts))->Ok_0;
            let count = facts.accessor_count;
            let n = facts.position_accessors.len();
            let mut i: usize = 0;
            while i < n
                invariant
                    i <= n,
                    n == facts.position_accessors@.len(),
                    v == (count as nat, facts.position_accessors@.map_values(|p: Option<usize>| position_view(p))),
                    first_bad_position((v.0, v.1.take(i as int))) is None,
                indices_view(indices) == Ok::<GltfIndexView, Seq<char>>(v),
                count == facts.accessor_count,
                decreases n - i,
            {
                assert(v.1.take(i + 1).drop_last() =~= v.1.take(i as int));
                assert(v.1.take(i + 1).last() == position_view(facts.position_accessors@[i as int]));
                if let Some(a) = facts.position_accessors[i] {
                    if a >= count {
                        assert(first_bad_position((v.0, v.1.take(i + 1))) == Some(i as int));
                        proof {
                            lemma_first_bad_extends(v, i as int);
                        }
                        assert(v.1[i as int] == Some(a as nat));
                        return Err(XrdsGltfSourceError::BadPositionAccessor { accessor: a, accessor_count: count });
                    }
                }
                i = i + 1;
            }
            assert(v.1.take(n as int) =~= v.1);
            assert((v.0, v.1.take(n as int)) == v);
            Ok(())
        },
    }
}

/// A bad `POSITION` accessor found in a prefix is the first one of the whole list.
proof fn lemma_first_bad_extends(v: GltfIndexView, i: int)
    requires
        0 <= i < v.1.len(),
        first_bad_position((v.0, v.1.take(i + 1))) == Some(i),
    ensures
        first_bad_position(v) == Some(i),
    decreases v.1.len(),
{
    if v.1.len() > i + 1 {
        let w = (v.0, v.1.drop_last());
        assert(w.1.take(i + 1) =~= v.1.take(i + 1));
        lemma_first_bad_extends(w, i);
    } else {
        assert(v.1.take(i + 1) =~= v.1);
    }
}

/// Whether `c` separates path components on some platform.
pub open spec fn is_path_separator(c: char) -> bool {
    c == '/' || c == '\\'
}

/// What follows the last separator of `s`.
pub open spec fn last_part(s: Seq<char>) -> Seq<char>
    decreases s.len(),
{
    if s.len() == 0 {
        s
    } else if is_path_separator(s.last()) {
        Seq::empty()
    } else {
        last_part(s.drop_last()).push(s.last())
    }
}

/// What follows the last dot of `s`, when it has one.
pub open spec fn after_last_dot(s: Seq<char>) -> Option<Seq<char>>
    decreases s.len(),
{
    if s.len() == 0 {
        None
    } else if s.last() == '.' {
        Some(Seq::empty())
    } else {
        match after_last_dot(s.drop_last()) {
            Some(x) => Some(x.push(s.last())),
            None => None,
        }
    }
}

/// The extension every platform sees in `path`: its last part (after any `/` or `\`) is a
/// non-empty name, a dot and a non-empty extension free of dots, with no colon in it, and
/// the path does not start with two separators (which on some platforms opens a prefix).
pub open spec fn plain_extension(path: Seq<char>) -> Option<Seq<char>> {
    if path.len() >= 2 && is_path_separator(path[0]) && is_path_separator(path[1]) {
        None
    } else {
        let n = last_part(path);
        if n.contains(':') {
            None
        } else {
            match after_last_dot(n) {
                Some(x) => if x.len() > 0 && n.len() > x.len() + 1 { Some(x) } else { None },
                None => None,
            }
        }
    }
}

/// `e` follows a dot somewhere in `path`.
pub open spec fn follows_a_dot(path: Seq<char>, e: Seq<char>) -> bool {
    exists|k: int| 0 <= k && k + 1 + e.len() <= path.len() && path[k] == '.' && #[trigger] path.subrange(k + 1, k + 1 + e.len()) == e
}

/// What every platform's `Path::extension` gives for `path`, as far as it is the same on all
/// of them: an extension holds no dot and follows a dot of the path, and a plain extension
/// is found.
pub open spec fn extension_fits(path: Seq<char>, ext: Option<Seq<char>>) -> bool {
    &&& (ext matches Some(e) ==> !e.contains('.') && follows_a_dot(path, e))
    &&& (plain_extension(path) matches Some(x) ==> ext == Some(x))
}

/// `std::path::Path::extension` of `path`: the part of the file name after its final dot,
/// when the name has one after a first character. Which part of `path` is the file name
/// depends on the platform's separators and prefixes; what holds on all of them is stated:
/// the extension holds no dot and follows a dot of the path, and a last part (after any `/`
/// or `\`) of the form name, dot, extension, with no colon, in a path that does not start
/// with two separators, gives that extension.
#[verifier::external_body]
fn path_extension(path: &str) -> (r: Option<String>)
    ensures
        extension_fits(path@, name_view(r)),
{
    std::path::Path::new(path).extension().and_then(|e| e.to_str()).map(String::from)
}

/// Why a glTF source was refused.
#[derive(Debug, PartialEq, Eq)]
pub enum XrdsGltfSourceError {
    /// The path is empty or white space.
    EmptyPath,
    /// No file was found for the path.
    NotFound,
    /// The file has no extension.
    NoExtension,
    /// The file's extension is neither `gltf` nor `glb`.
    UnsupportedExtension,
    /// The file could not be read or parsed; the reader's or parser's message.
    Parse(String),
    /// The file is a binary glTF whose header declares a length shorter than the header.
    BadGlbLength,
    /// A mesh primitive's `POSITION` attribute names an accessor the document does not have.
    BadPositionAccessor { accessor: usize, accessor_count: usize },
    /// The document has no scenes.
    NoScenes,
    /// The scene asked for is not in the document.
    MissingScene { scene_index: usize, scene_count: usize },
    /// A mesh primitive has more morph targets than the engine accepts.
    TooManyMorphTargets { mesh_name: Option<String>, count: usize },
}

/// Why a glTF source was refused, by value.
pub enum GltfSourceFailure {
    EmptyPath,
    NotFound,
    NoExtension,
    UnsupportedExtension,
    Parse(Seq<char>),
    BadGlbLength,
    BadPositionAccessor(nat, nat),
    NoScenes,
    MissingScene(nat, nat),
    TooManyMorphTargets(Option<Seq<char>>, nat),
}

pub open spec fn failure_view(e: XrdsGltfSourceError) -> GltfSourceFailure {
    match e {
        XrdsGltfSourceError::EmptyPath => GltfSourceFailure::EmptyPath,
        XrdsGltfSourceError::NotFound => GltfSourceFailure::NotFound,
        XrdsGltfSourceError::NoExtension => GltfSourceFailure::NoExtension,
        XrdsGltfSourceError::UnsupportedExtension => GltfSourceFailure::UnsupportedExtension,
        XrdsGltfSourceError::Parse(m) => GltfSourceFailure::Parse(m@),
        XrdsGltfSourceError::BadGlbLength => GltfSourceFailure::BadGlbLength,
        XrdsGltfSourceError::BadPositionAccessor { accessor, accessor_count } =>
            GltfSourceFailure::BadPositionAccessor(accessor as nat, accessor_count as nat),
        XrdsGltfSourceError::NoScenes => GltfSourceFailure::NoScenes,
        XrdsGltfSourceError::MissingScene { scene_index, scene_count } =>
            GltfSourceFailure::MissingScene(scene_index as nat, scene_count as nat),
        XrdsGltfSourceError::TooManyMorphTargets { mesh_name, count } =>
            GltfSourceFailure::TooManyMorphTargets(name_view(mesh_name), count as nat),
    }
}

pub open spec fn outcome_view(r: Result<(), XrdsGltfSourceError>) -> Result<(), GltfSourceFailure> {
    match r {
        Ok(()) => Ok(()),
        Err(e) => Err(failure_view(e)),
    }
}

/// The first primitive of `prims` over the morph-target limit, if any.
pub open spec fn first_over_limit(prims: Seq<(Option<Seq<char>>, nat)>) -> Option<int>
    decreases prims.len(),
{
    if prims.len() == 0 {
        None
    } else if prims[0].1 > MAX_MORPH_TARGETS {
        Some(0)
    } else {
        match first_over_limit(prims.skip(1)) {
            Some(i) => Some(i + 1),
            None => None,
        }
    }
}

/// The verdict on a parsed document, for the scene `scene_index`.
pub open spec fn document_outcome(scene_index: nat, parsed: Result<GltfFactsView, Seq<char>>) -> Result<(), GltfSourceFailure> {
    match parsed {
        Err(m) => Err(GltfSourceFailure::Parse(m)),
        Ok(facts) => {
            let (count, prims) = facts;
            if count == 0 {
                Err(GltfSourceFailure::NoScenes)
            } else if scene_index >= count {
                Err(GltfSourceFailure::MissingScene(scene_index, count))
            } else {
                match first_over_limit(prims) {
                    Some(i) => Err(GltfSourceFailure::TooManyMorphTargets(prims[i].0, prims[i].1)),
                    None => Ok(()),
                }
            }
        },
    }
}

/// Whether `ext`, with ASCII capitals lowered, is `gltf` or `glb`.
pub open spec fn is_gltf_extension(ext: Seq<char>) -> bool {
    let lowered = ext.map_values(|c: char| ascii_lower(c));
    lowered == seq!['g', 'l', 't', 'f'] || lowered == seq!['g', 'l', 'b']
}

/// The verdict on a found file's contents: the reader's message, a refused binary glTF
/// length, the verdict on the document's accessor facts read before validation, and then
/// the verdict on the validated document.
pub open spec fn contents_outcome(scene_index: nat, contents: Result<Vec<u8>, String>) -> Result<(), GltfSourceFailure> {
    match contents {
        Err(m) => Err(GltfSourceFailure::Parse(m@)),
        Ok(bytes) => if glb_length_unusable(bytes@) {
            Err(GltfSourceFailure::BadGlbLength)
        } else if indices_outcome(gltf_index_facts(bytes@)) is Err {
            indices_outcome(gltf_index_facts(bytes@))
        } else {
            document_outcome(scene_index, gltf_document_facts(bytes@))
        },
    }
}

/// The verdict once a file was found: its extension decides first, then its contents.
pub open spec fn found_outcome(
    scene_index: nat,
    extension: Option<Seq<char>>,
    contents: Result<Vec<u8>, String>,
) -> Result<(), GltfSourceFailure> {
    match extension {
        None => Err(GltfSourceFailure::NoExtension),
        Some(e) => if !is_gltf_extension(e) {
            Err(GltfSourceFailure::UnsupportedExtension)
        } else {
            contents_outcome(scene_index, contents)
        },
    }
}

/// Whether `path` is empty or all white space.
pub open spec fn blank_path(path: Seq<char>) -> bool {
    forall|i: int| 0 <= i < path.len() ==> #[trigger] is_white_space(path[i])
}

/// A file found for a glTF source: the path it was found at, and its bytes or the reader's
/// error message.
pub struct XrdsGltfFile {
    pub path: String,
    pub contents: Result<Vec<u8>, String>,
}

/// Judge a parsed document for the scene `scene_index`: it must have scenes, the one asked
/// for among them, and no mesh primitive over the morph-target limit.
#[verifier::loop_isolation(false)]
pub fn check_gltf_document(scene_index: usize, parsed: Result<XrdsGltfDocumentFacts, String>) -> (r: Result<(), XrdsGltfSourceError>)
    ensures
        outcome_view(r) == document_outcome(scene_index as nat, parsed_view(parsed)),
{
    match parsed {
        Err(message) => Err(XrdsGltfSourceError::Parse(message)),
        Ok(facts) => {
            let ghost fv = facts_view(facts);
            let count = facts.scene_count;
            if count == 0 {
                return Err(XrdsGltfSourceError::NoScenes);
            }
            if scene_index >= count {
                return Err(XrdsGltfSourceError::MissingScene { scene_index, scene_count: count });
            }
            let prims = facts.primitive_morph_targets;
            let ghost pv = fv.1;
            let n = prims.len();
            let mut i: usize = 0;
            assert(pv.skip(0) =~= pv);
            while i < n
                invariant
                    i <= n,
                    n == prims@.len(),
                    pv == prims@.map_values(|p: (Option<String>, usize)| (name_view(p.0), p.1 as nat)),
                    first_over_limit(pv) == (match first_over_limit(pv.skip(i as int)) {
                        Some(j) => Some(j + i),
                        None => None::<int>,
                    }),
                decreases n - i,
            {
                let count_here = prims[i].1;
                if count_here > MAX_MORPH_TARGETS {
                    assert(pv[i as int] == (name_view(prims@[i as int].0), prims@[i as int].1 as nat));
                    assert(pv.skip(i as int)[0] == pv[i as int]);
                    assert(first_over_limit(pv.skip(i as int)) == Some(0int));
                    assert(first_over_limit(pv) == Some(i as int));
                    let mesh_name = match &prims[i].0 {
                        Some(name) => Some(name.clone()),
                        None => None,
                    };
                    assert(name_view(mesh_name) == pv[i as int].0);
                    return Err(XrdsGltfSourceError::TooManyMorphTargets { mesh_name, count: count_here });
                }
                assert(pv.skip(i as int).skip(1) =~= pv.skip(i + 1));
                i = i + 1;
            }
            assert(pv.skip(n as int) =~= Seq::<(Option<Seq<char>>, nat)>::empty());
            Ok(())
        },
    }
}

/// `r` is the verdict on the glTF source `path`, for the scene `scene_index`, given the file
/// found for it: a blank path is refused first, then a missing file; otherwise the verdict
/// follows the file's extension, as the platform reads it from the path the file was found
/// at, and then its contents.
pub open spec fn source_verdict(path: Seq<char>, scene_index: nat, file: Option<XrdsGltfFile>, r: Result<(), XrdsGltfSourceError>) -> bool {
    if blank_path(path) {
        r == Err::<(), XrdsGltfSourceError>(XrdsGltfSourceError::EmptyPath)
    } else {
        match file {
            None => r == Err::<(), XrdsGltfSourceError>(XrdsGltfSourceError::NotFound),
            Some(f) => exists|ext: Option<Seq<char>>| {
                &&& extension_fits(f.path@, ext)
                &&& outcome_view(r) == #[trigger] found_outcome(scene_index, ext, f.contents)
            },
        }
    }
}

/// Judge a glTF source: `path` as given, the scene `scene_index` it names, and the file the
/// caller found for it (`None`: none was found). The path must not be blank, a file must
/// have been found, its extension must be `gltf` or `glb` (in any case), and its contents must
/// parse into a document that `check_gltf_document` accepts.
pub fn validate_gltf_source(path: &str, scene_index: usize, file: Option<XrdsGltfFile>) -> (r: Result<(), XrdsGltfSourceError>)
    ensures
        source_verdict(path@, scene_index as nat, file, r),
{
    if is_blank(path) {
        return Err(XrdsGltfSourceError::EmptyPath);
    }
    let file = match file {
        Some(f) => f,
        None => return Err(XrdsGltfSourceError::NotFound),
    };
    let extension = path_extension(file.path.as_str());
    let ghost ext = name_view(extension);
    let supported = match &extension {
        None => return Err(XrdsGltfSourceError::NoExtension),
        Some(e) => is_gltf_extension_str(e.as_str()),
    };
    if !supported {
        return Err(XrdsGltfSourceError::UnsupportedExtension);
    }
    let r = match file.contents {
        Err(message) => Err(XrdsGltfSourceError::Parse(message)),
        Ok(bytes) => if glb_length_is_unusable(bytes.as_slice()) {
            Err(XrdsGltfSourceError::BadGlbLength)
        } else {
            match check_gltf_indices(read_gltf_indices(bytes.as_slice())) {
                Err(e) => Err(e),
                Ok(()) => check_gltf_document(scene_index, parse_gltf_document(bytes.as_slice())),
            }
        },
    };
    assert(outcome_view(r) == found_outcome(scene_index as nat, ext, file.contents));
    r
}

/// Whether `ext`, with ASCII capitals lowered, is `gltf` or `glb`.
pub fn is_gltf_extension_str(ext: &str) -> (r: bool)
    ensures
        r == is_gltf_extension(ext@),
{
    let n = ext.unicode_len();
    if n != 3 && n != 4 {
        proof {
            let lowered = ext@.map_values(|c: char| ascii_lower(c));
            assert(lowered.len() == n);
        }
        return false;
    }
    let mut lowered: Vec<char> = Vec::new();
    let mut i: usize = 0;
    while i < n
        invariant
            i <= n,
            n == ext@.len(),
            lowered@ == ext@.take(i as int).map_values(|c: char| ascii_lower(c)),
        decreases n - i,
    {
        let c = ext.get_char(i);
        let l = if 'A' <= c && c <= 'Z' { ((c as u8) + 32) as char } else { c };
        assert(l == ascii_lower(c));
        lowered.push(l);
        assert(ext@.take(i + 1) =~= ext@.take(i as int).push(c));
        assert(lowered@ =~= ext@.take(i + 1).map_values(|c: char| ascii_lower(c)));
        i = i + 1;
    }
    assert(ext@.take(n as int) =~= ext@);
    let r = if n == 4 {
        lowered[0] == 'g' && lowered[1] == 'l' && lowered[2] == 't' && lowered[3] == 'f'
    } else {
        lowered[0] == 'g' && lowered[1] == 'l' && lowered[2] == 'b'
    };
    proof {
        let lv = ext@.map_values(|c: char| ascii_lower(c));
        if r {
            if n == 4 {
                assert(lv =~= seq!['g', 'l', 't', 'f']);
            } else {
                assert(lv =~= seq!['g', 'l', 'b']);
            }
        } else {
            if lv == seq!['g', 'l', 't', 'f'] {
                assert(lv[0] == 'g' && lv[1] == 'l' && lv[2] == 't' && lv[3] == 'f');
            }
            if lv == seq!['g', 'l', 'b'] {
                assert(lv[0] == 'g' && lv[1] == 'l' && lv[2] == 'b');
            }
        }
    }
    r
}

} // verus!
