//! Where the command line keeps its outputs and artifacts, how it names them, and
//! the recovery commands it suggests.
use vstd::prelude::*;
use vstd::string::StringExecFns;

use crate::numeral::{all_digits, digits_value, parse_u64_spec, unsigned_digits};
use crate::paths::{file_name, file_stem, join, parent, path_file_name, path_file_stem, path_join, path_parent};
use crate::text::{chars_of, concat, decimal, decimal_string, hex16, hex_digits, string_of};

verus! {

/// The directory, inside an output directory, that holds artifacts.
pub open spec fn artifact_dir() -> Seq<char> {
    ".scenedetect-rs"@
}

/// One step of 64-bit FNV-1a.
pub open spec fn fnv1a_step(hash: u64, byte: u8) -> u64 {
    (((hash ^ (byte as u64)) as nat * 0x100000001b3nat) % 0x1_0000_0000_0000_0000nat) as u64
}

/// 64-bit FNV-1a of `bytes`.
pub open spec fn fnv1a(bytes: Seq<u8>) -> u64
    decreases bytes.len(),
{
    if bytes.len() == 0 {
        0xcbf29ce484222325u64
    } else {
        fnv1a_step(fnv1a(bytes.drop_last()), bytes.last())
    }
}

/// The key that names an artifact for `bytes`: their FNV-1a hash as sixteen
/// lower-case hexadecimal digits.
pub open spec fn stable_key_text(bytes: Seq<u8>) -> Seq<char> {
    hex_digits(fnv1a(bytes) as nat, 16)
}

pub fn stable_key(bytes: &[u8]) -> (key: String)
    ensures
        key@ == stable_key_text(bytes@),
{
    let mut hash: u64 = 0xcbf29ce484222325;
    let mut i: usize = 0;
    while i < bytes.len()
        invariant
            i <= bytes@.len(),
            hash == fnv1a(bytes@.take(i as int)),
        decreases bytes@.len() - i,
    {
        let byte = bytes[i];
        assert(bytes@.take(i + 1).drop_last() =~= bytes@.take(i as int));
        let mixed: u64 = hash ^ (byte as u64);
        hash = mixed.wrapping_mul(0x100000001b3);
        i = i + 1;
    }
    assert(bytes@.take(i as int) =~= bytes@);
    hex16(hash)
}

/// `dir/.scenedetect-rs/scene-list/<key>.json`.
pub open spec fn scene_list_artifact_location(output_dir: Seq<char>, request_key: Seq<char>) -> Seq<char> {
    join(join(join(output_dir, artifact_dir()), "scene-list"@), request_key + ".json"@)
}

/// Where a Scene List Artifact for the request with this key is kept by default.
pub fn default_scene_list_artifact_path(output_dir: &str, request_key: &str) -> (path: String)
    ensures
        path@ == scene_list_artifact_location(output_dir@, request_key@),
{
    let dir = path_join(output_dir, ".scenedetect-rs");
    let dir = path_join(dir.as_str(), "scene-list");
    let file = concat(request_key, ".json");
    path_join(dir.as_str(), file.as_str())
}

/// The Scene List Artifact to use: the one given, or the default one.
pub fn scene_list_artifact_path(
    scene_list_artifact: Option<&str>,
    output_dir: &str,
    request_key: &str,
) -> (path: String)
    ensures
        path@ == match scene_list_artifact {
            Some(given) => given@,
            None => scene_list_artifact_location(output_dir@, request_key@),
        },
{
    match scene_list_artifact {
        Some(given) => <String as StringExecFns>::from_str(given),
        None => default_scene_list_artifact_path(output_dir, request_key),
    }
}

/// `dir/.scenedetect-rs/renders/<key>.json`, where the key hashes the output
/// path and the kind of rendering.
pub open spec fn render_manifest_location(
    output_dir: Seq<char>,
    normalized_output_path: Seq<char>,
    render_kind: Seq<char>,
) -> Seq<char> {
    let key = stable_key_text(vstd::utf8::encode_utf8(normalized_output_path + ":"@ + render_kind));
    join(join(join(output_dir, artifact_dir()), "renders"@), key + ".json"@)
}

/// The render manifest for an output file, given the output's absolute,
/// normalized path.
pub fn render_manifest_path(output_dir: &str, normalized_output_path: &str, render_kind: &str) -> (path:
    String)
    ensures
        path@ == render_manifest_location(output_dir@, normalized_output_path@, render_kind@),
{
    let head = concat(normalized_output_path, ":");
    let material = concat(head.as_str(), render_kind);
    let material_str = material.as_str();
    let bytes = material_str.as_bytes();
    let key = stable_key(bytes);
    let dir = path_join(output_dir, ".scenedetect-rs");
    let dir = path_join(dir.as_str(), "renders");
    let file = concat(key.as_str(), ".json");
    path_join(dir.as_str(), file.as_str())
}

/// Why a path could not be derived.
#[derive(Debug, Clone, PartialEq, Eq)]
pub enum PathError {
    /// The input path has no file stem to name outputs after.
    NoFileStem(String),
}

pub open spec fn path_error_text(error: PathError) -> Seq<char> {
    match error {
        PathError::NoFileStem(path) => "input path has no file stem: "@ + path@,
    }
}

impl PathError {
    pub fn message(&self) -> (text: String)
        ensures
            text@ == path_error_text(*self),
    {
        match self {
            PathError::NoFileStem(path) => concat("input path has no file stem: ", path.as_str()),
        }
    }
}

/// `<dir of input>/<stem of input>.<suffix>`.
pub open spec fn stem_location(input: Seq<char>, suffix: Seq<char>) -> Option<Seq<char>> {
    match file_stem(input) {
        None => None,
        Some(stem) => {
            let dir = match parent(input) {
                Some(p) => p,
                None => "."@,
            };
            Some(join(dir, stem + "."@ + suffix))
        },
    }
}

/// The path next to `input`, named after its stem, that ends in `.suffix`.
pub fn stem_path(input: &str, suffix: &str) -> (path: Result<String, PathError>)
    ensures
        match stem_location(input@, suffix@) {
            Some(p) => path matches Ok(v) && v@ == p,
            None => path matches Err(PathError::NoFileStem(given)) && given@ == input@,
        },
{
    let dir = match path_parent(input) {
        Some(p) => p,
        None => <String as StringExecFns>::from_str("."),
    };
    let stem = match path_file_stem(input) {
        Some(s) => s,
        None => return Err(PathError::NoFileStem(<String as StringExecFns>::from_str(input))),
    };
    let dotted = concat(stem.as_str(), ".");
    let name = concat(dotted.as_str(), suffix);
    Ok(path_join(dir.as_str(), name.as_str()))
}

/// The Detection Stats of a video: `<stem>.scenedetect.json` beside it.
pub fn detection_stats_path_for_input(input: &str) -> (path: Result<String, PathError>)
    ensures
        match stem_location(input@, "scenedetect.json"@) {
            Some(p) => path matches Ok(v) && v@ == p,
            None => path matches Err(PathError::NoFileStem(given)) && given@ == input@,
        },
{
    stem_path(input, "scenedetect.json")
}

/// A rendering of a video's Detection Stats: `<stem>.<suffix>` beside it.
pub fn render_output_path_for_input(input: &str, suffix: &str) -> (path: Result<String, PathError>)
    ensures
        match stem_location(input@, suffix@) {
            Some(p) => path matches Ok(v) && v@ == p,
            None => path matches Err(PathError::NoFileStem(given)) && given@ == input@,
        },
{
    stem_path(input, suffix)
}

/// The path names a Detection Stats file: its file name ends in `.scenedetect.json`.
pub open spec fn names_detection_stats(path: Seq<char>) -> bool {
    match file_name(path) {
        Some(name) => name.len() >= 17 && name.skip(name.len() - 17) == ".scenedetect.json"@,
        None => false,
    }
}

pub fn is_detection_stats_path(path: &str) -> (is_stats: bool)
    ensures
        is_stats == names_detection_stats(path@),
{
    let suffix = chars_of(".scenedetect.json");
    proof {
        reveal_strlit(".scenedetect.json");
    }
    match path_file_name(path) {
        None => false,
        Some(name) => {
            assert(file_name(path@) == Some(name@));
            let c = chars_of(name.as_str());
            if c.len() < suffix.len() {
                return false;
            }
            let c_len = c.len();
            let offset = c_len - suffix.len();
            assert(suffix@.len() == 17);
            let ghost fname = file_name(path@)->0;
            assert(fname == c@);
            assert(offset == fname.len() - 17);
            let mut i: usize = 0;
            while i < suffix.len()
                invariant
                    suffix@ == ".scenedetect.json"@,
                    suffix@.len() == 17,
                    c@.len() == c_len,
                    c@ == name@,
                    file_name(path@) == Some(c@),
                    offset + suffix@.len() == c@.len(),
                    i <= suffix@.len(),
                    forall|j: int| 0 <= j < i ==> c@[offset + j] == suffix@[j],
                decreases suffix@.len() - i,
            {
                if c[offset + i] != suffix[i] {
                    assert(c@.skip(offset as int)[i as int] != ".scenedetect.json"@[i as int]);
                    assert(c@.skip(offset as int) != ".scenedetect.json"@);
                    return false;
                }
                i = i + 1;
            }
            assert(c@.skip(offset as int) =~= ".scenedetect.json"@);
            true
        },
    }
}

/// Where the Detection Stats for `input_or_stats` are: the path itself when it
/// names Detection Stats, else the Detection Stats beside the video.
pub open spec fn detection_stats_location(input_or_stats: Seq<char>) -> Option<Seq<char>> {
    if names_detection_stats(input_or_stats) {
        Some(input_or_stats)
    } else {
        stem_location(input_or_stats, "scenedetect.json"@)
    }
}

/// Law: the Detection Stats path found for a path is its own Detection Stats
/// path: looking it up again gives it back.
pub proof fn law_detection_stats_location_is_stable(input_or_stats: Seq<char>)
    requires
        detection_stats_location(input_or_stats) is Some,
    ensures
        names_detection_stats(detection_stats_location(input_or_stats)->0),
        detection_stats_location(detection_stats_location(input_or_stats)->0)
            == detection_stats_location(input_or_stats),
{
    if !names_detection_stats(input_or_stats) {
        reveal_strlit(".");
        reveal_strlit("scenedetect.json");
        reveal_strlit(".scenedetect.json");
        let full = file_name(input_or_stats)->0;
        let stem = file_stem(input_or_stats)->0;
        crate::paths::lemma_file_name_has_no_separator(input_or_stats);
        crate::paths::lemma_file_stem_is_prefix(input_or_stats);
        assert forall|k: int| 0 <= k < stem.len() implies stem[k] != '/' by {
            assert(stem[k] == full[k]);
        }
        let name = stem + "."@ + "scenedetect.json"@;
        assert forall|k: int| 0 <= k < name.len() implies name[k] != '/' by {
            if k >= stem.len() {
                assert(name[k] == (".scenedetect.json"@)[k - stem.len()]);
            }
        }
        let dir = match parent(input_or_stats) {
            Some(p) => p,
            None => "."@,
        };
        assert(name.last() == 'n');
        crate::paths::lemma_file_name_of_join(dir, name);
        assert(name.skip(name.len() - 17) =~= ".scenedetect.json"@);
    }
}

/// The Detection Stats for `input_or_stats`: the path itself when it names
/// Detection Stats, else the Detection Stats beside the video.
pub fn detection_stats_path_for_input_or_stats(input_or_stats: &str) -> (path: Result<
    String,
    PathError,
>)
    ensures
        names_detection_stats(input_or_stats@) ==> (path matches Ok(v) && v@ == input_or_stats@),
        !names_detection_stats(input_or_stats@) ==> match stem_location(
            input_or_stats@,
            "scenedetect.json"@,
        ) {
            Some(p) => path matches Ok(v) && v@ == p,
            None => path matches Err(PathError::NoFileStem(given)) && given@ == input_or_stats@,
        },
        match detection_stats_location(input_or_stats@) {
            Some(p) => path matches Ok(v) && v@ == p,
            None => path is Err,
        },
{
    if is_detection_stats_path(input_or_stats) {
        Ok(<String as StringExecFns>::from_str(input_or_stats))
    } else {
        detection_stats_path_for_input(input_or_stats)
    }
}

/// `value` with every `'` written as `'\''`.
pub open spec fn shell_escaped(value: Seq<char>) -> Seq<char>
    decreases value.len(),
{
    if value.len() == 0 {
        Seq::empty()
    } else {
        shell_escaped(value.drop_last()) + if value.last() == '\'' {
            seq!['\'', '\\', '\'', '\'']
        } else {
            seq![value.last()]
        }
    }
}

/// `value` quoted for a POSIX shell: inside single quotes.
pub open spec fn shell_quoted(value: Seq<char>) -> Seq<char> {
    seq!['\''] + shell_escaped(value) + seq!['\'']
}

pub fn shell_quote(value: &str) -> (quoted: String)
    ensures
        quoted@ == shell_quoted(value@),
{
    let c = chars_of(value);
    let mut out: Vec<char> = Vec::new();
    out.push('\'');
    let mut i: usize = 0;
    while i < c.len()
        invariant
            i <= c@.len(),
            out@ == seq!['\''] + shell_escaped(c@.take(i as int)),
        decreases c@.len() - i,
    {
        assert(c@.take(i + 1).drop_last() =~= c@.take(i as int));
        let ghost before = out@;
        if c[i] == '\'' {
            out.push('\'');
            out.push('\\');
            out.push('\'');
            out.push('\'');
        } else {
            out.push(c[i]);
        }
        assert(out@ =~= seq!['\''] + shell_escaped(c@.take(i + 1)));
        i = i + 1;
    }
    assert(c@.take(i as int) =~= c@);
    out.push('\'');
    string_of(&out)
}

/// The command that recreates the Detection Stats for `input_or_stats`.
pub open spec fn default_recovery_text(input_or_stats: Seq<char>) -> Seq<char> {
    if names_detection_stats(input_or_stats) {
        "scenedetect-rs detect content -i <video>"@
    } else {
        "scenedetect-rs detect content -i "@ + shell_quoted(input_or_stats)
    }
}

pub fn default_recovery_command(input_or_stats: &str) -> (command: String)
    ensures
        command@ == default_recovery_text(input_or_stats@),
{
    if is_detection_stats_path(input_or_stats) {
        <String as StringExecFns>::from_str("scenedetect-rs detect content -i <video>")
    } else {
        let quoted = shell_quote(input_or_stats);
        concat("scenedetect-rs detect content -i ", quoted.as_str())
    }
}

/// The directory of a video, or `.` when it has none.
pub fn default_output_dir(input: &str) -> (dir: String)
    ensures
        dir@ == match parent(input@) {
            Some(p) => p,
            None => "."@,
        },
{
    match path_parent(input) {
        Some(p) => p,
        None => <String as StringExecFns>::from_str("."),
    }
}

/// How a scene list is written.
#[derive(Debug, Clone, Copy, PartialEq, Eq, Structural)]
pub enum SceneListFormat {
    Csv,
    Json,
    Ndjson,
}

/// How a boundary review is written.
#[derive(Debug, Clone, Copy, PartialEq, Eq, Structural)]
pub enum BoundaryReviewFormat {
    Csv,
    Json,
}

pub open spec fn default_scene_list_filename(format: SceneListFormat) -> Seq<char> {
    match format {
        SceneListFormat::Csv => "scenes.csv"@,
        SceneListFormat::Json => "scenes.json"@,
        SceneListFormat::Ndjson => "scenes.ndjson"@,
    }
}

/// The file a scene list is written to: the name given, or one for the format.
pub fn scene_list_filename<'a>(filename: Option<&'a str>, format: SceneListFormat) -> (name: &'a str)
    ensures
        name@ == match filename {
            Some(given) => given@,
            None => default_scene_list_filename(format),
        },
{
    match filename {
        Some(given) => given,
        None => match format {
            SceneListFormat::Csv => "scenes.csv",
            SceneListFormat::Json => "scenes.json",
            SceneListFormat::Ndjson => "scenes.ndjson",
        },
    }
}

pub open spec fn scene_list_render_kind_text(format: SceneListFormat) -> Seq<char> {
    match format {
        SceneListFormat::Csv => "scene_list_csv"@,
        SceneListFormat::Json => "scene_list_json"@,
        SceneListFormat::Ndjson => "scene_events_ndjson"@,
    }
}

/// The kind of rendering a scene list format makes, as named in render manifests.
pub fn scene_list_render_kind(format: SceneListFormat) -> (kind: &'static str)
    ensures
        kind@ == scene_list_render_kind_text(format),
{
    match format {
        SceneListFormat::Csv => "scene_list_csv",
        SceneListFormat::Json => "scene_list_json",
        SceneListFormat::Ndjson => "scene_events_ndjson",
    }
}

/// The file a boundary review is written to: the name given, or one for the format.
pub fn boundary_review_filename<'a>(filename: Option<&'a str>, format: BoundaryReviewFormat) -> (name:
    &'a str)
    ensures
        name@ == match filename {
            Some(given) => given@,
            None => match format {
                BoundaryReviewFormat::Csv => "boundaries.csv"@,
                BoundaryReviewFormat::Json => "boundaries.json"@,
            },
        },
{
    match filename {
        Some(given) => given,
        None => match format {
            BoundaryReviewFormat::Csv => "boundaries.csv",
            BoundaryReviewFormat::Json => "boundaries.json",
        },
    }
}

/// The file an HTML scene list is written to: the name given, or `scenes.html`.
pub fn export_html_filename<'a>(filename: Option<&'a str>) -> (name: &'a str)
    ensures
        name@ == match filename {
            Some(given) => given@,
            None => "scenes.html"@,
        },
{
    match filename {
        Some(given) => given,
        None => "scenes.html",
    }
}

/// The render kind of an HTML scene list.
pub fn scene_list_html_render_kind() -> (kind: &'static str)
    ensures
        kind@ == "scene_list_html"@,
{
    "scene_list_html"
}

/// A stored scene list or rendering may stand in for new detection only when
/// neither `--force` nor a stats file was asked for.
pub fn can_reuse(force: bool, stats_requested: bool) -> (reuse: bool)
    ensures
        reuse == (!force && !stats_requested),
{
    !force && !stats_requested
}

/// The text of `value` as `{:?}` writes it: in double quotes, with escapes.
pub uninterp spec fn debug_quoted(value: Seq<char>) -> Seq<char>;

/// `format!("{value:?}")` for a string.
#[verifier::external_body]
fn quote_for_debug(value: &str) -> (quoted: String)
    ensures
        quoted@ == debug_quoted(value@),
{
    format!("{value:?}")
}

/// What `str::parse::<usize>` gives.
pub open spec fn parse_usize_spec(value: Seq<char>) -> Option<usize> {
    match parse_u64_spec(value) {
        Some(n) => if n <= usize::MAX {
            Some(n as usize)
        } else {
            None
        },
        None => None,
    }
}

/// What the command line accepts as a bin count, hash size or low-pass factor.
pub open spec fn one_to_256(value: Seq<char>) -> Result<usize, Seq<char>> {
    match parse_usize_spec(value) {
        None => Err(debug_quoted(value) + " is not a positive integer"@),
        Some(n) => if 1 <= n <= 256 {
            Ok(n)
        } else {
            Err(decimal(n as nat) + " must be between 1 and 256"@)
        },
    }
}

/// Reads an integer from 1 to 256.
pub fn parse_1_to_256(value: &str) -> (parsed: Result<usize, String>)
    ensures
        match one_to_256(value@) {
            Ok(n) => parsed == Ok::<usize, String>(n),
            Err(text) => parsed matches Err(message) && message@ == text,
        },
{
    let chars = chars_of(value);
    let parsed = crate::numeral::parse_u64(&chars);
    let n: usize = match parsed {
        Some(n) => {
            if n > usize::MAX as u64 {
                let quoted = quote_for_debug(value);
                return Err(concat(quoted.as_str(), " is not a positive integer"));
            }
            n as usize
        },
        None => {
            let quoted = quote_for_debug(value);
            return Err(concat(quoted.as_str(), " is not a positive integer"));
        },
    };
    if 1 <= n && n <= 256 {
        Ok(n)
    } else {
        let digits = decimal_string(n as u64);
        Err(concat(digits.as_str(), " must be between 1 and 256"))
    }
}

} // verus!
