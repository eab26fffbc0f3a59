//! Where the speech model lives: default locations, the files a usable
//! model directory holds, and the archive clutter removed after extraction.

use vstd::prelude::*;

use crate::paths::{join_path as join, path_join};
use crate::text::{chars_of, starts_with_lit, string_views};

verus! {

/// Directory name of the default model inside the data directory.
pub const DEFAULT_MODEL_BASENAME: &'static str = "parakeet-tdt-0.6b-v3-int8";

/// File name of the cached model archive.
pub const DEFAULT_MODEL_PACKAGE_NAME: &'static str = "parakeet-v3-int8.tar.gz";

/// Where the default model archive is downloaded from.
pub const DEFAULT_MODEL_URL: &'static str = "https://huggingface.co/brenorb/parakeet-tdt-0.6b-v3-int8-onnx-bundle/resolve/main/parakeet-v3-int8.tar.gz?download=1";

/// Data directory used when neither the platform directories nor `HOME` are
/// known.
pub const DEFAULT_DATA_DIR_FALLBACK: &'static str = ".fast-transcript";

/// Cache directory used when neither the platform directories nor `HOME` are
/// known.
pub const DEFAULT_CACHE_DIR_FALLBACK: &'static str = ".fast-transcript-cache";

/// The application's data directory when the platform directories are
/// unknown: `$HOME/.local/share/fast-transcript`, or `.fast-transcript`
/// without a home directory.
pub fn fallback_data_dir(home: Option<String>) -> (r: String)
    ensures
        r@ == match home {
            Some(h) => path_join(
                path_join(path_join(h@, ".local"@), "share"@),
                "fast-transcript"@,
            ),
            None => DEFAULT_DATA_DIR_FALLBACK@,
        },
{
    match home {
        Some(h) => {
            let a = join(h.as_str(), ".local");
            let b = join(a.as_str(), "share");
            join(b.as_str(), "fast-transcript")
        },
        None => DEFAULT_DATA_DIR_FALLBACK.to_string(),
    }
}

/// The application's cache directory when the platform directories are
/// unknown: `$HOME/.cache/fast-transcript`, or `.fast-transcript-cache`.
pub fn fallback_cache_dir(home: Option<String>) -> (r: String)
    ensures
        r@ == match home {
            Some(h) => path_join(path_join(h@, ".cache"@), "fast-transcript"@),
            None => DEFAULT_CACHE_DIR_FALLBACK@,
        },
{
    match home {
        Some(h) => {
            let a = join(h.as_str(), ".cache");
            join(a.as_str(), "fast-transcript")
        },
        None => DEFAULT_CACHE_DIR_FALLBACK.to_string(),
    }
}

/// The model directory: `FSCRIPT_MODEL_DIR` when set, else
/// `<data dir>/models/parakeet-tdt-0.6b-v3-int8`.
pub fn default_model_dir(env_override: Option<String>, data_dir: &str) -> (r: String)
    ensures
        r@ == match env_override {
            Some(d) => d@,
            None => path_join(path_join(data_dir@, "models"@), DEFAULT_MODEL_BASENAME@),
        },
{
    match env_override {
        Some(d) => d,
        None => {
            let models = join(data_dir, "models");
            join(models.as_str(), DEFAULT_MODEL_BASENAME)
        },
    }
}

/// The cached archive: `FSCRIPT_MODEL_PACKAGE` when set, else
/// `<cache dir>/parakeet-v3-int8.tar.gz`.
pub fn default_model_package(env_override: Option<String>, cache_dir: &str) -> (r: String)
    ensures
        r@ == match env_override {
            Some(p) => p@,
            None => path_join(cache_dir@, DEFAULT_MODEL_PACKAGE_NAME@),
        },
{
    match env_override {
        Some(p) => p,
        None => join(cache_dir, DEFAULT_MODEL_PACKAGE_NAME),
    }
}

/// The archive URL: `FSCRIPT_MODEL_URL` when set, else the default bundle.
pub fn default_model_url(env_override: Option<String>) -> (r: String)
    ensures
        r@ == match env_override {
            Some(u) => u@,
            None => DEFAULT_MODEL_URL@,
        },
{
    match env_override {
        Some(u) => u,
        None => DEFAULT_MODEL_URL.to_string(),
    }
}

/// The files a usable model directory holds.
pub open spec fn required_model_files() -> Seq<Seq<char>> {
    seq![
        "encoder-model.int8.onnx"@,
        "decoder_joint-model.int8.onnx"@,
        "nemo128.onnx"@,
        "vocab.txt"@,
    ]
}

/// The paths of the required files inside `model_dir`.
pub fn required_model_paths(model_dir: &str) -> (r: Vec<String>)
    ensures
        string_views(r@) == required_model_files().map_values(|f: Seq<char>| path_join(model_dir@, f)),
{
    let mut v: Vec<String> = Vec::new();
    v.push(join(model_dir, "encoder-model.int8.onnx"));
    v.push(join(model_dir, "decoder_joint-model.int8.onnx"));
    v.push(join(model_dir, "nemo128.onnx"));
    v.push(join(model_dir, "vocab.txt"));
    assert(string_views(v@) =~= required_model_files().map_values(
        |f: Seq<char>| path_join(model_dir@, f),
    ));
    v
}

/// Whether a file name is macOS resource-fork clutter (`._` prefix), which is
/// removed after extracting the archive.
pub fn is_appledouble_name(name: &str) -> (r: bool)
    ensures
        r == (name@.len() >= 2 && name@.take(2) == "._"@),
{
    let v = chars_of(name);
    proof {
        reveal_strlit("._");
    }
    starts_with_lit(v.as_slice(), "._")
}

} // verus!
