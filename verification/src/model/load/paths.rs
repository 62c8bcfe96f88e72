//! Where the packed archive of a model lies.
//!
//! Paths are texts in the syntax of the platform that the library is built for; the
//! GPUs it plans for are driven on Unix systems only, where `/` separates components.

use vstd::prelude::*;
use vstd::string::*;
use crate::config::WeightQuantMode;
use crate::text::joined;

verus! {

/// What `std::path::Path::file_name` gives for a path.
pub uninterp spec fn path_file_name(path: Seq<char>) -> Option<Seq<char>>;

/// What `std::path::Path::parent` gives for a path.
pub uninterp spec fn path_parent(path: Seq<char>) -> Option<Seq<char>>;

/// A name under a path: an absolute name stands for itself, and a separator stands
/// between the two unless the path is empty or ends in one.
pub open spec fn path_join(base: Seq<char>, name: Seq<char>) -> Seq<char> {
    if name.len() > 0 && name[0] == '/' {
        name
    } else if base.len() == 0 || base.last() == '/' {
        base + name
    } else {
        base + seq!['/'] + name
    }
}

/// Calls `std::path::Path::file_name`: the last component of a path, if it has one.
#[verifier::external_body]
fn file_name(path: &str) -> (r: Option<String>)
    ensures
        r is Some <==> path_file_name(path@) is Some,
        r matches Some(n) ==> n@ == path_file_name(path@)->0,
{
    match std::path::Path::new(path).file_name() {
        Some(n) => Some(n.to_string_lossy().into_owned()),
        None => None,
    }
}

/// Calls `std::path::Path::parent`: a path without its last component, if it has
/// one.
#[verifier::external_body]
fn parent(path: &str) -> (r: Option<String>)
    ensures
        r is Some <==> path_parent(path@) is Some,
        r matches Some(p) ==> p@ == path_parent(path@)->0,
{
    match std::path::Path::new(path).parent() {
        Some(p) => Some(p.to_string_lossy().into_owned()),
        None => None,
    }
}

/// Calls `std::path::Path::join`: an absolute name replaces the path, another one is
/// put under it, with one separator between them where the path brings none itself.
#[verifier::external_body]
fn join(base: &str, name: &str) -> (r: String)
    ensures
        r@ == path_join(base@, name@),
{
    std::path::Path::new(base).join(name).to_string_lossy().into_owned()
}

/// The archive beside a model directory, given the directory's name and parent.
pub open spec fn sibling(dir: Seq<char>, name: Option<Seq<char>>, parent: Option<Seq<char>>) -> Option<
    (Seq<char>, Seq<char>),
> {
    match name {
        None => None,
        Some(n) => Some(
            (
                match parent {
                    Some(p) => p,
                    None => dir,
                },
                n + ".q4.bqnt"@,
            ),
        ),
    }
}

/// The archive beside a model directory.
pub open spec fn auto_path(dir: Seq<char>) -> Option<Seq<char>> {
    match sibling(dir, path_file_name(dir), path_parent(dir)) {
        None => None,
        Some((base, name)) => Some(path_join(base, name)),
    }
}

/// The explicit path where one is set, else the one beside the model directory.
pub open spec fn candidate(env: Option<Seq<char>>, dir: Seq<char>) -> Option<Seq<char>> {
    match env {
        Some(p) => Some(p),
        None => auto_path(dir),
    }
}

/// Directory and file name of the archive beside a model directory.
pub fn sibling_archive(dir: &str, name: Option<String>, parent: Option<String>) -> (r: Option<
    (String, String),
>)
    ensures
        ({
            let n = match name {
                Some(x) => Some(x@),
                None => None,
            };
            let p = match parent {
                Some(x) => Some(x@),
                None => None,
            };
            &&& r is Some <==> sibling(dir@, n, p) is Some
            &&& r matches Some((base, file)) ==> sibling(dir@, n, p) == Some((base@, file@))
        }),
{
    match name {
        None => None,
        Some(n) => {
            let base: String = match parent {
                Some(p) => p,
                None => dir.to_owned(),
            };
            Some((base, joined(n.as_str(), ".q4.bqnt")))
        },
    }
}

/// The archive beside a model directory.
pub fn auto_bqnt_path(model_dir: &str) -> (r: Option<String>)
    ensures
        r is Some <==> auto_path(model_dir@) is Some,
        r matches Some(p) ==> p@ == auto_path(model_dir@)->0,
{
    match sibling_archive(model_dir, file_name(model_dir), parent(model_dir)) {
        None => None,
        Some((base, name)) => Some(join(base.as_str(), name.as_str())),
    }
}

/// Where to look for the archive of a model.
pub fn bqnt_candidate(bqnt_path_env: Option<&str>, model_dir: &str) -> (r: Option<String>)
    ensures
        ({
            let env = match bqnt_path_env {
                Some(p) => Some(p@),
                None => None,
            };
            &&& r is Some <==> candidate(env, model_dir@) is Some
            &&& r matches Some(p) ==> p@ == candidate(env, model_dir@)->0
        }),
{
    match bqnt_path_env {
        Some(p) => Some(p.to_owned()),
        None => auto_bqnt_path(model_dir),
    }
}

/// The archive of a model, given whether there is a file at the candidate path.
pub fn resolve_bqnt_path_with_env(bqnt_path_env: Option<&str>, model_dir: &str, exists: bool) -> (r:
    Option<String>)
    ensures
        ({
            let env = match bqnt_path_env {
                Some(p) => Some(p@),
                None => None,
            };
            &&& r is Some <==> exists && candidate(env, model_dir@) is Some
            &&& r matches Some(p) ==> p@ == candidate(env, model_dir@)->0
        }),
{
    if exists {
        bqnt_candidate(bqnt_path_env, model_dir)
    } else {
        None
    }
}

/// Where converted weights are saved: beside the model directory, when no archive
/// was opened, none was named, and weights are quantized.
pub fn save_bqnt_path(
    archive_open: bool,
    explicit: bool,
    weight_quant: WeightQuantMode,
    model_dir: &str,
) -> (r: Option<String>)
    ensures
        r is Some <==> !archive_open && !explicit && weight_quant != WeightQuantMode::Bf16
            && auto_path(model_dir@) is Some,
        r matches Some(p) ==> p@ == auto_path(model_dir@)->0,
{
    if !archive_open && !explicit && weight_quant != WeightQuantMode::Bf16 {
        auto_bqnt_path(model_dir)
    } else {
        None
    }
}

/// An archive that was named is the only one looked for, and the archive that would
/// be written is the one a later load looks for.
pub proof fn law_save_where_looked_for(dir: Seq<char>, env: Seq<char>)
    ensures
        candidate(Some(env), dir) == Some(env),
        candidate(None, dir) == auto_path(dir),
{
}

} // verus!
