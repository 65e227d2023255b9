use vstd::prelude::*;

use crate::errors::SyncError;
use crate::strings::clone_string;
use crate::strings::join_path;
use crate::strings::path_sep;

verus! {

/// Options for downloading from the remote store.
#[derive(Debug)]
pub struct Opts {
    /// Path to the output file.
    pub output: Option<String>,
    /// Whether to download all nodes.
    pub all: bool,
    /// The share link from which to download nodes.
    pub link: Option<String>,
    /// The password to use to decrypt the share link, if such is used.
    pub password: Option<String>,
    /// The maximum number of parallel file downloads.
    pub parallel: usize,
    /// Display path or handle of the node to download.
    pub path: Option<String>,
}

impl Opts {
    pub fn may_need_user_session(&self) -> (r: bool)
        ensures
            r == (self.link is None && self.password is None),
    {
        self.link.is_none() && self.password.is_none()
    }
}

/// How the snapshot is to be fetched: from the caller's own account, from
/// a public share link, or from a password-protected one.
#[derive(Debug)]
pub enum FetchPlan {
    OwnAccount,
    PublicLink { link: String },
    ProtectedLink { link: String, password: String },
}

/// Chooses how to fetch the snapshot from the share arguments. A password
/// without a link names nothing and is rejected as an input error rather
/// than guessed at.
pub fn fetch_plan(link: &Option<String>, password: &Option<String>) -> (r: Result<
    FetchPlan,
    SyncError,
>)
    ensures
        match r {
            Ok(plan) => match plan {
                FetchPlan::OwnAccount => link is None && password is None,
                FetchPlan::PublicLink { link: l } => password is None && match link {
                    Some(x) => l@ == x@,
                    None => false,
                },
                FetchPlan::ProtectedLink { link: l, password: pw } => match (link, password) {
                    (Some(x), Some(y)) => l@ == x@ && pw@ == y@,
                    _ => false,
                },
            },
            Err(e) => e == SyncError::NotFound && link is None && password is Some,
        },
{
    match (link, password) {
        (None, None) => Ok(FetchPlan::OwnAccount),
        (Some(l), None) => Ok(FetchPlan::PublicLink { link: clone_string(l) }),
        (Some(l), Some(pw)) => Ok(
            FetchPlan::ProtectedLink { link: clone_string(l), password: clone_string(pw) },
        ),
        (None, Some(_)) => Err(SyncError::NotFound),
    }
}

/// What the download targets: everything, or a single reference.
#[derive(Debug)]
pub enum GetTarget {
    All,
    Single { reference: String },
}

/// Chooses the download target: `--all` excludes a path argument, and
/// without `--all` a path argument is required.
pub fn target_plan(opts: &Opts) -> (r: Result<GetTarget, SyncError>)
    ensures
        match r {
            Ok(t) => match t {
                GetTarget::All => opts.all && opts.path is None,
                GetTarget::Single { reference } => !opts.all && match opts.path {
                    Some(p) => reference@ == p@,
                    None => false,
                },
            },
            Err(e) => e == SyncError::NotFound && (opts.all <==> opts.path is Some),
        },
{
    if opts.all {
        match &opts.path {
            Some(_) => Err(SyncError::NotFound),
            None => Ok(GetTarget::All),
        }
    } else {
        match &opts.path {
            Some(p) => Ok(GetTarget::Single { reference: clone_string(p) }),
            None => Err(SyncError::NotFound),
        }
    }
}

/// The local path a single download lands at: the chosen output path, or
/// the node's own name under the current directory.
pub fn effective_output(output: &Option<String>, node_name: &str) -> (r: String)
    ensures
        match output {
            Some(o) => r@ == o@,
            None => r@ == "."@ + path_sep() + node_name@,
        },
{
    match output {
        Some(o) => clone_string(o),
        None => join_path(".", node_name),
    }
}

/// The output directory a whole-forest download lands under: required,
/// since several roots cannot share one file path.
pub fn output_for_all(output: &Option<String>) -> (r: Result<String, SyncError>)
    ensures
        match r {
            Ok(o) => match output {
                Some(x) => o@ == x@,
                None => false,
            },
            Err(e) => e == SyncError::NotFound && output is None,
        },
{
    match output {
        Some(o) => Ok(clone_string(o)),
        None => Err(SyncError::NotFound),
    }
}

} // verus!
