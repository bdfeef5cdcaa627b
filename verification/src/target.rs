//! Classification of a probed filesystem location into a resolved target,
//! and the safety laws of resolution: a traversal or escape attempt is
//! always answered `Forbidden`, and every served path lies under the root.

use vstd::prelude::*;
use crate::path::{contained_in, is_contained, request_rejected, resolve_request, resolve_request_spec};

verus! {

/// What kind of object a canonical path names.
#[derive(PartialEq, Eq, Structural, Clone, Copy, Debug)]
pub enum NodeKind {
    Directory,
    File,
    /// Devices, sockets, fifos and the like; never served.
    Other,
}

/// The outcome of probing the filesystem for the joined request path:
/// canonicalization and a metadata lookup, reported back as plain values.
pub enum Probe {
    /// The path does not exist.
    Missing,
    /// The filesystem refused the lookup (permissions and other errors).
    Denied,
    /// The path exists; `canonical` is its fully resolved form (symlinks,
    /// `.` and `..` eliminated) and `kind` the object kind found there.
    Found { canonical: Vec<u8>, kind: NodeKind },
}

/// Mathematical image of a `Probe`.
pub enum ProbeModel {
    Missing,
    Denied,
    Found { canonical: Seq<u8>, kind: NodeKind },
}

impl View for Probe {
    type V = ProbeModel;

    open spec fn view(&self) -> ProbeModel {
        match self {
            Probe::Missing => ProbeModel::Missing,
            Probe::Denied => ProbeModel::Denied,
            Probe::Found { canonical, kind } => ProbeModel::Found {
                canonical: canonical@,
                kind: *kind,
            },
        }
    }
}

/// The outcome of resolving one request path.
pub enum ResolvedTarget {
    Directory(Vec<u8>),
    File(Vec<u8>),
    NotFound,
    Forbidden,
}

/// Mathematical image of a `ResolvedTarget`.
pub enum TargetModel {
    Directory(Seq<u8>),
    File(Seq<u8>),
    NotFound,
    Forbidden,
}

impl View for ResolvedTarget {
    type V = TargetModel;

    open spec fn view(&self) -> TargetModel {
        match self {
            ResolvedTarget::Directory(p) => TargetModel::Directory(p@),
            ResolvedTarget::File(p) => TargetModel::File(p@),
            ResolvedTarget::NotFound => TargetModel::NotFound,
            ResolvedTarget::Forbidden => TargetModel::Forbidden,
        }
    }
}

/// How a probe outcome is classified, given the canonical root: a missing
/// path is `NotFound`; a denied lookup is `Forbidden`; a found path is
/// served only if its canonical form stays inside the root and it is a
/// plain directory or regular file.
pub open spec fn classify_spec(root: Seq<u8>, probe: ProbeModel) -> TargetModel {
    match probe {
        ProbeModel::Missing => TargetModel::NotFound,
        ProbeModel::Denied => TargetModel::Forbidden,
        ProbeModel::Found { canonical, kind } => if !contained_in(root, canonical) {
            TargetModel::Forbidden
        } else {
            match kind {
                NodeKind::Directory => TargetModel::Directory(canonical),
                NodeKind::File => TargetModel::File(canonical),
                NodeKind::Other => TargetModel::Forbidden,
            }
        },
    }
}

/// Full resolution: a request whose decoded form is malformed or climbs
/// above the root is `Forbidden` before the filesystem is consulted;
/// otherwise the probe of the joined path decides.
pub open spec fn resolve_spec(root: Seq<u8>, request: Seq<u8>, probe: ProbeModel) -> TargetModel {
    if resolve_request_spec(root, request) is None {
        TargetModel::Forbidden
    } else {
        classify_spec(root, probe)
    }
}

/// Classifies a probe outcome against the canonical root.
pub fn classify(root: &Vec<u8>, probe: Probe) -> (t: ResolvedTarget)
    ensures
        t@ == classify_spec(root@, probe@),
{
    match probe {
        Probe::Missing => ResolvedTarget::NotFound,
        Probe::Denied => ResolvedTarget::Forbidden,
        Probe::Found { canonical, kind } => {
            if !is_contained(root, &canonical) {
                ResolvedTarget::Forbidden
            } else {
                match kind {
                    NodeKind::Directory => ResolvedTarget::Directory(canonical),
                    NodeKind::File => ResolvedTarget::File(canonical),
                    NodeKind::Other => ResolvedTarget::Forbidden,
                }
            }
        },
    }
}

/// Resolves one request: the pure rejection pass first, then the probe.
/// The caller obtains `probe` by canonicalizing and inspecting the path
/// that `resolve_request` returned for the same `root` and `request`.
pub fn resolve(root: &Vec<u8>, request: &Vec<u8>, probe: Probe) -> (t: ResolvedTarget)
    ensures
        t@ == resolve_spec(root@, request@, probe@),
{
    match resolve_request(root, request) {
        None => ResolvedTarget::Forbidden,
        Some(_) => classify(root, probe),
    }
}

/// A request that percent-decodes badly, or whose `..` segments would
/// resolve above the configured root, is answered `Forbidden` — whatever
/// the filesystem would have said.
pub proof fn lemma_traversal_forbidden(root: Seq<u8>, request: Seq<u8>, probe: ProbeModel)
    requires
        request_rejected(request),
    ensures
        resolve_spec(root, request, probe) == TargetModel::Forbidden,
{
}

/// A probe whose canonical path lies outside the root — however it got
/// there, symlinks included — is answered `Forbidden`.
pub proof fn lemma_escape_forbidden(root: Seq<u8>, request: Seq<u8>, canonical: Seq<u8>, kind: NodeKind)
    requires
        !contained_in(root, canonical),
    ensures
        resolve_spec(root, request, ProbeModel::Found { canonical, kind })
            == TargetModel::Forbidden,
{
}

/// The serving invariant: every resolved `Directory` or `File` target is
/// the probed canonical path, and that path lies inside the root.
pub proof fn lemma_target_contained(root: Seq<u8>, request: Seq<u8>, probe: ProbeModel)
    ensures
        match resolve_spec(root, request, probe) {
            TargetModel::Directory(p) => contained_in(root, p) && probe == (ProbeModel::Found {
                canonical: p,
                kind: NodeKind::Directory,
            }),
            TargetModel::File(p) => contained_in(root, p) && probe == (ProbeModel::Found {
                canonical: p,
                kind: NodeKind::File,
            }),
            TargetModel::NotFound => true,
            TargetModel::Forbidden => true,
        },
{
}

} // verus!
