//! The request dispatcher: one resolve, then exactly one terminal action.
//!
//! Every response is an exact function of the request and of the plain
//! values the filesystem probe and fetch reported, so repeating a request
//! against an unchanged tree provably yields the identical response.

use vstd::prelude::*;
use vstd::relations::sorted_by;
use vstd::seq_lib::lemma_sorted_unique;
use crate::content::{content_type_for, content_type_spec};
use crate::listing::{
    bytes_eq, entry_order, lemma_entry_order_total, list, EntryModel, ListingEntry,
};
use crate::path::{copy_bytes, push_bytes};
use crate::render::{render_listing, render_listing_spec};
use crate::target::{resolve, resolve_spec, Probe, ProbeModel, ResolvedTarget, TargetModel};
use crate::text::{bytes_of, lit};

verus! {

/// One HTTP response, reduced to what this subsystem decides: the status,
/// the content type, whether the body is offered as a forced download, and
/// the body bytes.
pub struct Response {
    pub status: u16,
    pub content_type: Vec<u8>,
    pub attachment: bool,
    pub body: Vec<u8>,
}

/// Mathematical image of a `Response`.
pub struct ResponseModel {
    pub status: u16,
    pub content_type: Seq<u8>,
    pub attachment: bool,
    pub body: Seq<u8>,
}

impl View for Response {
    type V = ResponseModel;

    open spec fn view(&self) -> ResponseModel {
        ResponseModel {
            status: self.status,
            content_type: self.content_type@,
            attachment: self.attachment,
            body: self.body@,
        }
    }
}

/// The terse body served with an error status.
pub open spec fn error_body_spec(status: u16) -> Seq<u8> {
    if status == 403 {
        lit("403 Forbidden")
    } else if status == 404 {
        lit("404 Not Found")
    } else if status == 405 {
        lit("405 Method Not Allowed")
    } else {
        lit("500 Internal Server Error")
    }
}

/// An error response: plain text, never an attachment.
pub open spec fn error_response_spec(status: u16) -> ResponseModel {
    ResponseModel {
        status,
        content_type: lit("text/plain"),
        attachment: false,
        body: error_body_spec(status),
    }
}

/// Builds the error response for a status.
pub fn respond_error(status: u16) -> (r: Response)
    ensures
        r@ == error_response_spec(status),
{
    let body = if status == 403 {
        bytes_of("403 Forbidden")
    } else if status == 404 {
        bytes_of("404 Not Found")
    } else if status == 405 {
        bytes_of("405 Method Not Allowed")
    } else {
        bytes_of("500 Internal Server Error")
    };
    Response { status, content_type: bytes_of("text/plain"), attachment: false, body }
}

/// A served file: its exact bytes, under the content type of its path's
/// extension, always as a forced download — never rendered inline.
pub open spec fn file_response_spec(path: Seq<u8>, content: Seq<u8>) -> ResponseModel {
    ResponseModel {
        status: 200,
        content_type: content_type_spec(path),
        attachment: true,
        body: content,
    }
}

/// Streams a resolved regular file: the body is the file's content,
/// byte for byte, with attachment disposition.
pub fn stream(path: &Vec<u8>, content: Vec<u8>) -> (r: Response)
    ensures
        r@ == file_response_spec(path@, content@),
{
    Response {
        status: 200,
        content_type: content_type_for(path),
        attachment: true,
        body: content,
    }
}

/// A served listing: the directory's entries in the unique sorted order,
/// rendered over the request's own URL as link base.
pub open spec fn dir_response_spec(base: Seq<u8>, entries: Seq<EntryModel>) -> ResponseModel {
    ResponseModel {
        status: 200,
        content_type: lit("text/html"),
        attachment: false,
        body: render_listing_spec(base, entries.sort_by(entry_order())),
    }
}

/// Sorts and renders a directory's immediate children.
pub fn list_response(base: &Vec<u8>, entries: &Vec<ListingEntry>) -> (r: Response)
    ensures
        r@ == dir_response_spec(base@, entries.deep_view()),
{
    let sorted = list(entries);
    proof {
        lemma_entry_order_total();
        entries.deep_view().lemma_sort_by_ensures(entry_order());
        lemma_sorted_unique(
            sorted.deep_view(),
            entries.deep_view().sort_by(entry_order()),
            entry_order(),
        );
    }
    let body = render_listing(base, &sorted);
    Response { status: 200, content_type: bytes_of("text/html"), attachment: false, body }
}

/// The URL path with the mount prefix removed; `None` when the path does
/// not begin with the prefix and the route is not ours at all.
pub open spec fn strip_prefix_spec(prefix: Seq<u8>, url: Seq<u8>) -> Option<Seq<u8>> {
    if url.len() >= prefix.len() && url.subrange(0, prefix.len() as int) == prefix {
        Some(url.skip(prefix.len() as int))
    } else {
        None
    }
}

/// Strips the mount prefix from a URL path.
pub fn strip_prefix(prefix: &Vec<u8>, url: &Vec<u8>) -> (r: Option<Vec<u8>>)
    ensures
        r is Some <==> strip_prefix_spec(prefix@, url@) is Some,
        r matches Some(rest) ==> strip_prefix_spec(prefix@, url@) == Some(rest@),
{
    if url.len() < prefix.len() {
        return None;
    }
    let mut i: usize = 0;
    while i < prefix.len()
        invariant
            i <= prefix.len(),
            prefix.len() <= url.len(),
            forall|j: int| 0 <= j < i ==> url@[j] == prefix@[j],
        decreases prefix.len() - i,
    {
        if url[i] != prefix[i] {
            proof {
                if url@.subrange(0, prefix@.len() as int) == prefix@ {
                    assert(url@.subrange(0, prefix@.len() as int)[i as int] == url@[i as int]);
                    assert(false);
                }
            }
            return None;
        }
        i = i + 1;
    }
    proof {
        assert(url@.subrange(0, prefix@.len() as int) =~= prefix@);
    }
    let mut rest: Vec<u8> = Vec::new();
    let mut k: usize = prefix.len();
    while k < url.len()
        invariant
            prefix.len() <= k <= url.len(),
            rest@ == url@.subrange(prefix@.len() as int, k as int),
        decreases url.len() - k,
    {
        proof {
            assert(url@.subrange(prefix@.len() as int, k as int).push(url@[k as int])
                =~= url@.subrange(prefix@.len() as int, k + 1));
        }
        rest.push(url[k]);
        k = k + 1;
    }
    proof {
        assert(url@.subrange(prefix@.len() as int, url@.len() as int) =~= url@.skip(
            prefix@.len() as int,
        ));
    }
    Some(rest)
}

/// What a fetch against the resolved target reported, as plain values.
pub enum Fetched {
    /// The immediate children of a resolved directory.
    DirEntries(Vec<ListingEntry>),
    /// The full content of a resolved regular file.
    FileContent(Vec<u8>),
    /// The read failed after resolution — the accepted check-then-use race;
    /// `now_missing` says whether the object had disappeared by then.
    ReadFailed { now_missing: bool },
    /// Nothing was fetched because the target needs no fetch.
    NotNeeded,
}

/// Mathematical image of a `Fetched`.
pub enum FetchedModel {
    DirEntries(Seq<EntryModel>),
    FileContent(Seq<u8>),
    ReadFailed { now_missing: bool },
    NotNeeded,
}

impl View for Fetched {
    type V = FetchedModel;

    open spec fn view(&self) -> FetchedModel {
        match self {
            Fetched::DirEntries(es) => FetchedModel::DirEntries(es.deep_view()),
            Fetched::FileContent(c) => FetchedModel::FileContent(c@),
            Fetched::ReadFailed { now_missing } => FetchedModel::ReadFailed {
                now_missing: *now_missing,
            },
            Fetched::NotNeeded => FetchedModel::NotNeeded,
        }
    }
}

/// The fetch matches the target it was made for: entries for a directory,
/// content for a file, either possibly failed.
pub open spec fn fetched_compatible(t: TargetModel, f: FetchedModel) -> bool {
    match t {
        TargetModel::Directory(_) => f is DirEntries || f is ReadFailed,
        TargetModel::File(_) => f is FileContent || f is ReadFailed,
        TargetModel::NotFound => true,
        TargetModel::Forbidden => true,
    }
}

/// The response to a read that failed after resolution: `404` when the
/// object is gone, `500` otherwise.
pub open spec fn read_failed_response_spec(now_missing: bool) -> ResponseModel {
    if now_missing {
        error_response_spec(404)
    } else {
        error_response_spec(500)
    }
}

/// The response of the whole dispatch, as an exact function of the request
/// line and of what the filesystem reported.
pub open spec fn handle_spec(
    method: Seq<u8>,
    prefix: Seq<u8>,
    url: Seq<u8>,
    root: Seq<u8>,
    probe: ProbeModel,
    fetched: FetchedModel,
) -> ResponseModel {
    if method != lit("GET") {
        error_response_spec(405)
    } else {
        match strip_prefix_spec(prefix, url) {
            None => error_response_spec(404),
            Some(rest) => match resolve_spec(root, rest, probe) {
                TargetModel::Forbidden => error_response_spec(403),
                TargetModel::NotFound => error_response_spec(404),
                TargetModel::Directory(_) => match fetched {
                    FetchedModel::DirEntries(es) => dir_response_spec(prefix + rest, es),
                    FetchedModel::ReadFailed { now_missing } => read_failed_response_spec(
                        now_missing,
                    ),
                    _ => arbitrary(),
                },
                TargetModel::File(p) => match fetched {
                    FetchedModel::FileContent(c) => file_response_spec(p, c),
                    FetchedModel::ReadFailed { now_missing } => read_failed_response_spec(
                        now_missing,
                    ),
                    _ => arbitrary(),
                },
            },
        }
    }
}

/// Dispatches one request. The caller probed the filesystem for the path
/// `resolve_request` produced, and fetched entries or content for the
/// classified target; everything else — including every rejection — is
/// decided here.
pub fn handle(
    method: &Vec<u8>,
    prefix: &Vec<u8>,
    url: &Vec<u8>,
    root: &Vec<u8>,
    probe: Probe,
    fetched: Fetched,
) -> (r: Response)
    requires
        (match strip_prefix_spec(prefix@, url@) {
            Some(rest) => fetched_compatible(resolve_spec(root@, rest, probe@), fetched@),
            None => true,
        }),
    ensures
        r@ == handle_spec(method@, prefix@, url@, root@, probe@, fetched@),
{
    let get = bytes_of("GET");
    if !bytes_eq(method, &get) {
        return respond_error(405);
    }
    match strip_prefix(prefix, url) {
        None => respond_error(404),
        Some(rest) => {
            match resolve(root, &rest, probe) {
                ResolvedTarget::Forbidden => respond_error(403),
                ResolvedTarget::NotFound => respond_error(404),
                ResolvedTarget::Directory(_) => match fetched {
                    Fetched::DirEntries(es) => {
                        let mut base = copy_bytes(prefix);
                        push_bytes(&mut base, &rest);
                        list_response(&base, &es)
                    },
                    Fetched::ReadFailed { now_missing } => {
                        if now_missing {
                            respond_error(404)
                        } else {
                            respond_error(500)
                        }
                    },
                    _ => {
                        proof {
                            assert(false);
                        }
                        respond_error(500)
                    },
                },
                ResolvedTarget::File(p) => match fetched {
                    Fetched::FileContent(c) => stream(&p, c),
                    Fetched::ReadFailed { now_missing } => {
                        if now_missing {
                            respond_error(404)
                        } else {
                            respond_error(500)
                        }
                    },
                    _ => {
                        proof {
                            assert(false);
                        }
                        respond_error(500)
                    },
                },
            }
        },
    }
}

/// The immutable serving configuration: the filesystem root that bounds
/// everything served, in canonical form, and the URL prefix the routes are
/// mounted under. Built once at startup and shared read-only by every
/// worker; nothing in this library ever mutates it.
#[derive(Clone)]
pub struct RootConfig {
    pub root: Vec<u8>,
    pub prefix: Vec<u8>,
}

impl RootConfig {
    /// Packs the canonical root and the URL prefix.
    pub fn new(root: Vec<u8>, prefix: Vec<u8>) -> (c: RootConfig)
        ensures
            c.root@ == root@,
            c.prefix@ == prefix@,
    {
        RootConfig { root, prefix }
    }

    /// Dispatches one request under this configuration.
    pub fn handle_request(
        &self,
        method: &Vec<u8>,
        url: &Vec<u8>,
        probe: Probe,
        fetched: Fetched,
    ) -> (r: Response)
        requires
            (match strip_prefix_spec(self.prefix@, url@) {
                Some(rest) => fetched_compatible(
                    resolve_spec(self.root@, rest, probe@),
                    fetched@,
                ),
                None => true,
            }),
        ensures
            r@ == handle_spec(method@, self.prefix@, url@, self.root@, probe@, fetched@),
    {
        handle(method, &self.prefix, url, &self.root, probe, fetched)
    }
}

/// Idempotence of the dispatcher: the response is a function of the
/// request and of the filesystem facts alone, so issuing the same request
/// twice with no intervening filesystem change — the probe and the fetch
/// report the same values — yields the identical response.
pub proof fn lemma_handle_idempotent(
    method: Seq<u8>,
    prefix: Seq<u8>,
    url: Seq<u8>,
    root: Seq<u8>,
    probe: ProbeModel,
    fetched: FetchedModel,
    r1: ResponseModel,
    r2: ResponseModel,
)
    requires
        r1 == handle_spec(method, prefix, url, root, probe, fetched),
        r2 == handle_spec(method, prefix, url, root, probe, fetched),
    ensures
        r1 == r2,
{
}

/// Agreement across workers: every listing response computed from the same
/// unmodified directory carries the same body — any sorted permutation of
/// the same children renders identically, because the sorted order is
/// unique.
pub proof fn lemma_workers_agree(
    base: Seq<u8>,
    input: Seq<EntryModel>,
    a: Seq<EntryModel>,
    b: Seq<EntryModel>,
)
    requires
        sorted_by(a, entry_order()),
        a.to_multiset() == input.to_multiset(),
        sorted_by(b, entry_order()),
        b.to_multiset() == input.to_multiset(),
    ensures
        render_listing_spec(base, a) == render_listing_spec(base, b),
{
    crate::listing::lemma_listing_agreement(input, a, b);
}

} // verus!
