//! Content types for streamed files, determined by file extension.
//!
//! The extension is read from the final path component only: the scan from
//! the right stops at a `/`, so a dot in a parent directory's name never
//! counts.

use vstd::prelude::*;
use crate::path::{DOT, SLASH};
use crate::listing::bytes_eq;
use crate::text::{bytes_of, lit};

verus! {

/// The extension of the last path component: the bytes after its last `.`,
/// or `None` when the component has no dot.
pub open spec fn extension_spec(name: Seq<u8>) -> Option<Seq<u8>>
    decreases name.len(),
{
    if name.len() == 0 {
        None
    } else if name.last() == DOT {
        Some(Seq::empty())
    } else if name.last() == SLASH {
        None
    } else {
        match extension_spec(name.drop_last()) {
            Some(e) => Some(e.push(name.last())),
            None => None,
        }
    }
}

proof fn lemma_extension_after_dot(name: Seq<u8>, j: int)
    requires
        0 <= j < name.len(),
        name[j] == DOT,
        forall|k: int| j < k < name.len() ==> name[k] != DOT && name[k] != SLASH,
    ensures
        extension_spec(name) == Some(name.subrange(j + 1, name.len() as int)),
    decreases name.len(),
{
    if j == name.len() - 1 {
        assert(name.subrange(j + 1, name.len() as int) =~= Seq::<u8>::empty());
    } else {
        lemma_extension_after_dot(name.drop_last(), j);
        let prev = name.drop_last().subrange(j + 1, name.len() - 1);
        assert(prev.push(name.last()) =~= name.subrange(j + 1, name.len() as int));
    }
}

proof fn lemma_extension_none(name: Seq<u8>, j: int)
    requires
        -1 <= j < name.len(),
        j >= 0 ==> name[j] == SLASH,
        forall|k: int| j < k < name.len() ==> name[k] != DOT && name[k] != SLASH,
    ensures
        extension_spec(name) is None,
    decreases name.len(),
{
    if name.len() == 0 {
    } else if j == name.len() - 1 {
    } else {
        lemma_extension_none(name.drop_last(), j);
    }
}

/// Finds the extension of the last path component.
pub fn extension_of(name: &Vec<u8>) -> (r: Option<Vec<u8>>)
    ensures
        r is Some <==> extension_spec(name@) is Some,
        r matches Some(e) ==> extension_spec(name@) == Some(e@),
{
    let mut i: usize = name.len();
    while i > 0
        invariant
            i <= name.len(),
            forall|k: int| i <= k < name.len() ==> name@[k] != DOT && name@[k] != SLASH,
        decreases i,
    {
        let b = name[i - 1];
        if b == DOT {
            let mut ext: Vec<u8> = Vec::new();
            let mut k: usize = i;
            while k < name.len()
                invariant
                    i <= k <= name.len(),
                    ext@ == name@.subrange(i as int, k as int),
                decreases name.len() - k,
            {
                proof {
                    assert(name@.subrange(i as int, k as int).push(name@[k as int])
                        =~= name@.subrange(i as int, k + 1));
                }
                ext.push(name[k]);
                k = k + 1;
            }
            proof {
                lemma_extension_after_dot(name@, i - 1);
            }
            return Some(ext);
        }
        if b == SLASH {
            proof {
                lemma_extension_none(name@, i - 1);
            }
            return None;
        }
        i = i - 1;
    }
    proof {
        lemma_extension_none(name@, -1);
    }
    None
}

/// The content type served for an extension, by the usual static map;
/// anything unknown is generic binary.
pub open spec fn type_of_extension(e: Seq<u8>) -> Seq<u8> {
    if e == lit("txt") {
        lit("text/plain")
    } else if e == lit("html") || e == lit("htm") {
        lit("text/html")
    } else if e == lit("css") {
        lit("text/css")
    } else if e == lit("js") {
        lit("application/javascript")
    } else if e == lit("json") {
        lit("application/json")
    } else if e == lit("png") {
        lit("image/png")
    } else if e == lit("jpg") || e == lit("jpeg") {
        lit("image/jpeg")
    } else if e == lit("gif") {
        lit("image/gif")
    } else if e == lit("svg") {
        lit("image/svg+xml")
    } else if e == lit("pdf") {
        lit("application/pdf")
    } else if e == lit("zip") {
        lit("application/zip")
    } else {
        lit("application/octet-stream")
    }
}

/// The content type served for a path: by the extension of its last
/// component, generic binary when there is none.
pub open spec fn content_type_spec(name: Seq<u8>) -> Seq<u8> {
    match extension_spec(name) {
        Some(e) => type_of_extension(e),
        None => lit("application/octet-stream"),
    }
}

/// Compares an extension against literal text.
fn ext_is(e: &Vec<u8>, s: &str) -> (r: bool)
    ensures
        r == (e@ == lit(s)),
{
    let b = bytes_of(s);
    bytes_eq(e, &b)
}

/// Determines the content type for a file path.
pub fn content_type_for(name: &Vec<u8>) -> (r: Vec<u8>)
    ensures
        r@ == content_type_spec(name@),
{
    match extension_of(name) {
        None => bytes_of("application/octet-stream"),
        Some(e) => {
            if ext_is(&e, "txt") {
                bytes_of("text/plain")
            } else if ext_is(&e, "html") || ext_is(&e, "htm") {
                bytes_of("text/html")
            } else if ext_is(&e, "css") {
                bytes_of("text/css")
            } else if ext_is(&e, "js") {
                bytes_of("application/javascript")
            } else if ext_is(&e, "json") {
                bytes_of("application/json")
            } else if ext_is(&e, "png") {
                bytes_of("image/png")
            } else if ext_is(&e, "jpg") || ext_is(&e, "jpeg") {
                bytes_of("image/jpeg")
            } else if ext_is(&e, "gif") {
                bytes_of("image/gif")
            } else if ext_is(&e, "svg") {
                bytes_of("image/svg+xml")
            } else if ext_is(&e, "pdf") {
                bytes_of("application/pdf")
            } else if ext_is(&e, "zip") {
                bytes_of("application/zip")
            } else {
                bytes_of("application/octet-stream")
            }
        },
    }
}

} // verus!
