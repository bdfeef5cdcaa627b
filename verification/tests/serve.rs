use fileshare::content::{content_type_for, extension_of};
use fileshare::dispatch::{handle, list_response, stream, Fetched, RootConfig};
use fileshare::listing::{list, EntryKind, ListingEntry};
use fileshare::target::{NodeKind, Probe};

fn b(s: &str) -> Vec<u8> {
    s.as_bytes().to_vec()
}

fn file_entry(name: &str, size: u64) -> ListingEntry {
    ListingEntry { name: b(name), kind: EntryKind::File, size }
}

fn dir_entry(name: &str) -> ListingEntry {
    ListingEntry { name: b(name), kind: EntryKind::Directory, size: 0 }
}

fn contains(haystack: &[u8], needle: &str) -> bool {
    let n = needle.as_bytes();
    haystack.windows(n.len()).any(|w| w == n)
}

#[test]
fn extension_is_taken_from_last_component() {
    assert_eq!(extension_of(&b("a.txt")), Some(b("txt")));
    assert_eq!(extension_of(&b("archive.tar.gz")), Some(b("gz")));
    assert_eq!(extension_of(&b("noext")), None);
    assert_eq!(extension_of(&b("dir.d/file")), None);
    assert_eq!(extension_of(&b("trailing.")), Some(b("")));
}

#[test]
fn content_types_by_extension() {
    assert_eq!(content_type_for(&b("/srv/files/a.txt")), b("text/plain"));
    assert_eq!(content_type_for(&b("page.html")), b("text/html"));
    assert_eq!(content_type_for(&b("img.jpeg")), b("image/jpeg"));
    assert_eq!(content_type_for(&b("doc.pdf")), b("application/pdf"));
    assert_eq!(content_type_for(&b("unknown.xyz")), b("application/octet-stream"));
    assert_eq!(content_type_for(&b("noext")), b("application/octet-stream"));
}

#[test]
fn stream_returns_exact_bytes_as_attachment() {
    let r = stream(&b("/srv/files/a.txt"), b("hello"));
    assert_eq!(r.status, 200);
    assert_eq!(r.body, b("hello"));
    assert!(r.attachment);
    assert_eq!(r.content_type, b("text/plain"));
}

#[test]
fn stream_keeps_inline_types_as_attachment() {
    // forced download is deliberate even for types a browser would render
    let r = stream(&b("page.html"), b("<html></html>"));
    assert!(r.attachment);
    assert_eq!(r.body, b("<html></html>"));
    let r2 = stream(&b("img.png"), vec![0x89, 0x50, 0x4e, 0x47]);
    assert!(r2.attachment);
    assert_eq!(r2.body, vec![0x89, 0x50, 0x4e, 0x47]);
}

#[test]
fn list_sorts_by_name() {
    let entries = vec![file_entry("b.txt", 1), dir_entry("a"), file_entry("c.txt", 2)];
    let sorted = list(&entries);
    let names: Vec<Vec<u8>> = sorted.iter().map(|e| e.name.clone()).collect();
    assert_eq!(names, vec![b("a"), b("b.txt"), b("c.txt")]);
}

#[test]
fn list_is_deterministic_across_input_orders() {
    // what concurrent workers see: the same children, in whatever order the
    // filesystem happened to hand them out
    let one = vec![file_entry("a.txt", 5), dir_entry("sub"), file_entry("z.bin", 9)];
    let two = vec![file_entry("z.bin", 9), file_entry("a.txt", 5), dir_entry("sub")];
    let s1 = list(&one);
    let s2 = list(&two);
    assert_eq!(s1.len(), s2.len());
    for (x, y) in s1.iter().zip(s2.iter()) {
        assert_eq!(x.name, y.name);
        assert_eq!(x.size, y.size);
        assert!(matches!(
            (x.kind, y.kind),
            (EntryKind::File, EntryKind::File) | (EntryKind::Directory, EntryKind::Directory)
        ));
    }
}

#[test]
fn listing_body_shows_names_sizes_and_links() {
    let entries = vec![file_entry("a.txt", 5), dir_entry("sub")];
    let r = list_response(&b("/download/files"), &entries);
    assert_eq!(r.status, 200);
    assert_eq!(r.content_type, b("text/html"));
    assert!(!r.attachment);
    assert!(contains(&r.body, "<a href=\"/download/files/a.txt\">a.txt (5 bytes)</a>"));
    assert!(contains(&r.body, "<a href=\"/download/files/sub/\">sub/</a>"));
}

#[test]
fn listing_renders_multidigit_sizes() {
    let entries = vec![file_entry("big.bin", 1234567890)];
    let r = list_response(&b("/download/files"), &entries);
    assert!(contains(&r.body, "big.bin (1234567890 bytes)"));
    let zero = list_response(&b("/download/files"), &vec![file_entry("z", 0)]);
    assert!(contains(&zero.body, "z (0 bytes)"));
}

#[test]
fn scenario_root_listing_file_traversal_and_missing() {
    // root holds a.txt (5 bytes, "hello") and the empty subdirectory sub
    let root = b("/srv/files");
    let prefix = b("/download/files");
    let get = b("GET");

    let listing = handle(
        &get,
        &prefix,
        &b("/download/files"),
        &root,
        Probe::Found { canonical: b("/srv/files"), kind: NodeKind::Directory },
        Fetched::DirEntries(vec![dir_entry("sub"), file_entry("a.txt", 5)]),
    );
    assert_eq!(listing.status, 200);
    assert!(contains(&listing.body, "a.txt (5 bytes)"));
    assert!(contains(&listing.body, "sub/"));

    let file = handle(
        &get,
        &prefix,
        &b("/download/files/a.txt"),
        &root,
        Probe::Found { canonical: b("/srv/files/a.txt"), kind: NodeKind::File },
        Fetched::FileContent(b("hello")),
    );
    assert_eq!(file.status, 200);
    assert_eq!(file.body, b("hello"));
    assert!(file.attachment);

    let traversal = handle(
        &get,
        &prefix,
        &b("/download/files/../etc/passwd"),
        &root,
        Probe::Missing,
        Fetched::NotNeeded,
    );
    assert_eq!(traversal.status, 403);

    let missing = handle(
        &get,
        &prefix,
        &b("/download/files/missing.txt"),
        &root,
        Probe::Missing,
        Fetched::NotNeeded,
    );
    assert_eq!(missing.status, 404);
}

#[test]
fn identical_requests_yield_identical_responses() {
    let root = b("/srv/files");
    let prefix = b("/download/files");
    let get = b("GET");
    let once = handle(
        &get,
        &prefix,
        &b("/download/files"),
        &root,
        Probe::Found { canonical: b("/srv/files"), kind: NodeKind::Directory },
        Fetched::DirEntries(vec![file_entry("a.txt", 5), dir_entry("sub")]),
    );
    let again = handle(
        &get,
        &prefix,
        &b("/download/files"),
        &root,
        Probe::Found { canonical: b("/srv/files"), kind: NodeKind::Directory },
        Fetched::DirEntries(vec![file_entry("a.txt", 5), dir_entry("sub")]),
    );
    assert_eq!(once.status, again.status);
    assert_eq!(once.content_type, again.content_type);
    assert_eq!(once.attachment, again.attachment);
    assert_eq!(once.body, again.body);
}

#[test]
fn non_get_and_foreign_routes_are_refused() {
    let root = b("/srv/files");
    let prefix = b("/download/files");
    let post = handle(
        &b("POST"),
        &prefix,
        &b("/download/files"),
        &root,
        Probe::Missing,
        Fetched::NotNeeded,
    );
    assert_eq!(post.status, 405);
    let other = handle(
        &b("GET"),
        &prefix,
        &b("/health"),
        &root,
        Probe::Missing,
        Fetched::NotNeeded,
    );
    assert_eq!(other.status, 404);
}

#[test]
fn races_after_resolution_map_to_missing_or_error() {
    let root = b("/srv/files");
    let prefix = b("/download/files");
    let get = b("GET");
    let gone = handle(
        &get,
        &prefix,
        &b("/download/files/a.txt"),
        &root,
        Probe::Found { canonical: b("/srv/files/a.txt"), kind: NodeKind::File },
        Fetched::ReadFailed { now_missing: true },
    );
    assert_eq!(gone.status, 404);
    let broken = handle(
        &get,
        &prefix,
        &b("/download/files"),
        &root,
        Probe::Found { canonical: b("/srv/files"), kind: NodeKind::Directory },
        Fetched::ReadFailed { now_missing: false },
    );
    assert_eq!(broken.status, 500);
}

#[test]
fn symlink_escape_is_forbidden_not_missing() {
    // the canonical form of a symlinked path points outside the root: the
    // answer is 403, whether or not the target exists
    let root = b("/srv/files");
    let prefix = b("/download/files");
    let r = handle(
        &b("GET"),
        &prefix,
        &b("/download/files/link"),
        &root,
        Probe::Found { canonical: b("/etc/passwd"), kind: NodeKind::File },
        Fetched::NotNeeded,
    );
    assert_eq!(r.status, 403);
}

#[test]
fn config_dispatch_matches_free_dispatch() {
    let cfg = RootConfig::new(b("/srv/files"), b("/download/files"));
    let r = cfg.handle_request(
        &b("GET"),
        &b("/download/files/a.txt"),
        Probe::Found { canonical: b("/srv/files/a.txt"), kind: NodeKind::File },
        Fetched::FileContent(b("hello")),
    );
    assert_eq!(r.status, 200);
    assert_eq!(r.body, b("hello"));
    assert!(r.attachment);
}

#[test]
fn empty_directory_lists_empty() {
    let r = list_response(&b("/download/files/sub"), &Vec::new());
    assert_eq!(r.status, 200);
    assert_eq!(r.body, b("<html><body><ul></ul></body></html>"));
}

#[test]
fn zero_byte_file_streams_empty_body() {
    let r = stream(&b("empty.bin"), Vec::new());
    assert_eq!(r.status, 200);
    assert!(r.body.is_empty());
    assert!(r.attachment);
}
