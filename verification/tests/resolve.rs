use fileshare::path::{is_contained, percent_decode, resolve_request};
use fileshare::target::{classify, resolve, NodeKind, Probe, ResolvedTarget};

fn b(s: &str) -> Vec<u8> {
    s.as_bytes().to_vec()
}

#[test]
fn decode_plain_passthrough() {
    assert_eq!(percent_decode(&b("a.txt")), Some(b("a.txt")));
    assert_eq!(percent_decode(&b("")), Some(b("")));
}

#[test]
fn decode_hex_escapes() {
    assert_eq!(percent_decode(&b("%41%62c")), Some(b("Abc")));
    assert_eq!(percent_decode(&b("a%20b")), Some(b("a b")));
    assert_eq!(percent_decode(&b("%2e%2E")), Some(b("..")));
}

#[test]
fn decode_rejects_malformed() {
    assert_eq!(percent_decode(&b("%4")), None);
    assert_eq!(percent_decode(&b("%zz")), None);
    assert_eq!(percent_decode(&b("abc%")), None);
}

#[test]
fn resolve_request_joins_under_root() {
    let root = b("/srv/files");
    assert_eq!(resolve_request(&root, &b("a.txt")), Some(b("/srv/files/a.txt")));
    assert_eq!(resolve_request(&root, &b("sub/x")), Some(b("/srv/files/sub/x")));
    assert_eq!(resolve_request(&root, &b("")), Some(b("/srv/files")));
}

#[test]
fn resolve_request_normalizes_segments() {
    let root = b("/srv/files");
    assert_eq!(resolve_request(&root, &b("a//b/./c/../d")), Some(b("/srv/files/a/b/d")));
    assert_eq!(resolve_request(&root, &b("a/..")), Some(b("/srv/files")));
    assert_eq!(resolve_request(&root, &b("./")), Some(b("/srv/files")));
}

#[test]
fn resolve_request_rejects_traversal() {
    let root = b("/srv/files");
    assert_eq!(resolve_request(&root, &b("../etc/passwd")), None);
    assert_eq!(resolve_request(&root, &b("a/../../etc")), None);
    // encoding tricks decode to the same traversal and are rejected too
    assert_eq!(resolve_request(&root, &b("%2e%2e/etc/passwd")), None);
    assert_eq!(resolve_request(&root, &b("..%2fetc")), None);
}

#[test]
fn containment_requires_separator_boundary() {
    let root = b("/srv/files");
    assert!(is_contained(&root, &b("/srv/files")));
    assert!(is_contained(&root, &b("/srv/files/a.txt")));
    assert!(!is_contained(&root, &b("/srv/filesx")));
    assert!(!is_contained(&root, &b("/srv")));
    assert!(!is_contained(&root, &b("/etc/passwd")));
}

#[test]
fn classify_probe_outcomes() {
    let root = b("/srv/files");
    assert!(matches!(classify(&root, Probe::Missing), ResolvedTarget::NotFound));
    assert!(matches!(classify(&root, Probe::Denied), ResolvedTarget::Forbidden));
    let dir = classify(
        &root,
        Probe::Found { canonical: b("/srv/files/sub"), kind: NodeKind::Directory },
    );
    match dir {
        ResolvedTarget::Directory(p) => assert_eq!(p, b("/srv/files/sub")),
        _ => panic!("expected a directory target"),
    }
    let file = classify(
        &root,
        Probe::Found { canonical: b("/srv/files/a.txt"), kind: NodeKind::File },
    );
    match file {
        ResolvedTarget::File(p) => assert_eq!(p, b("/srv/files/a.txt")),
        _ => panic!("expected a file target"),
    }
}

#[test]
fn classify_rejects_escapes_and_special_files() {
    let root = b("/srv/files");
    // a symlink inside the tree canonicalized to a target outside it
    assert!(matches!(
        classify(&root, Probe::Found { canonical: b("/etc/passwd"), kind: NodeKind::File }),
        ResolvedTarget::Forbidden
    ));
    assert!(matches!(
        classify(
            &root,
            Probe::Found { canonical: b("/srv/files/fifo"), kind: NodeKind::Other },
        ),
        ResolvedTarget::Forbidden
    ));
}

#[test]
fn resolve_rejected_request_ignores_probe() {
    let root = b("/srv/files");
    // even a probe that claims an in-root file cannot rescue a traversal
    let r = resolve(
        &root,
        &b("../etc/passwd"),
        Probe::Found { canonical: b("/srv/files/a.txt"), kind: NodeKind::File },
    );
    assert!(matches!(r, ResolvedTarget::Forbidden));
}
