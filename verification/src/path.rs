//! Path resolution: percent-decoding, segment splitting and normalization,
//! joining under the root, and containment checks on canonical paths.
//!
//! All functions here are pure: they map request bytes to filesystem path
//! bytes (or reject them), and never touch the filesystem themselves.

use vstd::prelude::*;

verus! {

/// ASCII code of `/`.
pub const SLASH: u8 = 0x2f;

/// ASCII code of `.`.
pub const DOT: u8 = 0x2e;

/// ASCII code of `%`.
pub const PERCENT: u8 = 0x25;

/// True of the bytes that are hexadecimal digits.
pub open spec fn is_hex_digit(b: u8) -> bool {
    (0x30 <= b <= 0x39) || (0x41 <= b <= 0x46) || (0x61 <= b <= 0x66)
}

/// Numeric value of a hexadecimal digit byte.
pub open spec fn hex_val(b: u8) -> u8
    recommends
        is_hex_digit(b),
{
    if 0x30 <= b <= 0x39 {
        (b - 0x30) as u8
    } else if 0x41 <= b <= 0x46 {
        (b - 0x41 + 10) as u8
    } else {
        (b - 0x61 + 10) as u8
    }
}

/// Turns a hexadecimal digit byte into its value; `None` on any other byte.
pub fn hex_value(b: u8) -> (r: Option<u8>)
    ensures
        r is Some <==> is_hex_digit(b),
        r is Some ==> r == Some(hex_val(b)) && hex_val(b) < 16,
{
    if 0x30 <= b && b <= 0x39 {
        Some(b - 0x30)
    } else if 0x41 <= b && b <= 0x46 {
        Some(b - 0x41 + 10)
    } else if 0x61 <= b && b <= 0x66 {
        Some(b - 0x61 + 10)
    } else {
        None
    }
}

/// Percent-decoding of a byte string: every `%xy` with two hexadecimal
/// digits becomes the byte `16*x + y`; a `%` not followed by two such
/// digits makes the whole string malformed (`None`).
pub open spec fn decode_spec(s: Seq<u8>) -> Option<Seq<u8>>
    decreases s.len(),
{
    if s.len() == 0 {
        Some(Seq::empty())
    } else if s[0] == PERCENT {
        if s.len() >= 3 && is_hex_digit(s[1]) && is_hex_digit(s[2]) {
            match decode_spec(s.subrange(3, s.len() as int)) {
                Some(rest) => Some(
                    seq![((hex_val(s[1]) as int) * 16 + (hex_val(s[2]) as int)) as u8] + rest,
                ),
                None => None,
            }
        } else {
            None
        }
    } else {
        match decode_spec(s.subrange(1, s.len() as int)) {
            Some(rest) => Some(seq![s[0]] + rest),
            None => None,
        }
    }
}

/// Prepends already-decoded bytes onto a pending decode outcome.
pub open spec fn decode_prepend(p: Seq<u8>, o: Option<Seq<u8>>) -> Option<Seq<u8>> {
    match o {
        Some(r) => Some(p + r),
        None => None,
    }
}

/// Percent-decodes `s`; `None` exactly on malformed input.
pub fn percent_decode(s: &Vec<u8>) -> (r: Option<Vec<u8>>)
    ensures
        r is Some <==> decode_spec(s@) is Some,
        r matches Some(v) ==> decode_spec(s@) == Some(v@),
{
    let mut out: Vec<u8> = Vec::new();
    let mut i: usize = 0;
    proof {
        assert(s@.skip(0) =~= s@);
        if decode_spec(s@) is Some {
            assert(out@ + decode_spec(s@).unwrap() =~= decode_spec(s@).unwrap());
        }
    }
    while i < s.len()
        invariant
            i <= s.len(),
            decode_spec(s@) == decode_prepend(out@, decode_spec(s@.skip(i as int))),
        decreases s.len() - i,
    {
        let b = s[i];
        proof {
            assert(s@.skip(i as int)[0] == s@[i as int]);
        }
        if b == PERCENT {
            if s.len() - i >= 3 {
                let h1 = hex_value(s[i + 1]);
                let h2 = hex_value(s[i + 2]);
                proof {
                    assert(s@.skip(i as int)[1] == s@[i + 1]);
                    assert(s@.skip(i as int)[2] == s@[i + 2]);
                }
                match (h1, h2) {
                    (Some(v1), Some(v2)) => {
                        let v: u8 = v1 * 16 + v2;
                        proof {
                            let tail = s@.skip(i as int);
                            assert(tail.subrange(3, tail.len() as int) =~= s@.skip(i + 3));
                            let d3 = decode_spec(s@.skip(i + 3));
                            if d3 is Some {
                                assert((out@ + (seq![v] + d3.unwrap())) =~= (out@.push(v)
                                    + d3.unwrap()));
                            }
                        }
                        out.push(v);
                        i = i + 3;
                    },
                    _ => {
                        return None;
                    },
                }
            } else {
                return None;
            }
        } else {
            proof {
                let tail = s@.skip(i as int);
                assert(tail.subrange(1, tail.len() as int) =~= s@.skip(i + 1));
                let d1 = decode_spec(s@.skip(i + 1));
                if d1 is Some {
                    assert((out@ + (seq![b] + d1.unwrap())) =~= (out@.push(b) + d1.unwrap()));
                }
            }
            out.push(b);
            i = i + 1;
        }
    }
    proof {
        assert(s@.skip(i as int) =~= Seq::<u8>::empty());
        assert(out@ + Seq::<u8>::empty() =~= out@);
    }
    Some(out)
}

/// Splits decoded bytes on `/`, accumulating the current segment in `cur`.
/// A trailing or doubled `/` yields empty segments, which normalization
/// later drops.
pub open spec fn split_rec(s: Seq<u8>, cur: Seq<u8>) -> Seq<Seq<u8>>
    decreases s.len(),
{
    if s.len() == 0 {
        seq![cur]
    } else if s[0] == SLASH {
        seq![cur] + split_rec(s.skip(1), Seq::empty())
    } else {
        split_rec(s.skip(1), cur.push(s[0]))
    }
}

/// Splits `s` into its `/`-separated segments.
pub fn split_segments(s: &Vec<u8>) -> (r: Vec<Vec<u8>>)
    ensures
        r.deep_view() == split_rec(s@, Seq::empty()),
{
    let mut out: Vec<Vec<u8>> = Vec::new();
    let mut cur: Vec<u8> = Vec::new();
    let mut i: usize = 0;
    proof {
        assert(s@.skip(0) =~= s@);
        assert(out.deep_view() + split_rec(s@, Seq::empty()) =~~= split_rec(s@, Seq::empty()));
    }
    while i < s.len()
        invariant
            i <= s.len(),
            split_rec(s@, Seq::empty()) == out.deep_view() + split_rec(s@.skip(i as int), cur@),
        decreases s.len() - i,
    {
        let b = s[i];
        proof {
            assert(s@.skip(i as int)[0] == s@[i as int]);
            assert(s@.skip(i as int).skip(1) =~= s@.skip(i + 1));
        }
        if b == SLASH {
            let ghost old_out = out.deep_view();
            let ghost old_cur = cur@;
            out.push(cur);
            cur = Vec::new();
            proof {
                assert(out.deep_view() =~~= old_out.push(old_cur));
                assert((old_out.push(old_cur)) + split_rec(s@.skip(i + 1), Seq::empty())
                    =~~= old_out + (seq![old_cur] + split_rec(s@.skip(i + 1), Seq::empty())));
            }
        } else {
            cur.push(b);
        }
        i = i + 1;
    }
    let ghost old_out = out.deep_view();
    proof {
        assert(s@.skip(i as int) =~= Seq::<u8>::empty());
        assert(old_out + seq![cur@] =~= old_out.push(cur@));
    }
    let ghost old_cur = cur@;
    out.push(cur);
    proof {
        assert(out.deep_view() =~~= old_out.push(old_cur));
    }
    out
}

/// The single-dot segment `.`.
pub open spec fn dot_seg() -> Seq<u8> {
    seq![DOT]
}

/// The parent segment `..`.
pub open spec fn dotdot_seg() -> Seq<u8> {
    seq![DOT, DOT]
}

/// Normalizes a segment list: empty segments and `.` are dropped, `..` pops
/// the last kept segment, and a `..` with nothing left to pop means the path
/// would climb above the root — the whole request is rejected (`None`).
pub open spec fn normalize_rec(segs: Seq<Seq<u8>>, acc: Seq<Seq<u8>>) -> Option<Seq<Seq<u8>>>
    decreases segs.len(),
{
    if segs.len() == 0 {
        Some(acc)
    } else {
        let h = segs[0];
        if h.len() == 0 || h == dot_seg() {
            normalize_rec(segs.skip(1), acc)
        } else if h == dotdot_seg() {
            if acc.len() == 0 {
                None
            } else {
                normalize_rec(segs.skip(1), acc.drop_last())
            }
        } else {
            normalize_rec(segs.skip(1), acc.push(h))
        }
    }
}

/// Normalizes the segment list; `None` exactly when the path would climb
/// above the root.
pub fn copy_bytes(src: &Vec<u8>) -> (r: Vec<u8>)
    ensures
        r@ == src@,
{
    let mut r: Vec<u8> = Vec::new();
    push_bytes(&mut r, src);
    proof {
        assert(Seq::<u8>::empty() + src@ =~= src@);
    }
    r
}

/// Normalizes the segment list; `None` exactly when the path would climb
/// above the root.
pub fn normalize_segments(segs: &Vec<Vec<u8>>) -> (r: Option<Vec<Vec<u8>>>)
    ensures
        r is Some <==> normalize_rec(segs.deep_view(), Seq::empty()) is Some,
        r matches Some(v) ==> normalize_rec(segs.deep_view(), Seq::empty()) == Some(v.deep_view()),
{
    let ghost all = segs.deep_view();
    let mut acc: Vec<Vec<u8>> = Vec::new();
    let mut i: usize = 0;
    proof {
        assert(acc.deep_view() =~~= Seq::<Seq<u8>>::empty());
        assert(all.skip(0) =~= all);
    }
    while i < segs.len()
        invariant
            i <= segs.len(),
            all == segs.deep_view(),
            normalize_rec(all, Seq::empty()) == normalize_rec(
                segs.deep_view().skip(i as int),
                acc.deep_view(),
            ),
        decreases segs.len() - i,
    {
        let ghost old_rest = segs.deep_view().skip(i as int);
        let ghost old_acc = acc.deep_view();
        let seg = &segs[i];
        proof {
            assert(old_rest[0] == seg.deep_view());
            assert(old_rest.skip(1) =~= segs.deep_view().skip(i + 1));
            assert(seg@ =~= seg.deep_view());
        }
        let is_empty = seg.len() == 0;
        let is_dot = seg.len() == 1 && seg[0] == DOT;
        let is_dotdot = seg.len() == 2 && seg[0] == DOT && seg[1] == DOT;
        proof {
            if is_dot {
                assert(seg@ =~= dot_seg());
            } else {
                assert(seg@ != dot_seg());
            }
            if is_dotdot {
                assert(seg@ =~= dotdot_seg());
            } else {
                assert(seg@ != dotdot_seg());
            }
        }
        if is_empty || is_dot {
            // dropped
        } else if is_dotdot {
            if acc.len() == 0 {
                proof {
                    assert(old_acc.len() == 0);
                    assert(old_rest[0] == seg@);
                    assert(normalize_rec(old_rest, old_acc) is None);
                }
                return None;
            }
            acc.pop();
            proof {
                assert(acc.deep_view() =~~= old_acc.drop_last());
            }
        } else {
            let copied = copy_bytes(seg);
            proof {
                assert(copied.deep_view() =~~= old_rest[0]);
            }
            acc.push(copied);
            proof {
                assert(acc.deep_view() =~~= old_acc.push(old_rest[0]));
            }
        }
        i = i + 1;
    }
    proof {
        assert(segs.deep_view().skip(i as int) =~= Seq::<Seq<u8>>::empty());
    }
    Some(acc)
}

/// Joins normalized segments under a base path, one `/` before each segment.
pub open spec fn join_spec(base: Seq<u8>, segs: Seq<Seq<u8>>) -> Seq<u8>
    decreases segs.len(),
{
    if segs.len() == 0 {
        base
    } else {
        join_spec(base + seq![SLASH] + segs[0], segs.skip(1))
    }
}

/// Appends all bytes of `src` to `out`.
pub fn push_bytes(out: &mut Vec<u8>, src: &Vec<u8>)
    ensures
        final(out)@ == old(out)@ + src@,
{
    let mut j: usize = 0;
    while j < src.len()
        invariant
            j <= src.len(),
            out@ == old(out)@ + src@.subrange(0, j as int),
        decreases src.len() - j,
    {
        proof {
            assert((old(out)@ + src@.subrange(0, j as int)).push(src@[j as int]) =~= old(out)@
                + src@.subrange(0, j + 1));
        }
        out.push(src[j]);
        j = j + 1;
    }
    proof {
        assert(src@.subrange(0, src@.len() as int) =~= src@);
    }
}

/// Joins `segs` under `root` as `root/seg0/seg1/...`.
pub fn join_under_root(root: &Vec<u8>, segs: &Vec<Vec<u8>>) -> (r: Vec<u8>)
    ensures
        r@ == join_spec(root@, segs.deep_view()),
{
    let mut out: Vec<u8> = Vec::new();
    push_bytes(&mut out, root);
    let mut i: usize = 0;
    proof {
        assert(out@ =~= root@);
        assert(segs.deep_view().skip(0) =~= segs.deep_view());
    }
    while i < segs.len()
        invariant
            i <= segs.len(),
            join_spec(root@, segs.deep_view()) == join_spec(out@, segs.deep_view().skip(i as int)),
        decreases segs.len() - i,
    {
        let ghost old_out = out@;
        let ghost tail = segs.deep_view().skip(i as int);
        out.push(SLASH);
        push_bytes(&mut out, &segs[i]);
        proof {
            assert(tail[0] == segs.deep_view()[i as int]);
            assert(tail.skip(1) =~= segs.deep_view().skip(i + 1));
            assert(out@ =~= old_out + seq![SLASH] + segs.deep_view()[i as int]);
        }
        i = i + 1;
    }
    proof {
        assert(segs.deep_view().skip(i as int) =~= Seq::<Seq<u8>>::empty());
    }
    out
}

/// The request is rejected before any filesystem contact: its encoding is
/// malformed, or its `..` segments would climb above the root.
pub open spec fn request_rejected(request: Seq<u8>) -> bool {
    match decode_spec(request) {
        None => true,
        Some(d) => normalize_rec(split_rec(d, Seq::empty()), Seq::empty()) is None,
    }
}

/// The filesystem path a request maps to under `root`, before
/// canonicalization; `None` exactly when the request is rejected.
pub open spec fn resolve_request_spec(root: Seq<u8>, request: Seq<u8>) -> Option<Seq<u8>> {
    match decode_spec(request) {
        None => None,
        Some(d) => match normalize_rec(split_rec(d, Seq::empty()), Seq::empty()) {
            None => None,
            Some(segs) => Some(join_spec(root, segs)),
        },
    }
}

/// Decodes, splits, normalizes and joins a request path under `root`.
/// `None` exactly when the request must be answered `Forbidden` without
/// looking at the filesystem at all.
pub fn resolve_request(root: &Vec<u8>, request: &Vec<u8>) -> (r: Option<Vec<u8>>)
    ensures
        r is Some <==> resolve_request_spec(root@, request@) is Some,
        r matches Some(p) ==> resolve_request_spec(root@, request@) == Some(p@),
        r is None <==> request_rejected(request@),
{
    match percent_decode(request) {
        None => None,
        Some(decoded) => {
            let segs = split_segments(&decoded);
            match normalize_segments(&segs) {
                None => None,
                Some(norm) => Some(join_under_root(root, &norm)),
            }
        },
    }
}

/// `p` lies inside the subtree rooted at `root`: it is the root itself or
/// extends it by a `/`-separated suffix.
pub open spec fn contained_in(root: Seq<u8>, p: Seq<u8>) -> bool {
    ||| p == root
    ||| (p.len() > root.len() && p.subrange(0, root.len() as int) == root && p[root.len() as int]
        == SLASH)
}

/// Decides containment of a canonical path in the canonical root.
pub fn is_contained(root: &Vec<u8>, p: &Vec<u8>) -> (r: bool)
    ensures
        r == contained_in(root@, p@),
{
    if p.len() < root.len() {
        proof {
            assert(!contained_in(root@, p@));
        }
        return false;
    }
    let mut i: usize = 0;
    while i < root.len()
        invariant
            i <= root.len(),
            root.len() <= p.len(),
            forall|j: int| 0 <= j < i ==> p@[j] == root@[j],
        decreases root.len() - i,
    {
        if p[i] != root[i] {
            proof {
                if p@ == root@ {
                    assert(false);
                }
                if p@.len() > root@.len() && p@.subrange(0, root@.len() as int) == root@ {
                    assert(p@.subrange(0, root@.len() as int)[i as int] == p@[i as int]);
                    assert(false);
                }
            }
            return false;
        }
        i = i + 1;
    }
    if p.len() == root.len() {
        proof {
            assert(p@ =~= root@);
        }
        true
    } else {
        proof {
            assert(p@.subrange(0, root@.len() as int) =~= root@);
        }
        p[root.len()] == SLASH
    }
}

} // verus!
