//! Rendering of a sorted listing into a minimal HTML body.
//!
//! Every entry gets a hyperlink to `base/name` (with a trailing slash for
//! directories), its name as the link text, and its size for files. The
//! body is an exact function of the base path and the entry sequence, so
//! identical listings render to identical bytes.

use vstd::prelude::*;
use crate::listing::{EntryKind, EntryModel, ListingEntry};
use crate::path::push_bytes;
use crate::text::{dec_bytes, dec_spec, lit, push_str};

verus! {

/// The link target of one entry.
pub open spec fn href_spec(base: Seq<u8>, e: EntryModel) -> Seq<u8> {
    base + lit("/") + e.name + if e.kind is Directory {
        lit("/")
    } else {
        Seq::<u8>::empty()
    }
}

/// The visible text of one entry: the name, a trailing slash for
/// directories, the size in bytes for files.
pub open spec fn label_spec(e: EntryModel) -> Seq<u8> {
    e.name + if e.kind is Directory {
        lit("/")
    } else {
        lit(" (") + dec_spec(e.size as nat) + lit(" bytes)")
    }
}

/// One rendered listing line.
pub open spec fn render_entry_spec(base: Seq<u8>, e: EntryModel) -> Seq<u8> {
    lit("<li><a href=\"") + href_spec(base, e) + lit("\">") + label_spec(e) + lit("</a></li>")
}

/// All rendered lines, in listing order.
pub open spec fn render_entries_spec(base: Seq<u8>, es: Seq<EntryModel>) -> Seq<u8>
    decreases es.len(),
{
    if es.len() == 0 {
        Seq::empty()
    } else {
        render_entry_spec(base, es[0]) + render_entries_spec(base, es.skip(1))
    }
}

proof fn lemma_render_entries_append(base: Seq<u8>, s1: Seq<EntryModel>, s2: Seq<EntryModel>)
    ensures
        render_entries_spec(base, s1 + s2) == render_entries_spec(base, s1)
            + render_entries_spec(base, s2),
    decreases s1.len(),
{
    if s1.len() == 0 {
        assert(s1 + s2 =~= s2);
        assert(render_entries_spec(base, s1) + render_entries_spec(base, s2)
            =~= render_entries_spec(base, s2));
    } else {
        assert((s1 + s2).skip(1) =~= s1.skip(1) + s2);
        assert((s1 + s2)[0] == s1[0]);
        lemma_render_entries_append(base, s1.skip(1), s2);
        assert(render_entry_spec(base, s1[0]) + (render_entries_spec(base, s1.skip(1))
            + render_entries_spec(base, s2)) =~= (render_entry_spec(base, s1[0])
            + render_entries_spec(base, s1.skip(1))) + render_entries_spec(base, s2));
    }
}

/// The whole listing body.
pub open spec fn render_listing_spec(base: Seq<u8>, es: Seq<EntryModel>) -> Seq<u8> {
    lit("<html><body><ul>") + render_entries_spec(base, es) + lit("</ul></body></html>")
}

/// Renders one entry's line onto `out`.
fn render_entry(out: &mut Vec<u8>, base: &Vec<u8>, e: &ListingEntry)
    ensures
        final(out)@ == old(out)@ + render_entry_spec(base@, e@),
{
    push_str(out, "<li><a href=\"");
    push_bytes(out, base);
    push_str(out, "/");
    push_bytes(out, &e.name);
    match e.kind {
        EntryKind::Directory => {
            push_str(out, "/");
            push_str(out, "\">");
            push_bytes(out, &e.name);
            push_str(out, "/");
        },
        EntryKind::File => {
            push_str(out, "\">");
            push_bytes(out, &e.name);
            push_str(out, " (");
            let d = dec_bytes(e.size);
            push_bytes(out, &d);
            push_str(out, " bytes)");
        },
    }
    push_str(out, "</a></li>");
    proof {
        assert(final(out)@ =~= old(out)@ + render_entry_spec(base@, e@));
    }
}

/// Renders a listing body for already-sorted entries.
pub fn render_listing(base: &Vec<u8>, entries: &Vec<ListingEntry>) -> (body: Vec<u8>)
    ensures
        body@ == render_listing_spec(base@, entries.deep_view()),
{
    let ghost dv = entries.deep_view();
    let mut out: Vec<u8> = Vec::new();
    push_str(&mut out, "<html><body><ul>");
    let mut i: usize = 0;
    proof {
        assert(dv.subrange(0, 0) =~= Seq::<EntryModel>::empty());
        assert(out@ =~= lit("<html><body><ul>") + render_entries_spec(base@, dv.subrange(0, 0)));
    }
    while i < entries.len()
        invariant
            i <= entries.len(),
            dv == entries.deep_view(),
            out@ == lit("<html><body><ul>") + render_entries_spec(base@, dv.subrange(0, i as int)),
        decreases entries.len() - i,
    {
        let ghost old_out = out@;
        render_entry(&mut out, base, &entries[i]);
        proof {
            let pre = dv.subrange(0, i as int);
            let one = seq![dv[i as int]];
            assert(dv.subrange(0, i + 1) =~= pre + one);
            lemma_render_entries_append(base@, pre, one);
            assert(one.skip(1) =~= Seq::<EntryModel>::empty());
            assert(one[0] == dv[i as int]);
            assert(render_entries_spec(base@, one.skip(1)) =~= Seq::<u8>::empty());
            assert(render_entry_spec(base@, dv[i as int]) + Seq::<u8>::empty() =~= render_entry_spec(
                base@,
                dv[i as int],
            ));
            assert(render_entries_spec(base@, one) =~= render_entry_spec(base@, dv[i as int]));
            assert(out@ =~= lit("<html><body><ul>") + render_entries_spec(
                base@,
                dv.subrange(0, i + 1),
            ));
        }
        i = i + 1;
    }
    push_str(&mut out, "</ul></body></html>");
    proof {
        assert(dv.subrange(0, i as int) =~= dv);
        assert(out@ =~= render_listing_spec(base@, dv));
    }
    out
}

} // verus!
