//! Directory listings: entries, the lexicographic name order, and the
//! deterministic sort that every listing goes through.

use vstd::prelude::*;
use vstd::relations::{sorted_by, total_ordering};
use vstd::seq_lib::lemma_sorted_unique;
use crate::path::copy_bytes;

verus! {

broadcast use vstd::seq_lib::group_to_multiset_ensures;

/// The kind of one directory child.
#[derive(PartialEq, Eq, Structural, Clone, Copy, Debug)]
pub enum EntryKind {
    Directory,
    File,
}

/// One immediate child of a listed directory: its link name (for a
/// symlinked child the link's own name, not the target's), its kind after
/// following symlinks, and, for files, its size in bytes.
pub struct ListingEntry {
    pub name: Vec<u8>,
    pub kind: EntryKind,
    pub size: u64,
}

/// Mathematical image of a `ListingEntry`.
pub struct EntryModel {
    pub name: Seq<u8>,
    pub kind: EntryKind,
    pub size: u64,
}

impl View for ListingEntry {
    type V = EntryModel;

    open spec fn view(&self) -> EntryModel {
        EntryModel { name: self.name@, kind: self.kind, size: self.size }
    }
}

impl DeepView for ListingEntry {
    type V = EntryModel;

    open spec fn deep_view(&self) -> EntryModel {
        self@
    }
}

/// Byte-wise lexicographic order: `a` comes no later than `b`.
pub open spec fn lex_le(a: Seq<u8>, b: Seq<u8>) -> bool
    decreases a.len(),
{
    if a.len() == 0 {
        true
    } else if b.len() == 0 {
        false
    } else if a[0] < b[0] {
        true
    } else if a[0] > b[0] {
        false
    } else {
        lex_le(a.skip(1), b.skip(1))
    }
}

pub proof fn lemma_lex_le_refl(a: Seq<u8>)
    ensures
        lex_le(a, a),
    decreases a.len(),
{
    if a.len() > 0 {
        lemma_lex_le_refl(a.skip(1));
    }
}

pub proof fn lemma_lex_le_total(a: Seq<u8>, b: Seq<u8>)
    ensures
        lex_le(a, b) || lex_le(b, a),
    decreases a.len(),
{
    if a.len() > 0 && b.len() > 0 && a[0] == b[0] {
        lemma_lex_le_total(a.skip(1), b.skip(1));
    }
}

pub proof fn lemma_lex_le_antisym(a: Seq<u8>, b: Seq<u8>)
    requires
        lex_le(a, b),
        lex_le(b, a),
    ensures
        a == b,
    decreases a.len(),
{
    if a.len() == 0 {
        assert(b.len() == 0);
        assert(a =~= b);
    } else {
        assert(b.len() > 0);
        assert(a[0] == b[0]);
        lemma_lex_le_antisym(a.skip(1), b.skip(1));
        assert(a.skip(1).len() == b.skip(1).len());
        assert(a.len() == b.len());
        assert forall|i: int| 0 <= i < a.len() implies a[i] == b[i] by {
            if i > 0 {
                assert(a.skip(1)[i - 1] == a[i]);
                assert(b.skip(1)[i - 1] == b[i]);
            }
        }
        assert(a =~= b);
    }
}

pub proof fn lemma_lex_le_trans(a: Seq<u8>, b: Seq<u8>, c: Seq<u8>)
    requires
        lex_le(a, b),
        lex_le(b, c),
    ensures
        lex_le(a, c),
    decreases a.len(),
{
    if a.len() == 0 {
    } else {
        assert(b.len() > 0);
        assert(c.len() > 0);
        if a[0] == b[0] && b[0] == c[0] {
            lemma_lex_le_trans(a.skip(1), b.skip(1), c.skip(1));
        }
    }
}

/// Total order on entries: by name first, directories before files on a
/// name tie, then by size. The tie-breakers make the order antisymmetric,
/// so a sorted listing is unique.
pub open spec fn entry_le(a: EntryModel, b: EntryModel) -> bool {
    if a.name != b.name {
        lex_le(a.name, b.name)
    } else if a.kind != b.kind {
        a.kind is Directory
    } else {
        a.size <= b.size
    }
}

/// `entry_le` as a relation value, for the vstd ordering vocabulary.
pub open spec fn entry_order() -> spec_fn(EntryModel, EntryModel) -> bool {
    |a: EntryModel, b: EntryModel| entry_le(a, b)
}

pub proof fn lemma_entry_le_trans(a: EntryModel, b: EntryModel, c: EntryModel)
    requires
        entry_le(a, b),
        entry_le(b, c),
    ensures
        entry_le(a, c),
{
    if a.name != b.name && b.name != c.name {
        lemma_lex_le_trans(a.name, b.name, c.name);
        if a.name == c.name {
            lemma_lex_le_antisym(a.name, b.name);
        }
    }
}

/// The entry order is a total ordering in the sense of `vstd::relations`.
pub proof fn lemma_entry_order_total()
    ensures
        total_ordering(entry_order()),
{
    let le = entry_order();
    assert forall|a: EntryModel| #[trigger] le(a, a) by {
        lemma_lex_le_refl(a.name);
    }
    assert forall|a: EntryModel, b: EntryModel| #[trigger] le(a, b) && #[trigger] le(b, a)
        implies a == b by {
        if a.name != b.name {
            lemma_lex_le_antisym(a.name, b.name);
        }
    }
    assert forall|a: EntryModel, b: EntryModel, c: EntryModel|
        #[trigger] le(a, b) && #[trigger] le(b, c) implies le(a, c) by {
        lemma_entry_le_trans(a, b, c);
    }
    assert forall|a: EntryModel, b: EntryModel| #[trigger] le(a, b) || #[trigger] le(b, a) by {
        if a.name == b.name {
            lemma_lex_le_refl(a.name);
        } else {
            lemma_lex_le_total(a.name, b.name);
        }
    }
}

/// Decides equality of two byte strings.
pub fn bytes_eq(a: &Vec<u8>, b: &Vec<u8>) -> (r: bool)
    ensures
        r == (a@ == b@),
{
    if a.len() != b.len() {
        return false;
    }
    let mut i: usize = 0;
    while i < a.len()
        invariant
            i <= a.len(),
            a.len() == b.len(),
            forall|j: int| 0 <= j < i ==> a@[j] == b@[j],
        decreases a.len() - i,
    {
        if a[i] != b[i] {
            return false;
        }
        i = i + 1;
    }
    proof {
        assert(a@ =~= b@);
    }
    true
}

/// Decides the lexicographic order on byte strings.
pub fn bytes_le(a: &Vec<u8>, b: &Vec<u8>) -> (r: bool)
    ensures
        r == lex_le(a@, b@),
{
    let mut i: usize = 0;
    proof {
        assert(a@.skip(0) =~= a@);
        assert(b@.skip(0) =~= b@);
    }
    while i < a.len() && i < b.len()
        invariant
            i <= a.len(),
            i <= b.len(),
            lex_le(a@, b@) == lex_le(a@.skip(i as int), b@.skip(i as int)),
            lex_le(b@, a@) == lex_le(b@.skip(i as int), a@.skip(i as int)),
        decreases a.len() - i,
    {
        let ghost ta = a@.skip(i as int);
        let ghost tb = b@.skip(i as int);
        proof {
            assert(ta[0] == a@[i as int]);
            assert(tb[0] == b@[i as int]);
        }
        if a[i] < b[i] {
            return true;
        }
        if a[i] > b[i] {
            return false;
        }
        proof {
            assert(ta.skip(1) =~= a@.skip(i + 1));
            assert(tb.skip(1) =~= b@.skip(i + 1));
        }
        i = i + 1;
    }
    proof {
        if i >= a.len() {
            assert(a@.skip(i as int) =~= Seq::<u8>::empty());
        } else {
            assert(b@.skip(i as int) =~= Seq::<u8>::empty());
            assert(a@.skip(i as int).len() > 0);
        }
    }
    i >= a.len()
}

/// Decides the entry order.
pub fn entry_le_exec(a: &ListingEntry, b: &ListingEntry) -> (r: bool)
    ensures
        r == entry_le(a@, b@),
{
    if !bytes_eq(&a.name, &b.name) {
        bytes_le(&a.name, &b.name)
    } else {
        match (a.kind, b.kind) {
            (EntryKind::Directory, EntryKind::File) => true,
            (EntryKind::File, EntryKind::Directory) => false,
            _ => a.size <= b.size,
        }
    }
}

/// Copies an entry field by field.
pub fn copy_entry(e: &ListingEntry) -> (r: ListingEntry)
    ensures
        r@ == e@,
{
    ListingEntry { name: copy_bytes(&e.name), kind: e.kind, size: e.size }
}

/// Sorts the immediate children of a directory into the listing order.
/// The result holds exactly the given entries — nothing added, nothing
/// dropped — in the unique order that `entry_order` admits.
pub fn list(entries: &Vec<ListingEntry>) -> (r: Vec<ListingEntry>)
    ensures
        sorted_by(r.deep_view(), entry_order()),
        r.deep_view().to_multiset() == entries.deep_view().to_multiset(),
        r.len() == entries.len(),
        names_distinct(entries.deep_view()) ==> names_distinct(r.deep_view()),
{
    let ghost all = entries.deep_view();
    let mut out: Vec<ListingEntry> = Vec::new();
    let mut i: usize = 0;
    proof {
        assert(out.deep_view() =~= Seq::<EntryModel>::empty());
        assert(all.subrange(0, 0) =~= Seq::<EntryModel>::empty());
    }
    while i < entries.len()
        invariant
            i <= entries.len(),
            all == entries.deep_view(),
            out.len() == i,
            sorted_by(out.deep_view(), entry_order()),
            out.deep_view().to_multiset() == all.subrange(0, i as int).to_multiset(),
        decreases entries.len() - i,
    {
        let e = copy_entry(&entries[i]);
        proof {
            assert(e@ == all[i as int]);
        }
        let ghost old_dv = out.deep_view();
        let mut k: usize = 0;
        while k < out.len()
            invariant_except_break
                k <= out.len(),
                forall|j: int| 0 <= j < k ==> entry_le(#[trigger] out.deep_view()[j], e@),
            ensures
                k <= out.len(),
                forall|j: int| 0 <= j < k ==> entry_le(#[trigger] out.deep_view()[j], e@),
                k < out.len() ==> entry_le(e@, out.deep_view()[k as int]),
            decreases out.len() - k,
        {
            if !entry_le_exec(&out[k], &e) {
                proof {
                    lemma_lex_le_refl(e@.name);
                    lemma_lex_le_total(e@.name, out.deep_view()[k as int].name);
                }
                break;
            }
            k = k + 1;
        }
        out.insert(k, e);
        proof {
            let new_dv = out.deep_view();
            assert(new_dv =~~= old_dv.insert(k as int, e@));
            let le = entry_order();
            assert forall|p: int, q: int| 0 <= p < q < new_dv.len() implies #[trigger] le(
                new_dv[p],
                new_dv[q],
            ) by {
                if p < k && q < k {
                    assert(le(old_dv[p], old_dv[q]));
                } else if p < k && q == k {
                    assert(entry_le(old_dv[p], e@));
                } else if p < k && q > k {
                    assert(le(old_dv[p], old_dv[q - 1]));
                } else if p == k && q > k {
                    assert(entry_le(e@, old_dv[k as int]));
                    if q - 1 > k {
                        assert(le(old_dv[k as int], old_dv[q - 1]));
                        lemma_entry_le_trans(e@, old_dv[k as int], old_dv[q - 1]);
                    }
                } else {
                    assert(le(old_dv[p - 1], old_dv[q - 1]));
                }
            }
            assert(sorted_by(new_dv, entry_order()));
            assert(all.subrange(0, i + 1) =~= all.subrange(0, i as int).push(all[i as int]));
            assert(new_dv.to_multiset() =~= all.subrange(0, i + 1).to_multiset());
        }
        i = i + 1;
    }
    proof {
        assert(all.subrange(0, i as int) =~= all);
        if names_distinct(all) {
            lemma_names_distinct_preserved(all, out.deep_view());
        }
    }
    out
}

/// All entry names are pairwise distinct, as the children of one directory
/// always are.
pub open spec fn names_distinct(s: Seq<EntryModel>) -> bool {
    forall|i: int, j: int| 0 <= i < j < s.len() ==> s[i].name != s[j].name
}

/// A permutation keeps names distinct: a listing of a directory whose
/// children have distinct names shows no duplicate name.
pub proof fn lemma_names_distinct_preserved(a: Seq<EntryModel>, b: Seq<EntryModel>)
    requires
        a.to_multiset() == b.to_multiset(),
        names_distinct(a),
    ensures
        names_distinct(b),
{
    assert forall|i: int, j: int| 0 <= i < j < a.len() implies a[i] != a[j] by {
        assert(a[i].name != a[j].name);
    }
    assert(a.no_duplicates());
    a.lemma_multiset_has_no_duplicates();
    b.lemma_multiset_has_no_duplicates_conv();
    assert forall|i: int, j: int| 0 <= i < j < b.len() implies b[i].name != b[j].name by {
        if b[i].name == b[j].name {
            assert(b[i] != b[j]);
            assert(b.contains(b[i]));
            assert(b.contains(b[j]));
            assert(b.to_multiset().contains(b[i]));
            assert(b.to_multiset().contains(b[j]));
            assert(a.to_multiset().contains(b[i]));
            assert(a.to_multiset().contains(b[j]));
            assert(a.contains(b[i]));
            assert(a.contains(b[j]));
            let ia = choose|x: int| 0 <= x < a.len() && a[x] == b[i];
            let ja = choose|x: int| 0 <= x < a.len() && a[x] == b[j];
            assert(a[ia] != a[ja]);
            assert(a[ia].name == a[ja].name);
        }
    }
}

/// Any two listings of the same unmodified directory agree exactly: the
/// sorted order is unique, so concurrent workers all produce the identical
/// entry sequence.
pub proof fn lemma_listing_agreement(
    input: Seq<EntryModel>,
    a: Seq<EntryModel>,
    b: Seq<EntryModel>,
)
    requires
        sorted_by(a, entry_order()),
        a.to_multiset() == input.to_multiset(),
        sorted_by(b, entry_order()),
        b.to_multiset() == input.to_multiset(),
    ensures
        a == b,
{
    lemma_entry_order_total();
    lemma_sorted_unique(a, b, entry_order());
}

/// A sorted listing is sorted by name in the byte-wise lexicographic
/// order, as the listing contract promises.
pub proof fn lemma_sorted_names(s: Seq<EntryModel>)
    requires
        sorted_by(s, entry_order()),
    ensures
        forall|i: int, j: int| 0 <= i < j < s.len() ==> lex_le(
            #[trigger] s[i].name,
            #[trigger] s[j].name,
        ),
{
    let le = entry_order();
    assert forall|i: int, j: int| 0 <= i < j < s.len() implies lex_le(
        #[trigger] s[i].name,
        #[trigger] s[j].name,
    ) by {
        assert(le(s[i], s[j]));
        if s[i].name == s[j].name {
            lemma_lex_le_refl(s[i].name);
        }
    }
}

} // verus!
