//! Disk image candidates.

use crate::domain::paths::{
    final_name, final_name_of, lemma_path_le_antisymmetric, lemma_path_le_total,
    lemma_path_le_transitive, path_before_or_same, path_le, same_path, same_path_text, DirPath,
    IsoPath,
};
use crate::domain::units::ByteSize;
use crate::text::{
    after_last, chars_of, last_start, lowered, lowered_chars, occurs_ignoring_ascii_case,
    occurs_in, same_text, string_of,
};
use vstd::prelude::*;

verus! {

/// A point in time: nanoseconds since the Unix epoch, negative before it.
#[derive(Debug, Clone, Copy, PartialEq, Eq, Structural, PartialOrd, Ord, Hash)]
pub struct Timestamp(pub i128);

/// What an [`IsoMeta`] stands for.
pub struct IsoMetaView {
    pub path: Seq<char>,
    pub size: nat,
    pub modified: Option<int>,
}

/// An image file found by a scan.
#[derive(Debug)]
pub struct IsoMeta {
    pub path: IsoPath,
    pub size: ByteSize,
    pub modified: Option<Timestamp>,
}

/// The time a candidate was last modified, if known.
pub open spec fn modified_view(m: Option<Timestamp>) -> Option<int> {
    match m {
        Some(t) => Some(t.0 as int),
        None => None,
    }
}

impl View for IsoMeta {
    type V = IsoMetaView;

    open spec fn view(&self) -> IsoMetaView {
        IsoMetaView { path: self.path@, size: self.size@, modified: modified_view(self.modified) }
    }
}

impl DeepView for IsoMeta {
    type V = IsoMetaView;

    open spec fn deep_view(&self) -> IsoMetaView {
        self@
    }
}

impl Clone for IsoMeta {
    fn clone(&self) -> (r: Self)
        ensures
            r@ == self@,
    {
        IsoMeta { path: self.path.clone(), size: self.size, modified: self.modified }
    }
}

/// The name of the file at `path`: the name at the end of the path, or
/// nothing where the path ends in none.
pub open spec fn file_name_of(path: Seq<char>) -> Seq<char> {
    match final_name(path) {
        Some(name) => name,
        None => Seq::empty(),
    }
}

/// Whether `ext`, in lower case, is the extension of a disk image.
pub open spec fn is_image_extension(ext: Seq<char>) -> bool {
    ext == "iso"@ || ext == "img"@ || ext == "raw"@
}

/// Whether the file at `path` has the extension of a disk image, in any
/// mix of case. The extension is what stands behind the last `.` of the
/// file's name; a `.` at the start of the name begins no extension.
pub open spec fn has_image_extension(path: Seq<char>) -> bool {
    let name = file_name_of(path);
    let ext = after_last(name, '.');
    name.len() >= ext.len() + 2 && is_image_extension(lowered(ext))
}

/// Whether `name` matches `query`: the query occurs in it, ASCII letters
/// of either case counting as the same. The empty query matches every
/// name.
pub open spec fn matches_query(name: Seq<char>, query: Seq<char>) -> bool {
    query.len() == 0 || occurs_in(lowered(query), lowered(name))
}

/// Whether a file is a candidate: an image by its extension, matching
/// the query by its name, and of at least `min_size` bytes.
pub open spec fn qualifies(f: IsoMetaView, query: Seq<char>, min_size: nat) -> bool {
    &&& has_image_extension(f.path)
    &&& matches_query(file_name_of(f.path), query)
    &&& f.size >= min_size
}

/// Whether `s` holds a candidate at `path`.
pub open spec fn has_path(s: Seq<IsoMetaView>, path: Seq<char>) -> bool {
    exists|i: int| 0 <= i < s.len() && same_path((#[trigger] s[i]).path, path)
}

/// The candidates among `found`, in the order found, each path once: of
/// several files at one path the first that qualifies stays.
pub open spec fn selected(found: Seq<IsoMetaView>, query: Seq<char>, min_size: nat) -> Seq<
    IsoMetaView,
>
    decreases found.len(),
{
    if found.len() == 0 {
        Seq::empty()
    } else {
        let before = selected(found.drop_last(), query, min_size);
        if qualifies(found.last(), query, min_size) && !has_path(before, found.last().path) {
            before.push(found.last())
        } else {
            before
        }
    }
}

/// The order in which candidates are shown: the most recently modified
/// first, those of unknown age last, and among equals by path, component
/// by component.
pub open spec fn stands_before(a: IsoMetaView, b: IsoMetaView) -> bool {
    if a.modified != b.modified {
        match (a.modified, b.modified) {
            (Some(x), Some(y)) => x > y,
            (Some(_), None) => true,
            _ => false,
        }
    } else {
        path_le(a.path, b.path)
    }
}

/// Every candidate of `s` may stand before all that follow it.
pub open spec fn in_order(s: Seq<IsoMetaView>) -> bool {
    forall|i: int, j: int|
        0 <= i < j < s.len() ==> stands_before(#[trigger] s[i], #[trigger] s[j])
}

/// No two candidates of `s` are at the same path.
pub open spec fn distinct_paths(s: Seq<IsoMetaView>) -> bool {
    forall|i: int, j: int|
        0 <= i < j < s.len() ==> !same_path((#[trigger] s[i]).path, (#[trigger] s[j]).path)
}

/// Of any two candidates one may stand before the other.
pub proof fn lemma_order_total(a: IsoMetaView, b: IsoMetaView)
    ensures
        stands_before(a, b) || stands_before(b, a),
{
    lemma_path_le_total(a.path, b.path);
}

/// The order of candidates is transitive.
pub proof fn lemma_order_transitive(a: IsoMetaView, b: IsoMetaView, c: IsoMetaView)
    requires
        stands_before(a, b),
        stands_before(b, c),
    ensures
        stands_before(a, c),
{
    if a.modified == b.modified && b.modified == c.modified {
        lemma_path_le_transitive(a.path, b.path, c.path);
    }
}

/// Two candidates that may each stand before the other have the same
/// path.
pub proof fn lemma_order_ties_share_path(a: IsoMetaView, b: IsoMetaView)
    requires
        stands_before(a, b),
        stands_before(b, a),
    ensures
        same_path(a.path, b.path),
{
    lemma_path_le_antisymmetric(a.path, b.path);
}

/// The selection holds only files that were found and qualify, at most
/// one for each path, and a file for every path at which a found file
/// qualifies.
pub proof fn lemma_selected(found: Seq<IsoMetaView>, query: Seq<char>, min_size: nat)
    ensures
        distinct_paths(selected(found, query, min_size)),
        forall|i: int|
            0 <= i < selected(found, query, min_size).len() ==> qualifies(
                #[trigger] selected(found, query, min_size)[i],
                query,
                min_size,
            ) && found.contains(selected(found, query, min_size)[i]),
        forall|k: int|
            0 <= k < found.len() && qualifies(#[trigger] found[k], query, min_size) ==> has_path(
                selected(found, query, min_size),
                found[k].path,
            ),
    decreases found.len(),
{
    if found.len() > 0 {
        let shorter = found.drop_last();
        lemma_selected(shorter, query, min_size);
        let before = selected(shorter, query, min_size);
        let now = selected(found, query, min_size);
        assert forall|i: int| 0 <= i < now.len() implies qualifies(
            #[trigger] now[i],
            query,
            min_size,
        ) && found.contains(now[i]) by {
            if i < before.len() {
                assert(now[i] == before[i]);
                assert(shorter.contains(before[i]));
                let k = choose|k: int| 0 <= k < shorter.len() && shorter[k] == before[i];
                assert(found[k] == before[i]);
            } else {
                assert(found[found.len() - 1] == now[i]);
            }
        }
        assert forall|k: int|
            0 <= k < found.len() && qualifies(#[trigger] found[k], query, min_size) implies has_path(
            now,
            found[k].path,
        ) by {
            if k < shorter.len() {
                assert(shorter[k] == found[k]);
                assert(has_path(before, found[k].path));
                let i = choose|i: int|
                    0 <= i < before.len() && same_path((#[trigger] before[i]).path, found[k].path);
                assert(same_path(now[i].path, found[k].path));
            } else {
                if has_path(before, found.last().path) {
                    let i = choose|i: int|
                        0 <= i < before.len() && same_path(
                            (#[trigger] before[i]).path,
                            found.last().path,
                        );
                    assert(same_path(now[i].path, found[k].path));
                } else {
                    assert(same_path(now[now.len() - 1].path, found[k].path));
                }
            }
        }
        assert forall|i: int, j: int| 0 <= i < j < now.len() implies !same_path(
            (#[trigger] now[i]).path,
            (#[trigger] now[j]).path,
        ) by {
            if j < before.len() {
                assert(!same_path(before[i].path, before[j].path));
            } else {
                assert(!same_path(before[i].path, found.last().path));
            }
        }
    }
}

/// A list that holds the candidates of a list with distinct paths, each
/// as often, has distinct paths too, and holds the same candidates.
pub proof fn lemma_distinct_paths_of_same_candidates(a: Seq<IsoMetaView>, b: Seq<IsoMetaView>)
    requires
        distinct_paths(a),
        a.to_multiset() == b.to_multiset(),
    ensures
        distinct_paths(b),
        forall|d: IsoMetaView| a.contains(d) <==> b.contains(d),
{
    broadcast use vstd::multiset::group_multiset_axioms;
    broadcast use vstd::seq_lib::group_to_multiset_ensures;

    assert forall|d: IsoMetaView| a.contains(d) <==> b.contains(d) by {
        vstd::seq_lib::to_multiset_contains(a, d);
        vstd::seq_lib::to_multiset_contains(b, d);
    }
    assert(a.no_duplicates()) by {
        assert forall|i: int, j: int| 0 <= i < a.len() && 0 <= j < a.len() && i != j implies a[i]
            != a[j] by {
            if i < j {
                assert(!same_path(a[i].path, a[j].path));
            } else {
                assert(!same_path(a[j].path, a[i].path));
            }
        }
    }
    a.lemma_multiset_has_no_duplicates();
    b.lemma_multiset_has_no_duplicates_conv();
    assert forall|i: int, j: int| 0 <= i < j < b.len() implies !same_path(
        (#[trigger] b[i]).path,
        (#[trigger] b[j]).path,
    ) by {
        assert(b.contains(b[i]));
        assert(b.contains(b[j]));
        let p = choose|p: int| 0 <= p < a.len() && a[p] == b[i];
        let q = choose|q: int| 0 <= q < a.len() && a[q] == b[j];
        assert(b[i] != b[j]);
        if p < q {
            assert(!same_path(a[p].path, a[q].path));
        } else {
            assert(!same_path(a[q].path, a[p].path));
        }
    }
}

/// The order of a set of candidates with distinct paths is unique: two
/// ordered lists of the same candidates are the same list.
pub proof fn lemma_order_is_unique(x: Seq<IsoMetaView>, y: Seq<IsoMetaView>)
    requires
        in_order(x),
        in_order(y),
        distinct_paths(x),
        distinct_paths(y),
        forall|d: IsoMetaView| x.contains(d) <==> y.contains(d),
    ensures
        x == y,
    decreases x.len(),
{
    if x.len() == 0 {
        if y.len() > 0 {
            assert(y.contains(y[0]));
        }
        assert(x =~= y);
    } else {
        assert(x.contains(x[0]));
        assert(y.contains(x[0]));
        let j = choose|j: int| 0 <= j < y.len() && y[j] == x[0];
        assert(y.contains(y[0]));
        assert(x.contains(y[0]));
        let i = choose|i: int| 0 <= i < x.len() && x[i] == y[0];
        if i > 0 {
            assert(stands_before(x[0], x[i]));
            if j > 0 {
                assert(stands_before(y[0], y[j]));
            }
            lemma_order_ties_share_path(x[0], x[i]);
            assert(false);
        }
        assert(x[0] == y[0]);
        let xs = x.drop_first();
        let ys = y.drop_first();
        assert forall|d: IsoMetaView| xs.contains(d) <==> ys.contains(d) by {
            if xs.contains(d) {
                let k = choose|k: int| 0 <= k < xs.len() && xs[k] == d;
                assert(x[k + 1] == d);
                assert(x.contains(d));
                let m = choose|m: int| 0 <= m < y.len() && y[m] == d;
                assert(!same_path(x[0].path, x[k + 1].path));
                assert(m > 0);
                assert(ys[m - 1] == d);
            }
            if ys.contains(d) {
                let k = choose|k: int| 0 <= k < ys.len() && ys[k] == d;
                assert(y[k + 1] == d);
                assert(y.contains(d));
                let m = choose|m: int| 0 <= m < x.len() && x[m] == d;
                assert(!same_path(y[0].path, y[k + 1].path));
                assert(m > 0);
                assert(xs[m - 1] == d);
            }
        }
        assert(in_order(xs)) by {
            assert forall|a: int, b: int| 0 <= a < b < xs.len() implies stands_before(
                #[trigger] xs[a],
                #[trigger] xs[b],
            ) by {
                assert(stands_before(x[a + 1], x[b + 1]));
            }
        }
        assert(in_order(ys)) by {
            assert forall|a: int, b: int| 0 <= a < b < ys.len() implies stands_before(
                #[trigger] ys[a],
                #[trigger] ys[b],
            ) by {
                assert(stands_before(y[a + 1], y[b + 1]));
            }
        }
        assert(distinct_paths(xs)) by {
            assert forall|a: int, b: int| 0 <= a < b < xs.len() implies !same_path(
                (#[trigger] xs[a]).path,
                (#[trigger] xs[b]).path,
            ) by {
                assert(!same_path(x[a + 1].path, x[b + 1].path));
            }
        }
        assert(distinct_paths(ys)) by {
            assert forall|a: int, b: int| 0 <= a < b < ys.len() implies !same_path(
                (#[trigger] ys[a]).path,
                (#[trigger] ys[b]).path,
            ) by {
                assert(!same_path(y[a + 1].path, y[b + 1].path));
            }
        }
        lemma_order_is_unique(xs, ys);
        assert(x =~= seq![x[0]] + xs);
        assert(y =~= seq![y[0]] + ys);
    }
}

/// A scan has one outcome: two ordered lists that each hold exactly the
/// selection from the same files are the same list.
pub proof fn lemma_scan_is_unique(
    found: Seq<IsoMetaView>,
    query: Seq<char>,
    min_size: nat,
    a: Seq<IsoMetaView>,
    b: Seq<IsoMetaView>,
)
    requires
        in_order(a),
        a.to_multiset() == selected(found, query, min_size).to_multiset(),
        in_order(b),
        b.to_multiset() == selected(found, query, min_size).to_multiset(),
    ensures
        a == b,
{
    lemma_selected(found, query, min_size);
    lemma_distinct_paths_of_same_candidates(selected(found, query, min_size), a);
    lemma_distinct_paths_of_same_candidates(selected(found, query, min_size), b);
    lemma_order_is_unique(a, b);
}

/// The name of the file at `p`.
fn file_name(p: &str) -> (r: String)
    ensures
        r@ == file_name_of(p@),
{
    match final_name_of(p) {
        Some(name) => name,
        None => String::new(),
    }
}

/// Whether the file at `p` has the extension of a disk image.
pub fn has_iso_extension(p: &str) -> (r: bool)
    ensures
        r == has_image_extension(p@),
{
    let plain = chars_of(file_name(p).as_str());
    assert(plain@.subrange(0, plain@.len() as int) =~= plain@);
    let name = lowered_chars(&plain, 0, plain.len());
    let dot = last_start(&name, '.');
    proof {
        lemma_lowered_after_last_dot(plain@);
        assert(after_last(name@, '.') == lowered(after_last(plain@, '.')));
        assert(name@.len() == plain@.len());
    }
    if dot < 2 {
        return false;
    }
    let ext = string_of(&name, dot, name.len());
    same_text(ext.as_str(), "iso") || same_text(ext.as_str(), "img") || same_text(
        ext.as_str(),
        "raw",
    )
}

/// Lower-casing a name does not move its last `.`: what stands behind it
/// in the lowered name is what stood behind it before, lowered.
proof fn lemma_lowered_after_last_dot(s: Seq<char>)
    ensures
        after_last(lowered(s), '.') == lowered(after_last(s, '.')),
    decreases s.len(),
{
    if s.len() == 0 {
        assert(lowered(s) =~= Seq::<char>::empty());
        assert(lowered(Seq::<char>::empty()) =~= Seq::<char>::empty());
    } else if s.last() == '.' {
        assert(lowered(s).last() == '.');
        assert(lowered(Seq::<char>::empty()) =~= Seq::<char>::empty());
    } else {
        lemma_lowered_after_last_dot(s.drop_last());
        assert(lowered(s).last() == crate::text::ascii_lower(s.last()));
        assert(lowered(s).last() != '.');
        assert(lowered(s).drop_last() =~= lowered(s.drop_last()));
        assert(lowered(after_last(s.drop_last(), '.').push(s.last())) =~= lowered(
            after_last(s.drop_last(), '.'),
        ).push(crate::text::ascii_lower(s.last())));
    }
}

/// Whether the file called `name` matches `query`.
pub fn matches_filter(name: &str, query: &str) -> (r: bool)
    ensures
        r == matches_query(name@, query@),
{
    if query.unicode_len() == 0 {
        return true;
    }
    occurs_ignoring_ascii_case(query, name)
}

/// Whether the found file `f` is a candidate.
fn is_candidate(f: &IsoMeta, query: &str, min_size: u64) -> (r: bool)
    ensures
        r == qualifies(f@, query@, min_size as nat),
{
    if !has_iso_extension(f.path.as_path()) {
        return false;
    }
    let name = file_name(f.path.as_path());
    matches_filter(name.as_str(), query) && f.size.as_u64() >= min_size
}

/// Whether `list` holds a candidate at `path`.
fn holds_path(list: &Vec<IsoMeta>, path: &str) -> (r: bool)
    ensures
        r == has_path(list.deep_view(), path@),
{
    let mut k: usize = 0;
    while k < list.len()
        invariant
            k <= list@.len(),
            forall|j: int| 0 <= j < k ==> !same_path((#[trigger] list.deep_view()[j]).path, path@),
        decreases list@.len() - k,
    {
        if same_path_text(list[k].path.as_path(), path) {
            assert(same_path(list.deep_view()[k as int].path, path@));
            return true;
        }
        k += 1;
    }
    false
}

/// Whether `a` may stand before `b` among the candidates.
pub fn may_stand_before(a: &IsoMeta, b: &IsoMeta) -> (r: bool)
    ensures
        r == stands_before(a@, b@),
{
    match (a.modified, b.modified) {
        (Some(x), Some(y)) => {
            if x.0 != y.0 {
                x.0 > y.0
            } else {
                path_before_or_same(a.path.as_path(), b.path.as_path())
            }
        },
        (Some(_), None) => true,
        (None, Some(_)) => false,
        (None, None) => path_before_or_same(a.path.as_path(), b.path.as_path()),
    }
}

/// Puts candidates in order: the result holds the same candidates, each
/// as often as before, the most recently modified first.
pub fn rank_candidates(candidates: Vec<IsoMeta>) -> (r: Vec<IsoMeta>)
    ensures
        in_order(r.deep_view()),
        r.deep_view().to_multiset() == candidates.deep_view().to_multiset(),
{
    broadcast use vstd::multiset::group_multiset_axioms;
    broadcast use vstd::seq_lib::group_to_multiset_ensures;

    let mut rest = candidates;
    let mut out: Vec<IsoMeta> = Vec::new();
    assert(out.deep_view() =~= Seq::<IsoMetaView>::empty());
    while rest.len() > 0
        invariant
            in_order(out.deep_view()),
            out.deep_view().to_multiset().add(rest.deep_view().to_multiset())
                == candidates.deep_view().to_multiset(),
        decreases rest@.len(),
    {
        let ghost rest_before = rest.deep_view();
        let ghost out_before = out.deep_view();
        let x = rest.remove(0);
        proof {
            assert(rest.deep_view() =~= rest_before.remove(0));
            assert(rest_before[0] == x@);
            vstd::seq_lib::to_multiset_remove(rest_before, 0);
            assert(rest_before.contains(x@));
            vstd::seq_lib::to_multiset_contains(rest_before, x@);
        }
        let mut p: usize = 0;
        while p < out.len() && may_stand_before(&out[p], &x)
            invariant
                p <= out@.len(),
                out.deep_view() == out_before,
                forall|k: int| 0 <= k < p ==> stands_before(#[trigger] out_before[k], x@),
            decreases out@.len() - p,
        {
            p += 1;
        }
        out.insert(p, x);
        proof {
            let now = out.deep_view();
            assert(now =~= out_before.insert(p as int, x@));
            vstd::seq_lib::to_multiset_insert(out_before, p as int, x@);
            assert forall|i: int, j: int| 0 <= i < j < now.len() implies stands_before(
                #[trigger] now[i],
                #[trigger] now[j],
            ) by {
                if j < p {
                    assert(stands_before(out_before[i], out_before[j]));
                } else if j == p {
                    assert(stands_before(out_before[i], x@));
                } else if i == p {
                    lemma_order_total(out_before[p as int], x@);
                    if j - 1 > p {
                        assert(stands_before(out_before[p as int], out_before[j - 1]));
                        lemma_order_transitive(x@, out_before[p as int], out_before[j - 1]);
                    }
                } else if i < p {
                    assert(stands_before(out_before[i], out_before[j - 1]));
                } else {
                    assert(stands_before(out_before[i - 1], out_before[j - 1]));
                }
            }
            assert(now.to_multiset() == out_before.to_multiset().insert(x@));
            assert(rest.deep_view().to_multiset() == rest_before.to_multiset().remove(x@));
            assert(rest_before.to_multiset().count(x@) > 0);
            assert(now.to_multiset().add(rest.deep_view().to_multiset()) =~= out_before.to_multiset().add(
                rest_before.to_multiset(),
            ));
        }
    }
    assert(rest.deep_view() =~= Seq::<IsoMetaView>::empty());
    assert(out.deep_view().to_multiset().add(vstd::multiset::Multiset::<IsoMetaView>::empty())
        =~= out.deep_view().to_multiset());
    out
}

/// The image candidates among the files that a walk found.
///
/// `found` holds the regular files met, each under its canonical path,
/// with their sizes and times of modification. The result holds exactly
/// the selection (see
/// [`selected`]): the files that are images by their extension, match
/// `query` by their name and have at least `min_size` bytes, one for each
/// path; the most recently modified first, by path among equals.
pub fn scan(found: Vec<IsoMeta>, query: &str, min_size: u64) -> (r: Vec<IsoMeta>)
    ensures
        in_order(r.deep_view()),
        r.deep_view().to_multiset() == selected(
            found.deep_view(),
            query@,
            min_size as nat,
        ).to_multiset(),
        distinct_paths(r.deep_view()),
        forall|i: int|
            0 <= i < r@.len() ==> (#[trigger] r@[i]).size@ >= min_size && has_image_extension(
                r@[i].path@,
            ) && matches_query(file_name_of(r@[i].path@), query@) && found.deep_view().contains(
                r@[i]@,
            ),
        forall|k: int|
            0 <= k < found@.len() && qualifies((#[trigger] found@[k])@, query@, min_size as nat)
                ==> has_path(r.deep_view(), found@[k].path@),
{
    let ghost all = found.deep_view();
    let mut rest = found;
    let mut chosen: Vec<IsoMeta> = Vec::new();
    let ghost mut seen: Seq<IsoMetaView> = Seq::empty();
    proof {
        assert(chosen.deep_view() =~= Seq::<IsoMetaView>::empty());
        assert(all.subrange(0, 0) =~= Seq::<IsoMetaView>::empty());
        assert(rest.deep_view() =~= all.subrange(0, all.len() as int));
    }
    while rest.len() > 0
        invariant
            seen.len() + rest@.len() == all.len(),
            seen == all.subrange(0, seen.len() as int),
            rest.deep_view() == all.subrange(seen.len() as int, all.len() as int),
            chosen.deep_view() == selected(seen, query@, min_size as nat),
        decreases rest@.len(),
    {
        let ghost rest_before = rest.deep_view();
        let ghost chosen_before = chosen.deep_view();
        let f = rest.remove(0);
        proof {
            assert(rest.deep_view() =~= rest_before.remove(0));
            assert(rest_before[0] == f@);
            assert(f@ == all[seen.len() as int]);
            let longer = all.subrange(0, (seen.len() + 1) as int);
            assert(longer.drop_last() =~= seen);
            assert(longer.last() == f@);
            assert(rest.deep_view() =~= all.subrange((seen.len() + 1) as int, all.len() as int));
            seen = longer;
        }
        if is_candidate(&f, query, min_size) && !holds_path(&chosen, f.path.as_path()) {
            chosen.push(f);
            assert(chosen.deep_view() =~= chosen_before.push(f@));
        }
    }
    proof {
        assert(seen =~= all);
        lemma_selected(all, query@, min_size as nat);
    }
    let ghost selection = chosen.deep_view();
    let r = rank_candidates(chosen);
    proof {
        let ranking = r.deep_view();
        lemma_distinct_paths_of_same_candidates(selection, ranking);
        assert forall|i: int| 0 <= i < r@.len() implies (#[trigger] r@[i]).size@ >= min_size
            && has_image_extension(r@[i].path@) && matches_query(
            file_name_of(r@[i].path@),
            query@,
        ) && all.contains(r@[i]@) by {
            assert(ranking[i] == r@[i]@);
            assert(ranking.contains(ranking[i]));
            let j = choose|j: int| 0 <= j < selection.len() && selection[j] == ranking[i];
            assert(qualifies(selection[j], query@, min_size as nat));
        }
        assert forall|k: int|
            0 <= k < found@.len() && qualifies(
                (#[trigger] found@[k])@,
                query@,
                min_size as nat,
            ) implies has_path(ranking, found@[k].path@) by {
            assert(all[k] == found@[k]@);
            assert(has_path(selection, all[k].path));
            let i = choose|i: int|
                0 <= i < selection.len() && same_path((#[trigger] selection[i]).path, all[k].path);
            assert(selection.contains(selection[i]));
            assert(ranking.contains(selection[i]));
            let m = choose|m: int| 0 <= m < ranking.len() && ranking[m] == selection[i];
            assert(same_path(ranking[m].path, all[k].path));
        }
    }
    r
}

/// What a directory entry is, as far as a walk cares.
#[derive(Debug, Clone, Copy, PartialEq, Eq, Structural)]
pub enum EntryKind {
    Directory,
    File,
    Symlink,
    Other,
}

/// What a [`DirEntry`] stands for.
pub struct DirEntryView {
    pub name: Seq<char>,
    pub kind: Option<EntryKind>,
    pub leads_to_directory: bool,
}

/// One entry of a directory that a walk is listing.
#[derive(Debug)]
pub struct DirEntry {
    /// The entry's name within its directory.
    pub name: String,
    /// What the entry itself is, symbolic links not followed; `None`
    /// where that could not be found out.
    pub kind: Option<EntryKind>,
    /// Whether the entry is a directory once symbolic links are followed.
    pub leads_to_directory: bool,
}

impl View for DirEntry {
    type V = DirEntryView;

    open spec fn view(&self) -> DirEntryView {
        DirEntryView {
            name: self.name@,
            kind: self.kind,
            leads_to_directory: self.leads_to_directory,
        }
    }
}

/// What a walk does with an entry.
#[derive(Debug, Clone, Copy, PartialEq, Eq, Structural)]
pub enum Visit {
    /// Pass it by.
    Skip,
    /// List it in turn, one level deeper.
    Descend,
    /// Look up its size and time of modification: it may be a candidate.
    Inspect,
}

/// Whether `name` is hidden: it begins with a `.`.
pub open spec fn is_hidden(name: Seq<char>) -> bool {
    name.len() > 0 && name[0] == '.'
}

/// What a walk does with `entry`, met in a directory at `depth` below
/// its root (the root itself is at depth 0), when it goes no deeper than
/// `max_depth`.
///
/// Hidden directories are passed by, and so is whatever cannot be
/// classified. Symbolic links are never followed. A directory is listed
/// unless that would pass the depth limit. A regular file is inspected
/// if it is an image by its extension and matches the query.
pub open spec fn verdict(entry: DirEntryView, depth: nat, max_depth: nat, query: Seq<char>)
    -> Visit {
    if is_hidden(entry.name) && entry.leads_to_directory {
        Visit::Skip
    } else {
        match entry.kind {
            Some(EntryKind::Directory) => if depth < max_depth {
                Visit::Descend
            } else {
                Visit::Skip
            },
            Some(EntryKind::File) => if has_image_extension(entry.name) && matches_query(
                entry.name,
                query,
            ) {
                Visit::Inspect
            } else {
                Visit::Skip
            },
            _ => Visit::Skip,
        }
    }
}

/// Decides what a walk does with `entry`.
pub fn judge(entry: &DirEntry, depth: usize, max_depth: usize, query: &str) -> (r: Visit)
    ensures
        r == verdict(entry@, depth as nat, max_depth as nat, query@),
{
    let name = entry.name.as_str();
    if entry.leads_to_directory && name.unicode_len() > 0 && name.get_char(0) == '.' {
        return Visit::Skip;
    }
    match entry.kind {
        Some(EntryKind::Directory) => {
            if depth < max_depth {
                Visit::Descend
            } else {
                Visit::Skip
            }
        },
        Some(EntryKind::File) => {
            if has_iso_extension(name) && matches_filter(name, query) {
                Visit::Inspect
            } else {
                Visit::Skip
            }
        },
        _ => Visit::Skip,
    }
}

/// What a [`Root`] stands for.
pub struct RootView {
    pub path: Seq<char>,
    pub canonical: Option<Seq<char>>,
}

/// A directory to scan, with its canonical path where that is known.
#[derive(Debug)]
pub struct Root {
    pub path: DirPath,
    pub canonical: Option<DirPath>,
}

impl View for Root {
    type V = RootView;

    open spec fn view(&self) -> RootView {
        RootView { path: self.path@, canonical: self.canonical.deep_view() }
    }
}

impl DeepView for Root {
    type V = RootView;

    open spec fn deep_view(&self) -> RootView {
        self@
    }
}

impl RootView {
    /// The path by which roots are told apart: the canonical one, or the
    /// path as given where no canonical path is known.
    pub open spec fn key(self) -> Seq<char> {
        match self.canonical {
            Some(c) => c,
            None => self.path,
        }
    }
}

/// Whether `roots` holds a root with the key `key`.
pub open spec fn has_key(roots: Seq<RootView>, key: Seq<char>) -> bool {
    exists|i: int| 0 <= i < roots.len() && same_path((#[trigger] roots[i]).key(), key)
}

/// The roots with each directory once: of several roots with one key the
/// first stays.
pub open spec fn distinct_roots(roots: Seq<RootView>) -> Seq<RootView>
    decreases roots.len(),
{
    if roots.len() == 0 {
        Seq::empty()
    } else {
        let before = distinct_roots(roots.drop_last());
        if has_key(before, roots.last().key()) {
            before
        } else {
            before.push(roots.last())
        }
    }
}

/// The position of the first root with the key `key`, or the length of
/// `roots` if there is none.
pub open spec fn first_with_key(roots: Seq<RootView>, key: Seq<char>) -> int
    decreases roots.len(),
{
    if roots.len() == 0 {
        0
    } else if same_path(roots[0].key(), key) {
        0
    } else {
        1 + first_with_key(roots.drop_first(), key)
    }
}

/// The paths of `roots`, as they were given.
pub open spec fn given_paths(roots: Seq<RootView>) -> Seq<Seq<char>> {
    Seq::new(roots.len(), |i: int| roots[i].path)
}

/// The directories to scan: each once, and without the home directory
/// where the downloads directory below it is scanned too, so that no
/// subtree is walked twice. `home` and `downloads` are the canonical
/// paths of the two, where known.
pub open spec fn normalized(
    roots: Seq<RootView>,
    home: Option<Seq<char>>,
    downloads: Option<Seq<char>>,
) -> Seq<Seq<char>> {
    let kept = distinct_roots(roots);
    if downloads is Some && has_key(kept, downloads->0) && home is Some && has_key(
        kept,
        home->0,
    ) {
        given_paths(kept.remove(first_with_key(kept, home->0)))
    } else {
        given_paths(kept)
    }
}

/// The first root with a key is where [`first_with_key`] says, and it
/// lies in the list exactly if some root has the key.
pub proof fn lemma_first_with_key(roots: Seq<RootView>, key: Seq<char>)
    ensures
        0 <= first_with_key(roots, key) <= roots.len(),
        first_with_key(roots, key) < roots.len() <==> has_key(roots, key),
        first_with_key(roots, key) < roots.len() ==> same_path(
            roots[first_with_key(roots, key)].key(),
            key,
        ),
        forall|i: int|
            0 <= i < first_with_key(roots, key) ==> !same_path((#[trigger] roots[i]).key(), key),
    decreases roots.len(),
{
    if roots.len() > 0 && !same_path(roots[0].key(), key) {
        let rest = roots.drop_first();
        lemma_first_with_key(rest, key);
        let k = first_with_key(rest, key);
        if has_key(roots, key) {
            let i = choose|i: int|
                0 <= i < roots.len() && same_path((#[trigger] roots[i]).key(), key);
            assert(same_path(rest[i - 1].key(), key));
        }
        if k < rest.len() {
            assert(same_path(roots[k + 1].key(), key));
        }
        assert forall|i: int| 0 <= i < k + 1 implies !same_path(
            (#[trigger] roots[i]).key(),
            key,
        ) by {
            if i > 0 {
                assert(!same_path(rest[i - 1].key(), key));
            }
        }
    } else if roots.len() > 0 {
        assert(same_path(roots[0].key(), key));
    }
}

/// The key of a root: its canonical path, or its path as given.
fn key_of(root: &Root) -> (r: &str)
    ensures
        r@ == root@.key(),
{
    match &root.canonical {
        Some(c) => c.as_path(),
        None => root.path.as_path(),
    }
}

/// Where `roots` first holds a root with the key `key`, or its length.
fn position_of_key(roots: &Vec<Root>, key: &str) -> (r: usize)
    ensures
        r == first_with_key(roots.deep_view(), key@),
        r <= roots@.len(),
{
    proof {
        lemma_first_with_key(roots.deep_view(), key@);
    }
    let mut k: usize = 0;
    while k < roots.len()
        invariant
            k <= roots@.len(),
            forall|j: int| 0 <= j < k ==> !same_path((#[trigger] roots.deep_view()[j]).key(), key@),
            k <= first_with_key(roots.deep_view(), key@) <= roots@.len(),
            first_with_key(roots.deep_view(), key@) < roots@.len() ==> same_path(
                roots.deep_view()[first_with_key(roots.deep_view(), key@)].key(),
                key@,
            ),
            forall|j: int|
                0 <= j < first_with_key(roots.deep_view(), key@) ==> !same_path(
                    (#[trigger] roots.deep_view()[j]).key(),
                    key@,
                ),
        decreases roots@.len() - k,
    {
        if same_path_text(key_of(&roots[k]), key) {
            assert(same_path(roots.deep_view()[k as int].key(), key@));
            return k;
        }
        k += 1;
        assert(!same_path(roots.deep_view()[k - 1].key(), key@));
    }
    k
}

/// The directories to scan, each once and without a home directory whose
/// downloads directory is scanned too.
pub fn normalize_roots(roots: Vec<Root>, home: Option<DirPath>, downloads: Option<DirPath>) -> (r:
    Vec<DirPath>)
    ensures
        r.deep_view() == normalized(roots.deep_view(), home.deep_view(), downloads.deep_view()),
{
    let ghost all = roots.deep_view();
    let mut rest = roots;
    let mut kept: Vec<Root> = Vec::new();
    let ghost mut seen: Seq<RootView> = Seq::empty();
    proof {
        assert(kept.deep_view() =~= Seq::<RootView>::empty());
        assert(all.subrange(0, 0) =~= Seq::<RootView>::empty());
        assert(rest.deep_view() =~= all.subrange(0, all.len() as int));
    }
    while rest.len() > 0
        invariant
            seen.len() + rest@.len() == all.len(),
            seen == all.subrange(0, seen.len() as int),
            rest.deep_view() == all.subrange(seen.len() as int, all.len() as int),
            kept.deep_view() == distinct_roots(seen),
        decreases rest@.len(),
    {
        let ghost rest_before = rest.deep_view();
        let ghost kept_before = kept.deep_view();
        let root = rest.remove(0);
        proof {
            assert(rest.deep_view() =~= rest_before.remove(0));
            assert(rest_before[0] == root@);
            let longer = all.subrange(0, (seen.len() + 1) as int);
            assert(longer.drop_last() =~= seen);
            assert(longer.last() == root@);
            assert(rest.deep_view() =~= all.subrange((seen.len() + 1) as int, all.len() as int));
            seen = longer;
            lemma_first_with_key(kept_before, root@.key());
        }
        if position_of_key(&kept, key_of(&root)) == kept.len() {
            kept.push(root);
            assert(kept.deep_view() =~= kept_before.push(root@));
        }
    }
    assert(seen =~= all);
    match (&home, &downloads) {
        (Some(h), Some(d)) => {
            proof {
                lemma_first_with_key(kept.deep_view(), d@);
                lemma_first_with_key(kept.deep_view(), h@);
            }
            if position_of_key(&kept, d.as_path()) < kept.len() {
                let at = position_of_key(&kept, h.as_path());
                if at < kept.len() {
                    let ghost before = kept.deep_view();
                    let _ = kept.remove(at);
                    assert(kept.deep_view() =~= before.remove(at as int));
                }
            }
        },
        _ => {},
    }
    let ghost finally = kept.deep_view();
    let mut out: Vec<DirPath> = Vec::new();
    while kept.len() > 0
        invariant
            out@.len() + kept@.len() == finally.len(),
            forall|i: int| 0 <= i < out@.len() ==> (#[trigger] out@[i])@ == finally[i].path,
            kept.deep_view() == finally.subrange(out@.len() as int, finally.len() as int),
        decreases kept@.len(),
    {
        let ghost kept_before = kept.deep_view();
        let root = kept.remove(0);
        proof {
            assert(kept.deep_view() =~= kept_before.remove(0));
            assert(kept_before[0] == root@);
            assert(kept.deep_view() =~= finally.subrange((out@.len() + 1) as int, finally.len() as int));
        }
        out.push(root.path);
    }
    assert(out.deep_view() =~= given_paths(finally));
    out
}

/// How deep below a root a scan goes, unless told otherwise.
pub const MAX_DEPTH: usize = 5;

/// The smallest file that a scan takes for an image, unless told
/// otherwise: 100 MiB.
pub const MIN_SIZE: u64 = 104857600;

/// The downloads directory below the home directory `home`.
pub open spec fn downloads_below(home: Seq<char>) -> Seq<char> {
    crate::domain::paths::joined(home, "Downloads"@)
}

/// The directories that a scan searches unless told otherwise, in their
/// order: the working directory, the downloads directory below the home
/// directory, the home directory; each where it is known.
pub open spec fn default_root_paths(cwd: Option<Seq<char>>, home: Option<Seq<char>>) -> Seq<
    Seq<char>,
> {
    let first = match cwd {
        Some(c) => seq![c],
        None => Seq::empty(),
    };
    match home {
        Some(h) => first + seq![downloads_below(h), h],
        None => first,
    }
}

/// The downloads directory below the home directory `home`.
pub fn downloads_of(home: &DirPath) -> (r: DirPath)
    ensures
        r@ == downloads_below(home@),
{
    home.join("Downloads")
}

/// The directories that a scan searches unless told otherwise.
pub fn default_roots(cwd: Option<DirPath>, home: Option<DirPath>) -> (r: Vec<DirPath>)
    ensures
        r.deep_view() == default_root_paths(cwd.deep_view(), home.deep_view()),
{
    let mut roots: Vec<DirPath> = Vec::new();
    assert(roots.deep_view() =~= Seq::<Seq<char>>::empty());
    match cwd {
        Some(c) => {
            roots.push(c);
            assert(roots.deep_view() =~= seq![c@]);
        },
        None => {},
    }
    let ghost first = roots.deep_view();
    match home {
        Some(h) => {
            roots.push(downloads_of(&h));
            roots.push(h);
            assert(roots.deep_view() =~= first + seq![downloads_below(h@), h@]);
        },
        None => {},
    }
    roots
}

/// A copy of a list of candidates.
pub fn clone_candidates(v: &Vec<IsoMeta>) -> (r: Vec<IsoMeta>)
    ensures
        r.deep_view() == v.deep_view(),
{
    let mut r: Vec<IsoMeta> = Vec::new();
    let mut i: usize = 0;
    while i < v.len()
        invariant
            i <= v@.len(),
            r@.len() == i,
            forall|k: int| 0 <= k < i ==> r@[k]@ == v@[k]@,
        decreases v@.len() - i,
    {
        r.push(v[i].clone());
        i += 1;
    }
    assert(r.deep_view() =~= v.deep_view());
    r
}

} // verus!
