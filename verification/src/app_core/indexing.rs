//! Helpers around a loaded dataset: the version label shown for it, the
//! entries of the version picker, and the order the items are listed in.
use vstd::prelude::*;

use crate::app_core::state::VersionEntry;
use crate::model::{BuildInfo, IndexedItem, Root, owned};
use crate::text::{append_str, chars_of, str_eq};
use std::cmp::Ordering;

verus! {

/// The label of the loaded game version: the tag name, prefixed with the
/// requested version key when that key is neither the build number nor the
/// tag name (a nightly loaded from a local file shows just its tag name).
pub open spec fn version_label(version: Seq<char>, from_file: bool, build: BuildInfo) -> Seq<char> {
    if from_file && version == "nightly"@ {
        build.tag_name@
    } else if version.len() > 0 && version != build.build_number@ && version != build.tag_name@ {
        version + ":"@ + build.tag_name@
    } else {
        build.tag_name@
    }
}

/// The label of the loaded game version (see [`version_label`]); `file_path`
/// is set when the data came from a local file.
pub fn resolve_game_version_label(version: &str, file_path: Option<&str>, root: &Root) -> (label: String)
    ensures
        label@ == version_label(version@, file_path is Some, root.build),
{
    if file_path.is_some() && str_eq(version, "nightly") {
        root.build.tag_name.clone()
    } else if !version.is_empty() && !str_eq(version, root.build.build_number.as_str()) && !str_eq(
        version,
        root.build.tag_name.as_str(),
    ) {
        let mut out = String::new();
        append_str(&mut out, version);
        append_str(&mut out, ":");
        append_str(&mut out, root.build.tag_name.as_str());
        out
    } else {
        root.build.tag_name.clone()
    }
}

/// The build numbers of `builds` other than `stable` and `nightly`, in order.
pub open spec fn listed_builds(builds: Seq<BuildInfo>) -> Seq<Seq<char>>
    decreases builds.len(),
{
    if builds.len() == 0 {
        Seq::empty()
    } else {
        let rest = listed_builds(builds.drop_last());
        let b = builds.last().build_number@;
        if b == "stable"@ || b == "nightly"@ {
            rest
        } else {
            rest.push(b)
        }
    }
}

/// The view of a picker entry: label, version, detail.
pub open spec fn entry_view(e: VersionEntry) -> (Seq<char>, Seq<char>, Option<Seq<char>>) {
    (e.label@, e.version@, match e.detail {
        Some(d) => Some(d@),
        None => None,
    })
}

/// A picker entry with the same label and version and no detail.
pub open spec fn plain_entry(v: Seq<char>) -> (Seq<char>, Seq<char>, Option<Seq<char>>) {
    (v, v, None)
}

fn plain_version_entry(v: &str) -> (e: VersionEntry)
    ensures
        entry_view(e) == plain_entry(v@),
{
    VersionEntry { label: owned(v), version: owned(v), detail: None }
}

/// The entries of the version picker: `stable`, `nightly`, then every
/// other build number of `builds` in order.
pub fn build_version_entries_from_builds(builds: Vec<BuildInfo>) -> (entries: Vec<VersionEntry>)
    ensures
        entries@.map_values(|e: VersionEntry| entry_view(e)) == seq![plain_entry("stable"@), plain_entry("nightly"@)]
            + listed_builds(builds@).map_values(|b: Seq<char>| plain_entry(b)),
{
    let mut entries: Vec<VersionEntry> = Vec::new();
    entries.push(plain_version_entry("stable"));
    entries.push(plain_version_entry("nightly"));
    let ghost head = seq![plain_entry("stable"@), plain_entry("nightly"@)];
    assert(entries@.map_values(|e: VersionEntry| entry_view(e)) =~= head);
    assert(builds@.take(0) =~= Seq::<BuildInfo>::empty());
    let mut i: usize = 0;
    while i < builds.len()
        invariant
            0 <= i <= builds@.len(),
            head == seq![plain_entry("stable"@), plain_entry("nightly"@)],
            entries@.map_values(|e: VersionEntry| entry_view(e)) == head + listed_builds(builds@.take(i as int)).map_values(
                |b: Seq<char>| plain_entry(b),
            ),
        decreases builds@.len() - i,
    {
        let b = builds[i].build_number.as_str();
        let ghost before = entries@;
        proof {
            assert(builds@.take(i + 1).drop_last() =~= builds@.take(i as int));
            assert(builds@.take(i + 1).last() == builds@[i as int]);
        }
        if !str_eq(b, "stable") && !str_eq(b, "nightly") {
            let e = plain_version_entry(b);
            entries.push(e);
            proof {
                let kept = listed_builds(builds@.take(i as int));
                assert(listed_builds(builds@.take(i + 1)) == kept.push(b@));
                assert(kept.push(b@).map_values(|x: Seq<char>| plain_entry(x)) =~= kept.map_values(|x: Seq<char>| plain_entry(x)).push(plain_entry(b@)));
                assert(entries@.map_values(|x: VersionEntry| entry_view(x)) =~= before.map_values(|x: VersionEntry| entry_view(x)).push(entry_view(e)));
            }
        }
        i += 1;
    }
    assert(builds@.take(builds@.len() as int) =~= builds@);
    entries
}

/// `a` comes before `b` in the order of their characters' code points
/// (which is the byte order of their UTF-8 encodings).
pub open spec fn lex_lt(a: Seq<char>, b: Seq<char>) -> bool
    decreases a.len(),
{
    if b.len() == 0 {
        false
    } else if a.len() == 0 {
        true
    } else if a[0] < b[0] {
        true
    } else if a[0] > b[0] {
        false
    } else {
        lex_lt(a.drop_first(), b.drop_first())
    }
}

/// Items are listed by type, then by id.
pub open spec fn item_before(a: IndexedItem, b: IndexedItem) -> bool {
    lex_lt(a.item_type@, b.item_type@) || (a.item_type@ == b.item_type@ && lex_lt(a.id@, b.id@))
}

/// The items are in listing order: none comes before an earlier one.
pub open spec fn listing_sorted(s: Seq<IndexedItem>) -> bool {
    forall|i: int, j: int| 0 <= i < j < s.len() ==> !item_before(s[j], s[i])
}

/// -1, 0 or 1 as `a` comes before, equals or comes after `b`.
pub fn compare_text(a: &str, b: &str) -> (r: i8)
    ensures
        r == -1 <==> lex_lt(a@, b@),
        r == 0 <==> a@ == b@,
        r == 1 <==> lex_lt(b@, a@),
        -1 <= r <= 1,
{
    let x = chars_of(a);
    let y = chars_of(b);
    let mut i: usize = 0;
    assert(x@.skip(0) =~= x@);
    assert(y@.skip(0) =~= y@);
    while i < x.len() && i < y.len() && x[i] == y[i]
        invariant
            0 <= i <= x@.len(),
            i <= y@.len(),
            x@ == a@,
            y@ == b@,
            x@.take(i as int) == y@.take(i as int),
            lex_lt(a@, b@) == lex_lt(x@.skip(i as int), y@.skip(i as int)),
            lex_lt(b@, a@) == lex_lt(y@.skip(i as int), x@.skip(i as int)),
        decreases x@.len() - i,
    {
        proof {
            assert(x@.skip(i as int).drop_first() =~= x@.skip(i + 1));
            assert(y@.skip(i as int).drop_first() =~= y@.skip(i + 1));
            assert(x@.take(i + 1) =~= x@.take(i as int).push(x@[i as int]));
            assert(y@.take(i + 1) =~= y@.take(i as int).push(y@[i as int]));
        }
        i += 1;
    }
    proof {
        assert(x@.skip(i as int).len() == x@.len() - i);
        assert(y@.skip(i as int).len() == y@.len() - i);
        if i < x@.len() {
            assert(x@.skip(i as int)[0] == x@[i as int]);
        }
        if i < y@.len() {
            assert(y@.skip(i as int)[0] == y@[i as int]);
        }
        if i == x@.len() && i == y@.len() {
            assert(x@ =~= x@.take(i as int));
            assert(y@ =~= y@.take(i as int));
        }
        let xs = x@.skip(i as int);
        let ys = y@.skip(i as int);
        if i < x@.len() && i < y@.len() {
            assert(x@[i as int] != y@[i as int]);
            assert(x@ != y@) by {
                if x@ == y@ {
                    assert(x@[i as int] == y@[i as int]);
                }
            }
            assert(xs[0] == x@[i as int]);
            assert(ys[0] == y@[i as int]);
            if x@[i as int] < y@[i as int] {
                assert(lex_lt(xs, ys));
                assert(!lex_lt(ys, xs));
            } else {
                assert(!lex_lt(xs, ys));
                assert(lex_lt(ys, xs));
            }
        }
        if i == x@.len() && i == y@.len() {
            assert(!lex_lt(xs, ys));
            assert(!lex_lt(ys, xs));
        }
        if i == x@.len() && i < y@.len() {
            assert(lex_lt(xs, ys));
            assert(!lex_lt(ys, xs));
        }
        if i < x@.len() && i == y@.len() {
            assert(!lex_lt(xs, ys));
            assert(lex_lt(ys, xs));
        }
        if i == x@.len() && i < y@.len() {
            assert(x@.len() != y@.len());
        }
        if i < x@.len() && i == y@.len() {
            assert(x@.len() != y@.len());
        }
    }
    if i == x.len() && i == y.len() {
        0
    } else if i == x.len() {
        -1
    } else if i == y.len() {
        1
    } else if x[i] < y[i] {
        -1
    } else {
        1
    }
}

/// -1, 0 or 1 as `a` is listed before, together with, or after `b`.
pub fn compare_items(a: &IndexedItem, b: &IndexedItem) -> (r: i8)
    ensures
        r == -1 <==> item_before(*a, *b),
        r == 1 <==> item_before(*b, *a),
        r == 0 <==> (a.item_type@ == b.item_type@ && a.id@ == b.id@),
        -1 <= r <= 1,
{
    let t = compare_text(a.item_type.as_str(), b.item_type.as_str());
    if t != 0 {
        t
    } else {
        compare_text(a.id.as_str(), b.id.as_str())
    }
}

/// The listing order of two items as an `Ordering`.
fn listing_order(a: &IndexedItem, b: &IndexedItem) -> (o: Ordering)
    ensures
        (o == Ordering::Less) <==> item_before(*a, *b),
        (o == Ordering::Greater) <==> item_before(*b, *a),
{
    let r = compare_items(a, b);
    if r < 0 {
        Ordering::Less
    } else if r > 0 {
        Ordering::Greater
    } else {
        Ordering::Equal
    }
}

/// `after` is `before` reordered by `p` (position `i` of `after` holds item
/// `p[i]` of `before`), items that `same` relates kept in their order.
pub open spec fn stable_reorder<T>(before: Seq<T>, after: Seq<T>, p: Seq<int>, same: spec_fn(T, T) -> bool) -> bool {
    &&& after.len() == before.len()
    &&& p.len() == before.len()
    &&& forall|i: int| 0 <= i < p.len() ==> 0 <= #[trigger] p[i] < before.len() && after[i] == before[p[i]]
    &&& forall|i: int, j: int| 0 <= i < j < p.len() ==> #[trigger] p[i] != #[trigger] p[j]
    &&& forall|i: int, j: int|
        0 <= i < j < p.len() && same(#[trigger] after[i], #[trigger] after[j]) ==> p[i] < p[j]
}

/// Two items have the same place in the listing order: same type, same id.
pub open spec fn same_listing_key(a: IndexedItem, b: IndexedItem) -> bool {
    a.item_type@ == b.item_type@ && a.id@ == b.id@
}

/// `after` is `before` reordered by `p`, items with the same type and id
/// kept in their order.
pub open spec fn listing_reorder(before: Seq<IndexedItem>, after: Seq<IndexedItem>, p: Seq<int>) -> bool {
    stable_reorder(before, after, p, |a: IndexedItem, b: IndexedItem| same_listing_key(a, b))
}

/// `slice::sort_by` of the standard library with the listing order: the
/// items are permuted into an order where none comes before an earlier one,
/// and, the sort being stable, items with the same type and id keep their
/// order.
#[verifier::external_body]
fn sort_by_listing_order(items: &mut Vec<IndexedItem>)
    ensures
        final(items)@.to_multiset() == old(items)@.to_multiset(),
        listing_sorted(final(items)@),
        exists|p: Seq<int>| #[trigger] listing_reorder(old(items)@, final(items)@, p),
{
    items.sort_by(|a, b| listing_order(a, b));
}

/// Puts the items in listing order: by type, then by id; items with the
/// same type and id keep their order.
pub fn sort_for_listing(items: &mut Vec<IndexedItem>)
    ensures
        final(items)@.to_multiset() == old(items)@.to_multiset(),
        listing_sorted(final(items)@),
        exists|p: Seq<int>| #[trigger] listing_reorder(old(items)@, final(items)@, p),
{
    sort_by_listing_order(items);
}

} // verus!
