//! Inverted index over the items: lookups by id/abstract, type and category,
//! and a word index over all string values.
use vstd::prelude::*;
use vstd::hash_map::StringHashMap;

use crate::json::JsonValue;
use crate::model::IndexedItem;
use crate::text::{
    at_least_two_bytes, char_is_alphanumeric, chars_of, contains_infix, has_infix,
    is_alphanumeric, lowercase, string_from_range, to_lowercase, utf8_at_least_two_bytes,
};

verus! {

broadcast use vstd::hash_map::group_hash_map_axioms;

/// A list of item indices in strictly increasing order (a set, listed in order).
pub open spec fn strictly_sorted(s: Seq<usize>) -> bool {
    forall|i: int, j: int| 0 <= i < j < s.len() ==> s[i] < s[j]
}

/// A strictly increasing list of values below `n` has at most `n` elements.
pub proof fn lemma_sorted_len_bound(s: Seq<usize>, n: int)
    requires
        0 <= n,
        strictly_sorted(s),
        forall|i: int| 0 <= i < s.len() ==> s[i] < n,
    ensures
        s.len() <= n,
{
    if s.len() > 0 {
        assert forall|i: int| 0 <= i < s.len() implies s[i] >= i by {
            lemma_sorted_at_least_index(s, i);
        }
        assert(s[s.len() - 1] >= s.len() - 1);
        assert(s[s.len() - 1] < n);
    }
}

proof fn lemma_sorted_at_least_index(s: Seq<usize>, i: int)
    requires
        strictly_sorted(s),
        0 <= i < s.len(),
    ensures
        s[i] >= i,
    decreases i,
{
    if i > 0 {
        lemma_sorted_at_least_index(s, i - 1);
        assert(s[i - 1] < s[i]);
    }
}

/// Two strictly increasing lists with the same elements are equal.
pub proof fn lemma_sorted_unique(a: Seq<usize>, b: Seq<usize>)
    requires
        strictly_sorted(a),
        strictly_sorted(b),
        forall|x: usize| a.contains(x) <==> b.contains(x),
    ensures
        a == b,
    decreases a.len(),
{
    if a.len() == 0 {
        if b.len() > 0 {
            assert(b.contains(b[0]));
        }
        assert(a =~= b);
    } else {
        assert(a.contains(a[0]));
        assert(b.contains(a[0]));
        let j = choose|j: int| 0 <= j < b.len() && b[j] == a[0];
        assert(b.contains(b[0]));
        assert(a.contains(b[0]));
        let i = choose|i: int| 0 <= i < a.len() && a[i] == b[0];
        if i > 0 {
            assert(a[0] < a[i]);
        }
        if j > 0 {
            assert(b[0] < b[j]);
        }
        assert(a[0] == b[0]);
        let a2 = a.drop_first();
        let b2 = b.drop_first();
        assert forall|x: usize| a2.contains(x) implies b2.contains(x) by {
            let k = choose|k: int| 0 <= k < a2.len() && a2[k] == x;
            assert(a[k + 1] == x);
            assert(a[0] < a[k + 1]);
            assert(a.contains(x));
            assert(b.contains(x));
            let m = choose|m: int| 0 <= m < b.len() && b[m] == x;
            assert(m != 0);
            assert(b2[m - 1] == x);
        }
        assert forall|x: usize| b2.contains(x) implies a2.contains(x) by {
            let k = choose|k: int| 0 <= k < b2.len() && b2[k] == x;
            assert(b[k + 1] == x);
            assert(b[0] < b[k + 1]);
            assert(b.contains(x));
            assert(a.contains(x));
            let m = choose|m: int| 0 <= m < a.len() && a[m] == x;
            assert(m != 0);
            assert(a2[m - 1] == x);
        }
        assert(strictly_sorted(a2));
        assert(strictly_sorted(b2));
        lemma_sorted_unique(a2, b2);
        assert(a =~= b) by {
            assert forall|k: int| 0 <= k < a.len() implies a[k] == b[k] by {
                if k > 0 {
                    assert(a[k] == a2[k - 1]);
                    assert(b[k] == b2[k - 1]);
                }
            }
        }
    }
}

/// Every key of the table maps to a non-empty, strictly increasing list.
pub open spec fn well_sorted(m: Map<Seq<char>, Seq<usize>>) -> bool {
    forall|k: Seq<char>| #[trigger] m.contains_key(k) ==> m[k].len() > 0 && strictly_sorted(m[k])
}

/// Item `x` is listed under key `k`.
pub open spec fn listed(m: Map<Seq<char>, Seq<usize>>, k: Seq<char>, x: usize) -> bool {
    m.contains_key(k) && m[k].contains(x)
}

/// Item `x` is listed under some key that contains `pat`.
pub open spec fn listed_under_infix(m: Map<Seq<char>, Seq<usize>>, pat: Seq<char>, x: usize) -> bool {
    exists|k: Seq<char>| #[trigger] listed(m, k, x) && has_infix(k, pat)
}

/// Characters that separate words: anything but letters, digits, `_` and `-`.
pub open spec fn is_delimiter(c: char) -> bool {
    !char_is_alphanumeric(c) && c != '_' && c != '-'
}

/// `t[a..b]` is a maximal non-empty run of non-delimiter characters.
pub open spec fn maximal_run(t: Seq<char>, a: int, b: int) -> bool {
    &&& 0 <= a < b <= t.len()
    &&& (a == 0 || is_delimiter(t[a - 1]))
    &&& (b == t.len() || is_delimiter(t[b]))
    &&& forall|j: int| a <= j < b ==> !is_delimiter(#[trigger] t[j])
}

/// The words of a text: its maximal runs of non-delimiters, lowercased,
/// keeping those whose UTF-8 form has at least two bytes.
pub open spec fn is_word_of(t: Seq<char>, w: Seq<char>) -> bool {
    exists|a: int, b: int|
        #[trigger] maximal_run(t, a, b) && w == lowercase(t.subrange(a, b))
            && utf8_at_least_two_bytes(w)
}

/// A word of some string inside `v` (keys of objects are not searched).
pub open spec fn value_has_word(v: JsonValue, w: Seq<char>) -> bool
    decreases v,
{
    match v {
        JsonValue::Str(s) => is_word_of(s@, w),
        JsonValue::Array(items) => any_value_has_word(items@, w),
        JsonValue::Object(entries) => any_member_has_word(entries@, w),
        _ => false,
    }
}

/// Some element of `vs` has the word `w`.
pub open spec fn any_value_has_word(vs: Seq<JsonValue>, w: Seq<char>) -> bool
    decreases vs,
{
    if vs.len() == 0 {
        false
    } else {
        value_has_word(vs[0], w) || any_value_has_word(vs.drop_first(), w)
    }
}

/// Some member value of `es` has the word `w`.
pub open spec fn any_member_has_word(es: Seq<(String, JsonValue)>, w: Seq<char>) -> bool
    decreases es,
{
    if es.len() == 0 {
        false
    } else {
        value_has_word(es[0].1, w) || any_member_has_word(es.drop_first(), w)
    }
}

/// The identifier under which an item is indexed: its `id`, or else its
/// string member `abstract`, or "".
pub open spec fn id_or_abstract(item: IndexedItem) -> Seq<char> {
    if item.id@.len() > 0 {
        item.id@
    } else {
        match item.value.spec_get_str("abstract"@) {
            Some(a) => a,
            None => Seq::empty(),
        }
    }
}

/// The string member `category` of an item.
pub open spec fn category_of(item: IndexedItem) -> Option<Seq<char>> {
    item.value.spec_get_str("category"@)
}

/// The words under which an item is found by a plain search: the words of
/// its identifier, of its lowercased type and category, and of every string
/// inside its value.
pub open spec fn item_has_word(item: IndexedItem, w: Seq<char>) -> bool {
    ||| (id_or_abstract(item).len() > 0 && is_word_of(id_or_abstract(item), w))
    ||| (item.item_type@.len() > 0 && is_word_of(lowercase(item.item_type@), w))
    ||| (category_of(item) matches Some(c) && is_word_of(lowercase(c), w))
    ||| value_has_word(item.value, w)
}

/// A table from text keys to sets of item indices.
pub struct PostingTable {
    keys: Vec<String>,
    postings: Vec<Vec<usize>>,
    positions: StringHashMap<usize>,
    bound: usize,
}

impl PostingTable {
    /// The keys, positions and lists agree, and every list is non-empty,
    /// strictly increasing and below the recorded bound.
    pub closed spec fn wf(&self) -> bool {
        &&& self.keys@.len() == self.postings@.len()
        &&& forall|i: int|
            0 <= i < self.keys@.len() ==> #[trigger] self.positions@.contains_key(self.keys@[i]@)
                && self.positions@[self.keys@[i]@] == i
        &&& forall|k: Seq<char>|
            #[trigger] self.positions@.contains_key(k) ==> self.positions@[k] < self.keys@.len()
                && self.keys@[self.positions@[k] as int]@ == k
        &&& forall|i: int|
            0 <= i < self.postings@.len() ==> #[trigger] self.postings@[i]@.len() > 0
                && strictly_sorted(self.postings@[i]@)
        &&& forall|i: int, j: int|
            0 <= i < self.postings@.len() && 0 <= j < self.postings@[i]@.len()
                ==> #[trigger] self.postings@[i]@[j] < self.bound
    }

    /// The key → indices map that the table holds.
    pub closed spec fn view(&self) -> Map<Seq<char>, Seq<usize>> {
        Map::new(
            |k: Seq<char>| self.positions@.contains_key(k),
            |k: Seq<char>| self.postings@[self.positions@[k] as int]@,
        )
    }

    /// The lists of a well-formed table are non-empty and strictly increasing.
    pub proof fn lemma_well_sorted(&self)
        requires
            self.wf(),
        ensures
            well_sorted(self.view()),
    {
        assert forall|k: Seq<char>| #[trigger] self.view().contains_key(k) implies self.view()[k].len() > 0
            && strictly_sorted(self.view()[k]) by {
            let p = self.positions@[k] as int;
            assert(self.postings@[p]@.len() > 0);
        }
    }

    /// An empty table.
    pub fn new() -> (t: PostingTable)
        ensures
            t.wf(),
            t.view() == Map::<Seq<char>, Seq<usize>>::empty(),
    {
        let t = PostingTable {
            keys: Vec::new(),
            postings: Vec::new(),
            positions: StringHashMap::new(),
            bound: 0,
        };
        assert(t.view() =~= Map::<Seq<char>, Seq<usize>>::empty());
        t
    }

    /// Whether the table has no keys.
    pub fn is_empty(&self) -> (b: bool)
        requires
            self.wf(),
        ensures
            b == self.view().dom().is_empty(),
    {
        if self.keys.len() == 0 {
            assert(self.view().dom() =~= Set::<Seq<char>>::empty());
            true
        } else {
            assert(self.positions@.contains_key(self.keys@[0]@));
            assert(self.view().dom().contains(self.keys@[0]@));
            false
        }
    }

    /// Whether `key` is in the table.
    pub fn contains_key(&self, key: &str) -> (b: bool)
        ensures
            b == self.view().contains_key(key@),
    {
        self.positions.contains_key(key)
    }

    /// The indices listed under `key`.
    pub fn get(&self, key: &str) -> (r: Option<&Vec<usize>>)
        requires
            self.wf(),
        ensures
            r matches Some(v) ==> self.view().contains_key(key@) && v@ == self.view()[key@],
            r is None ==> !self.view().contains_key(key@),
    {
        match self.positions.get(key) {
            Some(p) => Some(&self.postings[*p]),
            None => None,
        }
    }

    /// Adds item `x` to the set under `key`.
    pub fn insert(&mut self, key: String, x: usize)
        requires
            old(self).wf(),
            x < usize::MAX,
        ensures
            final(self).wf(),
            final(self).view().dom() == old(self).view().dom().insert(key@),
            forall|k: Seq<char>, y: usize|
                #![trigger listed(final(self).view(), k, y)]
                listed(final(self).view(), k, y) <==> (listed(old(self).view(), k, y) || (k == key@
                    && y == x)),
    {
        let ghost old_view = self.view();
        let ghost old_self = *self;
        let new_bound = if self.bound > x {
            self.bound
        } else {
            x + 1
        };
        match self.positions.get(key.as_str()) {
            Some(p) => {
                let p = *p;
                let ghost old_list = self.postings@[p as int]@;
                let list = &mut self.postings[p];
                sorted_insert(list, x);
                self.bound = new_bound;
                proof {
                    assert(self.keys@[p as int]@ == key@);
                    assert forall|i: int|
                        0 <= i < self.postings@.len() && i != p implies self.postings@[i] == old_self.postings@[i] by {}
                    assert forall|i: int, j: int|
                        0 <= i < self.postings@.len() && 0 <= j < self.postings@[i]@.len()
                            implies #[trigger] self.postings@[i]@[j] < self.bound by {
                        if i == p {
                            let y = self.postings@[i]@[j];
                            assert(self.postings@[i]@.contains(y));
                            if y != x {
                                assert(old_list.contains(y));
                                let w = choose|w: int| 0 <= w < old_list.len() && #[trigger] old_list[w] == y;
                                assert(old_self.postings@[i]@[w] < old_self.bound);
                            }
                        } else {
                            assert(old_self.postings@[i]@[j] < old_self.bound);
                        }
                    }
                    assert(self.wf());
                    assert forall|k: Seq<char>, y: usize|
                        #![trigger listed(self.view(), k, y)]
                        listed(self.view(), k, y) <==> (listed(old_view, k, y) || (k == key@ && y == x)) by {
                        if self.positions@.contains_key(k) && k != key@ {
                            assert(self.positions@[k] != p);
                        }
                    }
                }
            },
            None => {
                let pos = self.keys.len();
                let k2 = key.clone();
                self.keys.push(key);
                let mut fresh: Vec<usize> = Vec::new();
                fresh.push(x);
                self.postings.push(fresh);
                self.positions.insert(k2, pos);
                self.bound = new_bound;
                proof {
                    assert forall|i: int|
                        0 <= i < self.keys@.len() implies #[trigger] self.positions@.contains_key(self.keys@[i]@)
                            && self.positions@[self.keys@[i]@] == i by {
                        if i < pos {
                            assert(old_self.positions@.contains_key(old_self.keys@[i]@));
                            assert(self.keys@[i] == old_self.keys@[i]);
                        }
                    }
                    assert forall|k: Seq<char>|
                        #[trigger] self.positions@.contains_key(k) implies self.positions@[k] < self.keys@.len()
                            && self.keys@[self.positions@[k] as int]@ == k by {
                        if k != key@ {
                            assert(old_self.positions@.contains_key(k));
                        }
                    }
                    assert forall|i: int|
                        0 <= i < self.postings@.len() implies #[trigger] self.postings@[i]@.len() > 0
                            && strictly_sorted(self.postings@[i]@) by {
                        if i < pos {
                            assert(self.postings@[i] == old_self.postings@[i]);
                        } else {
                            assert(self.postings@[i]@ == seq![x]);
                        }
                    }
                    assert forall|i: int, j: int|
                        0 <= i < self.postings@.len() && 0 <= j < self.postings@[i]@.len()
                            implies #[trigger] self.postings@[i]@[j] < self.bound by {
                        if i < pos {
                            assert(self.postings@[i] == old_self.postings@[i]);
                            assert(old_self.postings@[i]@[j] < old_self.bound);
                        } else {
                            assert(self.postings@[i]@ == seq![x]);
                        }
                    }
                    assert(self.wf());
                    assert forall|k: Seq<char>, y: usize|
                        #![trigger listed(self.view(), k, y)]
                        listed(self.view(), k, y) <==> (listed(old_view, k, y) || (k == key@ && y == x)) by {
                        if k == key@ {
                            assert(!old_view.contains_key(k));
                            assert(self.postings@[pos as int]@ == seq![x]);
                            if y == x {
                                assert(seq![x][0] == x);
                            }
                        } else if self.positions@.contains_key(k) {
                            let q = old_self.positions@[k];
                            assert(old_self.positions@.contains_key(k));
                            assert(self.postings@[q as int] == old_self.postings@[q as int]);
                        }
                    }
                }
            },
        }
        proof {
            assert(self.view().dom() =~= old_view.dom().insert(key@));
        }
    }

    /// The indices listed under some key that contains `pat`, in increasing order.
    fn union_of_infix_keys(&self, pat: &[char]) -> (r: Vec<usize>)
        requires
            self.wf(),
        ensures
            strictly_sorted(r@),
            forall|x: usize| r@.contains(x) <==> listed_under_infix(self.view(), pat@, x),
    {
        let n = self.bound;
        let mut marks: Vec<bool> = vec![false; n];
        let mut i: usize = 0;
        while i < self.keys.len()
            invariant
                self.wf(),
                n == self.bound,
                marks@.len() == n,
                0 <= i <= self.keys@.len(),
                forall|x: int|
                    0 <= x < n ==> (#[trigger] marks@[x] <==> exists|j: int|
                        0 <= j < i && has_infix(self.keys@[j]@, pat@) && #[trigger] self.postings@[j]@.contains(
                            x as usize,
                        )),
            decreases self.keys@.len() - i,
        {
            let kc = chars_of(self.keys[i].as_str());
            if contains_infix(kc.as_slice(), pat) {
                let list = &self.postings[i];
                let mut t: usize = 0;
                while t < list.len()
                    invariant
                        self.wf(),
                        n == self.bound,
                        marks@.len() == n,
                        0 <= i < self.keys@.len(),
                        list@ == self.postings@[i as int]@,
                        has_infix(self.keys@[i as int]@, pat@),
                        0 <= t <= list@.len(),
                        forall|x: int|
                            0 <= x < n ==> (#[trigger] marks@[x] <==> (exists|j: int|
                                0 <= j < i && has_infix(self.keys@[j]@, pat@)
                                    && #[trigger] self.postings@[j]@.contains(x as usize)) || list@.subrange(0, t as int).contains(
                                x as usize,
                            )),
                    decreases list@.len() - t,
                {
                    let x = list[t];
                    assert(x < self.bound);
                    marks.set(x, true);
                    assert forall|y: int| 0 <= y < n implies (#[trigger] marks@[y] <==> (exists|j: int|
                        0 <= j < i && has_infix(self.keys@[j]@, pat@)
                            && #[trigger] self.postings@[j]@.contains(y as usize)) || list@.subrange(0, t + 1).contains(
                        y as usize,
                    )) by {
                        if list@.subrange(0, t as int).contains(y as usize) {
                            let w = choose|w: int| 0 <= w < t && #[trigger] list@.subrange(0, t as int)[w] == y as usize;
                            assert(list@.subrange(0, t + 1)[w] == y as usize);
                        }
                        if list@.subrange(0, t + 1).contains(y as usize) && y != x {
                            let w = choose|w: int| 0 <= w < t + 1 && #[trigger] list@.subrange(0, t + 1)[w] == y as usize;
                            assert(list@.subrange(0, t as int)[w] == y as usize);
                        }
                        if y == x {
                            assert(list@.subrange(0, t + 1)[t as int] == x);
                        }
                    }
                    t += 1;
                }
                assert(list@.subrange(0, list@.len() as int) == list@);
                assert forall|x: int| 0 <= x < n implies (#[trigger] marks@[x] <==> exists|j: int|
                    0 <= j < i + 1 && has_infix(self.keys@[j]@, pat@) && #[trigger] self.postings@[j]@.contains(
                        x as usize,
                    )) by {
                    if marks@[x] && !(exists|j: int|
                        0 <= j < i && has_infix(self.keys@[j]@, pat@) && #[trigger] self.postings@[j]@.contains(
                            x as usize,
                        )) {
                        assert(self.postings@[i as int]@.contains(x as usize));
                    }
                }
            }
            i += 1;
        }
        let mut r: Vec<usize> = Vec::new();
        let mut x: usize = 0;
        while x < n
            invariant
                self.wf(),
                n == self.bound,
                marks@.len() == n,
                0 <= x <= n,
                strictly_sorted(r@),
                forall|t: int| 0 <= t < r@.len() ==> #[trigger] r@[t] < x,
                forall|y: usize| r@.contains(y) <==> (y < x && marks@[y as int]),
                forall|y: int|
                    0 <= y < n ==> (#[trigger] marks@[y] <==> exists|j: int|
                        0 <= j < self.keys@.len() && has_infix(self.keys@[j]@, pat@)
                            && #[trigger] self.postings@[j]@.contains(y as usize)),
            decreases n - x,
        {
            let ghost old_r = r@;
            if marks[x] {
                r.push(x);
                proof {
                    assert forall|y: usize| r@.contains(y) <==> (old_r.contains(y) || y == x) by {
                        if r@.contains(y) {
                            let t = choose|t: int| 0 <= t < r@.len() && #[trigger] r@[t] == y;
                            if t < old_r.len() {
                                assert(old_r[t] == y);
                            }
                        }
                        if old_r.contains(y) {
                            let t = choose|t: int| 0 <= t < old_r.len() && #[trigger] old_r[t] == y;
                            assert(r@[t] == y);
                        }
                        if y == x {
                            assert(r@[old_r.len() as int] == x);
                        }
                    }
                }
            }
            x += 1;
        }
        proof {
            assert forall|y: usize| r@.contains(y) <==> listed_under_infix(self.view(), pat@, y) by {
                if r@.contains(y) {
                    let j = choose|j: int|
                        0 <= j < self.keys@.len() && has_infix(self.keys@[j]@, pat@)
                            && #[trigger] self.postings@[j]@.contains(y);
                    let k = self.keys@[j]@;
                    assert(self.positions@.contains_key(self.keys@[j]@));
                    assert(listed(self.view(), k, y));
                }
                if listed_under_infix(self.view(), pat@, y) {
                    let k = choose|k: Seq<char>| #[trigger] listed(self.view(), k, y) && has_infix(k, pat@);
                    let j = self.positions@[k] as int;
                    assert(self.postings@[j]@.contains(y));
                    let w = choose|w: int| 0 <= w < self.postings@[j]@.len() && #[trigger] self.postings@[j]@[w] == y;
                    assert(self.postings@[j]@[w] < self.bound);
                    assert(self.keys@[j]@ == k);
                    assert(self.postings@[j]@.contains((y as int) as usize));
                    assert(marks@[y as int]);
                }
            }
        }
        r
    }
}

/// The item indices an index lookup returns: the items listed under the
/// lowercased pattern (exact), or under any key containing it (otherwise).
pub open spec fn lookup_result(m: Map<Seq<char>, Seq<usize>>, pattern: Seq<char>, exact: bool, x: usize) -> bool {
    if exact {
        listed(m, lowercase(pattern), x)
    } else {
        listed_under_infix(m, lowercase(pattern), x)
    }
}

/// Inverted index over the items: by identifier (id or abstract), by type,
/// by category, and by the words of the items' strings.
pub struct SearchIndex {
    /// Lowercased `id` (or `abstract`) → items.
    pub by_id: PostingTable,
    /// Lowercased `type` → items.
    pub by_type: PostingTable,
    /// Lowercased `category` → items.
    pub by_category: PostingTable,
    /// Lowercased word → items that contain it.
    pub word_index: PostingTable,
}

/// The item has a string `category` whose lowercase form is `k`.
pub open spec fn category_lowered_is(item: IndexedItem, k: Seq<char>) -> bool {
    category_of(item) matches Some(c) && lowercase(c) == k
}

/// `ix` indexes exactly the items `items[0..n]`.
pub open spec fn indexes(ix: SearchIndex, items: Seq<IndexedItem>, n: int) -> bool {
    &&& forall|k: Seq<char>, x: usize|
        #![trigger listed(ix.by_id.view(), k, x)]
        listed(ix.by_id.view(), k, x) <==> (x < n && id_or_abstract(items[x as int]).len() > 0
            && lowercase(id_or_abstract(items[x as int])) == k)
    &&& forall|k: Seq<char>, x: usize|
        #![trigger listed(ix.by_type.view(), k, x)]
        listed(ix.by_type.view(), k, x) <==> (x < n && items[x as int].item_type@.len() > 0
            && lowercase(items[x as int].item_type@) == k)
    &&& forall|k: Seq<char>, x: usize|
        #![trigger listed(ix.by_category.view(), k, x)]
        listed(ix.by_category.view(), k, x) <==> (x < n && category_lowered_is(items[x as int], k))
    &&& forall|w: Seq<char>, x: usize|
        #![trigger listed(ix.word_index.view(), w, x)]
        listed(ix.word_index.view(), w, x) <==> (x < n && item_has_word(items[x as int], w))
}

impl SearchIndex {
    /// All four tables are well formed.
    pub open spec fn wf(&self) -> bool {
        self.by_id.wf() && self.by_type.wf() && self.by_category.wf() && self.word_index.wf()
    }

    /// An empty index.
    pub fn new() -> (ix: SearchIndex)
        ensures
            ix.wf(),
            indexes(ix, Seq::empty(), 0),
    {
        SearchIndex {
            by_id: PostingTable::new(),
            by_type: PostingTable::new(),
            by_category: PostingTable::new(),
            word_index: PostingTable::new(),
        }
    }

    /// Builds the inverted index of `items`: lowercased identifiers, types
    /// and categories, and every word of every string in each item.
    pub fn build(items: &[IndexedItem]) -> (ix: SearchIndex)
        requires
            items@.len() < usize::MAX,
        ensures
            ix.wf(),
            indexes(ix, items@, items@.len() as int),
    {
        let mut ix = SearchIndex::new();
        let mut idx: usize = 0;
        while idx < items.len()
            invariant
                ix.wf(),
                items@.len() < usize::MAX,
                0 <= idx <= items@.len(),
                indexes(ix, items@, idx as int),
            decreases items@.len() - idx,
        {
            let item = &items[idx];
            let ghost before = ix;
            let ioa: &str = if !item.id.as_str().is_empty() {
                item.id.as_str()
            } else {
                match item.value.get_str("abstract") {
                    Some(a) => a,
                    None => "",
                }
            };
            proof {
                reveal_strlit("");
                assert(ioa@ == id_or_abstract(*item));
            }
            let ghost w0 = ix.word_index.view();
            if !ioa.is_empty() {
                let id_lower = to_lowercase(ioa);
                ix.by_id.insert(id_lower, idx);
                let cs = chars_of(ioa);
                collect_words(&mut ix.word_index, cs.as_slice(), idx);
            }
            let ghost w1 = ix.word_index.view();
            proof {
                assert forall|w: Seq<char>, x: usize|
                    #![trigger listed(w1, w, x)]
                    listed(w1, w, x) <==> (listed(w0, w, x) || (x == idx && id_or_abstract(*item).len()
                        > 0 && is_word_of(id_or_abstract(*item), w))) by {}
            }
            if !item.item_type.as_str().is_empty() {
                let type_lower = to_lowercase(item.item_type.as_str());
                let cs = chars_of(type_lower.as_str());
                ix.by_type.insert(type_lower, idx);
                collect_words(&mut ix.word_index, cs.as_slice(), idx);
            }
            let ghost w2 = ix.word_index.view();
            proof {
                assert forall|w: Seq<char>, x: usize|
                    #![trigger listed(w2, w, x)]
                    listed(w2, w, x) <==> (listed(w1, w, x) || (x == idx && item.item_type@.len() > 0
                        && is_word_of(lowercase(item.item_type@), w))) by {}
            }
            match item.value.get_str("category") {
                Some(category) => {
                    let cat_lower = to_lowercase(category);
                    let cs = chars_of(cat_lower.as_str());
                    ix.by_category.insert(cat_lower, idx);
                    collect_words(&mut ix.word_index, cs.as_slice(), idx);
                },
                None => {},
            }
            let ghost w3 = ix.word_index.view();
            proof {
                assert forall|w: Seq<char>, x: usize|
                    #![trigger listed(w3, w, x)]
                    listed(w3, w, x) <==> (listed(w2, w, x) || (x == idx && (category_of(*item) matches Some(
                        c,
                    ) && is_word_of(lowercase(c), w)))) by {}
            }
            collect_value_words(&mut ix.word_index, &item.value, idx);
            proof {
                assert forall|w: Seq<char>, x: usize|
                    #![trigger listed(ix.word_index.view(), w, x)]
                    listed(ix.word_index.view(), w, x) <==> (x < idx + 1 && item_has_word(
                        items@[x as int],
                        w,
                    )) by {
                    assert(listed(before.word_index.view(), w, x) <==> (x < idx && item_has_word(
                        items@[x as int],
                        w,
                    )));
                    assert(listed(w0, w, x) == listed(before.word_index.view(), w, x));
                    assert(listed(w1, w, x) <==> (listed(w0, w, x) || (x == idx && id_or_abstract(*item).len()
                        > 0 && is_word_of(id_or_abstract(*item), w))));
                    assert(listed(w2, w, x) <==> (listed(w1, w, x) || (x == idx && item.item_type@.len() > 0
                        && is_word_of(lowercase(item.item_type@), w))));
                    assert(listed(w3, w, x) <==> (listed(w2, w, x) || (x == idx && (category_of(*item) matches Some(
                        c,
                    ) && is_word_of(lowercase(c), w)))));
                }
                assert forall|k: Seq<char>, x: usize|
                    #![trigger listed(ix.by_id.view(), k, x)]
                    listed(ix.by_id.view(), k, x) <==> (x < idx + 1 && id_or_abstract(
                        items@[x as int],
                    ).len() > 0 && lowercase(id_or_abstract(items@[x as int])) == k) by {
                    assert(listed(before.by_id.view(), k, x) <==> (x < idx && id_or_abstract(
                        items@[x as int],
                    ).len() > 0 && lowercase(id_or_abstract(items@[x as int])) == k));
                }
                assert forall|k: Seq<char>, x: usize|
                    #![trigger listed(ix.by_type.view(), k, x)]
                    listed(ix.by_type.view(), k, x) <==> (x < idx + 1 && items@[x as int].item_type@.len()
                        > 0 && lowercase(items@[x as int].item_type@) == k) by {
                    assert(listed(before.by_type.view(), k, x) <==> (x < idx
                        && items@[x as int].item_type@.len() > 0 && lowercase(
                        items@[x as int].item_type@,
                    ) == k));
                }
                assert forall|k: Seq<char>, x: usize|
                    #![trigger listed(ix.by_category.view(), k, x)]
                    listed(ix.by_category.view(), k, x) <==> (x < idx + 1 && category_lowered_is(
                        items@[x as int],
                        k,
                    )) by {
                    assert(listed(before.by_category.view(), k, x) <==> (x < idx
                        && category_lowered_is(items@[x as int], k)));
                }
            }
            idx += 1;
        }
        ix
    }

    /// Looks `pattern` up in one of the field tables (lowercased): the items
    /// listed under it (exact), or under any key that contains it.
    pub fn lookup_field(&self, field_index: &PostingTable, pattern: &str, exact: bool) -> (r: Vec<usize>)
        requires
            field_index.wf(),
        ensures
            strictly_sorted(r@),
            forall|x: usize| r@.contains(x) <==> lookup_result(field_index.view(), pattern@, exact, x),
    {
        let pattern_lower = to_lowercase(pattern);
        if exact {
            match field_index.get(pattern_lower.as_str()) {
                Some(list) => {
                    proof {
                        field_index.lemma_well_sorted();
                    }
                    copy_list(list)
                },
                None => Vec::new(),
            }
        } else {
            let pc = chars_of(pattern_lower.as_str());
            field_index.union_of_infix_keys(pc.as_slice())
        }
    }

    /// Word search: the items having a word that contains the lowercased pattern.
    pub fn search_words(&self, pattern: &str) -> (r: Vec<usize>)
        requires
            self.wf(),
        ensures
            strictly_sorted(r@),
            forall|x: usize|
                r@.contains(x) <==> listed_under_infix(self.word_index.view(), lowercase(pattern@), x),
    {
        let pattern_lower = to_lowercase(pattern);
        let pc = chars_of(pattern_lower.as_str());
        self.word_index.union_of_infix_keys(pc.as_slice())
    }
}

/// A copy of a list of indices.
fn copy_list(list: &Vec<usize>) -> (r: Vec<usize>)
    ensures
        r@ == list@,
{
    let mut r: Vec<usize> = Vec::new();
    let mut i: usize = 0;
    while i < list.len()
        invariant
            0 <= i <= list@.len(),
            r@ == list@.subrange(0, i as int),
        decreases list@.len() - i,
    {
        r.push(list[i]);
        assert(list@.subrange(0, i + 1) == list@.subrange(0, i as int).push(list@[i as int]));
        i += 1;
    }
    assert(list@.subrange(0, list@.len() as int) == list@);
    r
}

/// Words of `t` whose runs end at or before `i`.
pub open spec fn is_word_before(t: Seq<char>, w: Seq<char>, i: int) -> bool {
    exists|a: int, b: int|
        #[trigger] maximal_run(t, a, b) && b <= i && w == lowercase(t.subrange(a, b))
            && utf8_at_least_two_bytes(w)
}

fn delimiter(c: char) -> (r: bool)
    ensures
        r == is_delimiter(c),
{
    !is_alphanumeric(c) && c != '_' && c != '-'
}

/// Adds item `idx` under every word of `t`.
fn collect_words(table: &mut PostingTable, t: &[char], idx: usize)
    requires
        old(table).wf(),
        idx < usize::MAX,
    ensures
        final(table).wf(),
        forall|w: Seq<char>, x: usize|
            #![trigger listed(final(table).view(), w, x)]
            listed(final(table).view(), w, x) <==> (listed(old(table).view(), w, x) || (x == idx
                && is_word_of(t@, w))),
{
    let n = t.len();
    let mut i: usize = 0;
    while i < n
        invariant
            table.wf(),
            idx < usize::MAX,
            n == t@.len(),
            0 <= i <= n,
            i == 0 || i == n || is_delimiter(t@[i - 1]),
            forall|w: Seq<char>, x: usize|
                #![trigger listed(table.view(), w, x)]
                listed(table.view(), w, x) <==> (listed(old(table).view(), w, x) || (x == idx
                    && is_word_before(t@, w, i as int))),
        decreases n - i,
    {
        if delimiter(t[i]) {
            proof {
                assert forall|w: Seq<char>| is_word_before(t@, w, i + 1) implies is_word_before(
                    t@,
                    w,
                    i as int,
                ) by {
                    let (a, b) = choose|a: int, b: int|
                        #[trigger] maximal_run(t@, a, b) && b <= i + 1 && w == lowercase(
                            t@.subrange(a, b),
                        ) && utf8_at_least_two_bytes(w);
                    if b == i + 1 {
                        assert(!is_delimiter(t@[b - 1]));
                    }
                }
            }
            i += 1;
        } else {
            let a = i;
            let mut b = i;
            while b < n && !delimiter(t[b])
                invariant
                    a <= b <= n,
                    n == t@.len(),
                    forall|j: int| a <= j < b ==> !is_delimiter(#[trigger] t@[j]),
                decreases n - b,
            {
                b += 1;
            }
            proof {
                assert(forall|j: int| a <= j < b ==> !is_delimiter(#[trigger] t@[j]));
                assert(maximal_run(t@, a as int, b as int));
            }
            let piece = string_from_range(t, a, b);
            let lower = to_lowercase(piece.as_str());
            let lc = chars_of(lower.as_str());
            let keep = at_least_two_bytes(lc.as_slice());
            let ghost before = table.view();
            if keep {
                table.insert(lower, idx);
            }
            let new_i = if b < n {
                b + 1
            } else {
                b
            };
            proof {
                let wr = lowercase(t@.subrange(a as int, b as int));
                assert forall|w: Seq<char>|
                    is_word_before(t@, w, new_i as int) <==> (is_word_before(t@, w, i as int) || (w
                        == wr && utf8_at_least_two_bytes(wr))) by {
                    if is_word_before(t@, w, new_i as int) {
                        let (a2, b2) = choose|a2: int, b2: int|
                            #[trigger] maximal_run(t@, a2, b2) && b2 <= new_i && w == lowercase(
                                t@.subrange(a2, b2),
                            ) && utf8_at_least_two_bytes(w);
                        if b2 > i {
                            if a2 < i {
                                assert(!is_delimiter(t@[i - 1]));
                            }
                            if a2 > a {
                                assert(!is_delimiter(t@[a2 - 1]));
                            }
                            if b2 < b {
                                assert(!is_delimiter(t@[b2 as int]));
                            }
                            if b2 > b {
                                assert(!is_delimiter(t@[b as int]));
                            }
                            assert(a2 == a && b2 == b);
                        }
                    }
                    if w == wr && utf8_at_least_two_bytes(wr) {
                        assert(maximal_run(t@, a as int, b as int));
                    }
                }
            }
            i = new_i;
        }
    }
    proof {
        assert forall|w: Seq<char>| is_word_before(t@, w, n as int) <==> is_word_of(t@, w) by {
            if is_word_of(t@, w) {
                let (a, b) = choose|a: int, b: int|
                    #[trigger] maximal_run(t@, a, b) && w == lowercase(t@.subrange(a, b))
                        && utf8_at_least_two_bytes(w);
                assert(maximal_run(t@, a, b) && b <= n);
            }
        }
    }
}

/// Adds item `idx` under every word of every string inside `v`.
fn collect_value_words(table: &mut PostingTable, v: &JsonValue, idx: usize)
    requires
        old(table).wf(),
        idx < usize::MAX,
    ensures
        final(table).wf(),
        forall|w: Seq<char>, x: usize|
            #![trigger listed(final(table).view(), w, x)]
            listed(final(table).view(), w, x) <==> (listed(old(table).view(), w, x) || (x == idx
                && value_has_word(*v, w))),
    decreases v,
{
    match v {
        JsonValue::Str(s) => {
            let cs = chars_of(s.as_str());
            collect_words(table, cs.as_slice(), idx);
        },
        JsonValue::Array(items) => {
            let mut i: usize = 0;
            while i < items.len()
                invariant
                    table.wf(),
                    idx < usize::MAX,
                    *v == JsonValue::Array(*items),
                    0 <= i <= items@.len(),
                    forall|w: Seq<char>, x: usize|
                        #![trigger listed(table.view(), w, x)]
                        listed(table.view(), w, x) <==> (listed(old(table).view(), w, x) || (x
                            == idx && any_value_has_word(items@.subrange(0, i as int), w))),
                decreases items@.len() - i,
            {
                proof {
                    let ghost vv: Vec<JsonValue> = (*v)->Array_0;
                    assert(decreases_to!(*v => vv));
                    assert(decreases_to!(vv => vv@));
                    assert(decreases_to!(vv@ => vv@[i as int]));
                }
                let ghost before = table.view();
                collect_value_words(table, &items[i], idx);
                proof {
                    assert forall|w: Seq<char>|
                        any_value_has_word(items@.subrange(0, i + 1), w) <==> (any_value_has_word(
                            items@.subrange(0, i as int),
                            w,
                        ) || value_has_word(items@[i as int], w)) by {
                        lemma_any_value_has_word_push(items@.subrange(0, i as int), items@[i as int], w);
                        assert(items@.subrange(0, i + 1) == items@.subrange(0, i as int).push(items@[i as int]));
                    }
                    assert forall|w: Seq<char>, x: usize|
                        #![trigger listed(table.view(), w, x)]
                        listed(table.view(), w, x) <==> (listed(old(table).view(), w, x) || (x
                            == idx && any_value_has_word(items@.subrange(0, i + 1), w))) by {
                        lemma_any_value_has_word_push(items@.subrange(0, i as int), items@[i as int], w);
                        assert(items@.subrange(0, i + 1) == items@.subrange(0, i as int).push(items@[i as int]));
                        assert(listed(table.view(), w, x) <==> (listed(before, w, x) || (x == idx
                            && value_has_word(items@[i as int], w))));
                        assert(listed(before, w, x) <==> (listed(old(table).view(), w, x) || (x
                            == idx && any_value_has_word(items@.subrange(0, i as int), w))));
                    }
                }
                i += 1;
            }
            assert(items@.subrange(0, items@.len() as int) == items@);
        },
        JsonValue::Object(entries) => {
            let mut i: usize = 0;
            while i < entries.len()
                invariant
                    table.wf(),
                    idx < usize::MAX,
                    *v == JsonValue::Object(*entries),
                    0 <= i <= entries@.len(),
                    forall|w: Seq<char>, x: usize|
                        #![trigger listed(table.view(), w, x)]
                        listed(table.view(), w, x) <==> (listed(old(table).view(), w, x) || (x
                            == idx && any_member_has_word(entries@.subrange(0, i as int), w))),
                decreases entries@.len() - i,
            {
                proof {
                    let ghost es: Vec<(String, JsonValue)> = (*v)->Object_0;
                    assert(decreases_to!(*v => es));
                    assert(decreases_to!(es => es@));
                    assert(decreases_to!(es@ => es@[i as int]));
                    assert(decreases_to!(es@[i as int] => es@[i as int].1));
                }
                let ghost before = table.view();
                collect_value_words(table, &entries[i].1, idx);
                proof {
                    assert forall|w: Seq<char>|
                        any_member_has_word(entries@.subrange(0, i + 1), w) <==> (any_member_has_word(
                            entries@.subrange(0, i as int),
                            w,
                        ) || value_has_word(entries@[i as int].1, w)) by {
                        lemma_any_member_has_word_push(entries@.subrange(0, i as int), entries@[i as int], w);
                        assert(entries@.subrange(0, i + 1) == entries@.subrange(0, i as int).push(entries@[i as int]));
                    }
                    assert forall|w: Seq<char>, x: usize|
                        #![trigger listed(table.view(), w, x)]
                        listed(table.view(), w, x) <==> (listed(old(table).view(), w, x) || (x
                            == idx && any_member_has_word(entries@.subrange(0, i + 1), w))) by {
                        lemma_any_member_has_word_push(entries@.subrange(0, i as int), entries@[i as int], w);
                        assert(entries@.subrange(0, i + 1) == entries@.subrange(0, i as int).push(entries@[i as int]));
                        assert(listed(table.view(), w, x) <==> (listed(before, w, x) || (x == idx
                            && value_has_word(entries@[i as int].1, w))));
                        assert(listed(before, w, x) <==> (listed(old(table).view(), w, x) || (x
                            == idx && any_member_has_word(entries@.subrange(0, i as int), w))));
                    }
                }
                i += 1;
            }
            assert(entries@.subrange(0, entries@.len() as int) == entries@);
        },
        _ => {},
    }
}

proof fn lemma_any_value_has_word_push(vs: Seq<JsonValue>, v: JsonValue, w: Seq<char>)
    ensures
        any_value_has_word(vs.push(v), w) <==> (any_value_has_word(vs, w) || value_has_word(v, w)),
    decreases vs.len(),
{
    if vs.len() > 0 {
        assert(vs.push(v).drop_first() == vs.drop_first().push(v));
        assert(vs.push(v)[0] == vs[0]);
        lemma_any_value_has_word_push(vs.drop_first(), v, w);
    } else {
        assert(vs.push(v).drop_first() == Seq::<JsonValue>::empty());
        assert(vs.push(v)[0] == v);
        assert(!any_value_has_word(Seq::<JsonValue>::empty(), w));
    }
}

proof fn lemma_any_member_has_word_push(es: Seq<(String, JsonValue)>, e: (String, JsonValue), w: Seq<char>)
    ensures
        any_member_has_word(es.push(e), w) <==> (any_member_has_word(es, w) || value_has_word(e.1, w)),
    decreases es.len(),
{
    if es.len() > 0 {
        assert(es.push(e).drop_first() == es.drop_first().push(e));
        assert(es.push(e)[0] == es[0]);
        lemma_any_member_has_word_push(es.drop_first(), e, w);
    } else {
        assert(es.push(e).drop_first() == Seq::<(String, JsonValue)>::empty());
        assert(es.push(e)[0] == e);
        assert(!any_member_has_word(Seq::<(String, JsonValue)>::empty(), w));
    }
}

/// Inserts `x` into a strictly increasing list, keeping it strictly increasing.
fn sorted_insert(list: &mut Vec<usize>, x: usize)
    requires
        strictly_sorted(old(list)@),
    ensures
        strictly_sorted(final(list)@),
        final(list)@.len() > 0,
        forall|y: usize| final(list)@.contains(y) <==> (old(list)@.contains(y) || y == x),
{
    let mut i = list.len();
    while i > 0 && list[i - 1] > x
        invariant
            i <= list@.len(),
            list@ == old(list)@,
            strictly_sorted(list@),
            forall|t: int| i <= t < list@.len() ==> #[trigger] list@[t] > x,
        decreases i,
    {
        i -= 1;
    }
    if i > 0 && list[i - 1] == x {
        assert(list@.contains(x));
        return;
    }
    let ghost old_list = list@;
    list.insert(i, x);
    proof {
        lemma_insert_keeps_sorted(old_list, i as int, x);
        assert(list@ == old_list.insert(i as int, x));
        assert(old_list == old(list)@);
        assert(forall|y: usize| list@.contains(y) <==> (old(list)@.contains(y) || y == x));
    }
}

proof fn lemma_insert_keeps_sorted(s: Seq<usize>, i: int, x: usize)
    requires
        0 <= i <= s.len(),
        strictly_sorted(s),
        i > 0 ==> s[i - 1] < x,
        forall|t: int| i <= t < s.len() ==> #[trigger] s[t] > x,
    ensures
        strictly_sorted(s.insert(i, x)),
        s.insert(i, x).len() > 0,
        forall|y: usize| s.insert(i, x).contains(y) <==> (s.contains(y) || y == x),
{
    let r = s.insert(i, x);
    assert forall|y: usize| r.contains(y) <==> (s.contains(y) || y == x) by {
        if r.contains(y) {
            let t = choose|t: int| 0 <= t < r.len() && #[trigger] r[t] == y;
            if t < i {
                assert(s[t] == y);
            } else if t > i {
                assert(s[t - 1] == y);
            }
        }
        if s.contains(y) {
            let t = choose|t: int| 0 <= t < s.len() && #[trigger] s[t] == y;
            if t < i {
                assert(r[t] == y);
            } else {
                assert(r[t + 1] == y);
            }
        }
        if y == x {
            assert(r[i] == x);
        }
    }
}

} // verus!
