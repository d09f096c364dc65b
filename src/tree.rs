//! An untyped configuration tree (null, boolean, number, string, sequence,
//! mapping), with the recursive overlay merge and dotted-path removal that
//! the identity loader applies before the typed decode.
use crate::text::{lemma_split_on_nonempty, split_char, split_on, views};
use vstd::prelude::*;

verus! {

/// The mathematical model of a configuration tree. A mapping is a sequence
/// of (key, value) pairs in insertion order.
pub enum Tree {
    Null,
    Bool(bool),
    Number(Seq<char>),
    Str(Seq<char>),
    Sequence(Seq<Tree>),
    Mapping(Seq<(Seq<char>, Tree)>),
}

/// One key-value pair of a mapping.
#[derive(Debug, PartialEq, Eq)]
pub struct MapEntry {
    pub key: String,
    pub value: YamlValue,
}

/// An untyped configuration value. A number is kept in its textual form:
/// the merge never looks inside a scalar.
#[derive(Debug, PartialEq, Eq)]
pub enum YamlValue {
    Null,
    Bool(bool),
    Number(String),
    Str(String),
    Sequence(Vec<YamlValue>),
    Mapping(Vec<MapEntry>),
}

impl View for YamlValue {
    type V = Tree;

    open spec fn view(&self) -> Tree {
        tree_of(*self)
    }
}

/// The model of a value.
pub open spec fn tree_of(v: YamlValue) -> Tree
    decreases v,
{
    match v {
        YamlValue::Null => Tree::Null,
        YamlValue::Bool(b) => Tree::Bool(b),
        YamlValue::Number(n) => Tree::Number(n@),
        YamlValue::Str(s) => Tree::Str(s@),
        YamlValue::Sequence(items) => Tree::Sequence(
            Seq::new(
                items.len() as nat,
                |i: int|
                    if 0 <= i < items.len() {
                        tree_of(items[i])
                    } else {
                        Tree::Null
                    },
            ),
        ),
        YamlValue::Mapping(entries) => Tree::Mapping(
            Seq::new(
                entries.len() as nat,
                |i: int|
                    if 0 <= i < entries.len() {
                        (entries[i].key@, tree_of(entries[i].value))
                    } else {
                        (Seq::empty(), Tree::Null)
                    },
            ),
        ),
    }
}


/// Whether `j` is the first position of key `k` in mapping `m`.
pub open spec fn is_first_index(m: Seq<(Seq<char>, Tree)>, k: Seq<char>, j: int) -> bool {
    &&& 0 <= j < m.len()
    &&& m[j].0 == k
    &&& forall|i: int| 0 <= i < j ==> m[i].0 != k
}

/// Whether key `k` occurs in mapping `m`.
pub open spec fn has_key(m: Seq<(Seq<char>, Tree)>, k: Seq<char>) -> bool {
    exists|j: int| 0 <= j < m.len() && m[j].0 == k
}

/// The first position of key `k` in mapping `m`, or -1 when it is absent.
pub open spec fn key_index(m: Seq<(Seq<char>, Tree)>, k: Seq<char>) -> int {
    if has_key(m, k) {
        choose|j: int| is_first_index(m, k, j)
    } else {
        -1
    }
}

/// The overlay merge: two mappings merge key by key (overlay keys win,
/// keys only in the base stay); a null overlay leaves the base alone; any
/// other overlay replaces the base whole.
pub open spec fn merged(base: Tree, overlay: Tree) -> Tree
    decreases overlay,
{
    match overlay {
        Tree::Mapping(o) => match base {
            Tree::Mapping(b) => Tree::Mapping(merged_entries(b, o)),
            _ => overlay,
        },
        Tree::Null => base,
        _ => overlay,
    }
}

/// Applies the overlay entries `o` to the base entries `b`, in order: a key
/// already present is merged in place, a new key is appended unless its
/// value is null (an explicit null leaves the base unchanged, also where
/// the base lacks the key).
pub open spec fn merged_entries(b: Seq<(Seq<char>, Tree)>, o: Seq<(Seq<char>, Tree)>) -> Seq<
    (Seq<char>, Tree),
>
    decreases o,
{
    if o.len() == 0 {
        b
    } else {
        let m = merged_entries(b, o.subrange(0, o.len() - 1));
        let k = o[o.len() - 1].0;
        let v = o[o.len() - 1].1;
        let j = key_index(m, k);
        if j >= 0 {
            m.update(j, (m[j].0, merged(m[j].1, v)))
        } else if v is Null {
            m
        } else {
            m.push((k, v))
        }
    }
}

pub open spec fn entries_model(v: Seq<MapEntry>) -> Seq<(Seq<char>, Tree)> {
    Seq::new(v.len(), |i: int| (v[i].key@, v[i].value@))
}

pub proof fn lemma_mapping_view(entries: Vec<MapEntry>)
    ensures
        YamlValue::Mapping(entries)@ == Tree::Mapping(entries_model(entries@)),
{
    reveal_with_fuel(tree_of, 2);
    let t = YamlValue::Mapping(entries)@;
    assert(t->Mapping_0 =~= entries_model(entries@));
}

pub open spec fn items_model(v: Seq<YamlValue>) -> Seq<Tree> {
    Seq::new(v.len(), |i: int| v[i]@)
}

pub proof fn lemma_sequence_view(items: Vec<YamlValue>)
    ensures
        YamlValue::Sequence(items)@ == Tree::Sequence(items_model(items@)),
{
    reveal_with_fuel(tree_of, 2);
    let t = YamlValue::Sequence(items)@;
    assert(t->Sequence_0 =~= items_model(items@));
}

/// A null overlay leaves the base untouched; a sequence or scalar overlay
/// replaces it whole (no element-wise merge of sequences).
pub proof fn lemma_merge_rules(base: Tree, overlay: Tree)
    ensures
        merged(base, Tree::Null) == base,
        !(overlay is Mapping) && !(overlay is Null) ==> merged(base, overlay) == overlay,
        overlay is Mapping && !(base is Mapping) ==> merged(base, overlay) == overlay,
{
}

proof fn lemma_key_index_range(m: Seq<(Seq<char>, Tree)>, k: Seq<char>)
    ensures
        -1 <= key_index(m, k) < m.len(),
        key_index(m, k) >= 0 ==> m[key_index(m, k)].0 == k,
        key_index(m, k) < 0 ==> !has_key(m, k),
{
    if has_key(m, k) {
        let w = choose|j: int| 0 <= j < m.len() && m[j].0 == k;
        lemma_first_exists(m, k, w);
    }
}

proof fn lemma_first_exists(m: Seq<(Seq<char>, Tree)>, k: Seq<char>, w: int)
    requires
        0 <= w < m.len(),
        m[w].0 == k,
    ensures
        exists|j: int| is_first_index(m, k, j),
    decreases w,
{
    if exists|i: int| 0 <= i < w && m[i].0 == k {
        let i = choose|i: int| 0 <= i < w && m[i].0 == k;
        lemma_first_exists(m, k, i);
    } else {
        assert(is_first_index(m, k, w));
    }
}

/// The value under key `k` in mapping `m` (its first entry with that key).
pub open spec fn lookup(m: Seq<(Seq<char>, Tree)>, k: Seq<char>) -> Option<Tree> {
    let j = key_index(m, k);
    if j >= 0 {
        Some(m[j].1)
    } else {
        None
    }
}

proof fn lemma_lookup_of_first(m: Seq<(Seq<char>, Tree)>, k: Seq<char>, j: int)
    requires
        is_first_index(m, k, j),
    ensures
        lookup(m, k) == Some(m[j].1),
{
    lemma_first_index_unique(m, k, j);
}

/// Changing the value of an entry keyed other than `k` leaves `k`'s lookup
/// alone.
proof fn lemma_lookup_update_other(m: Seq<(Seq<char>, Tree)>, j: int, v: Tree, k: Seq<char>)
    requires
        0 <= j < m.len(),
        m[j].0 != k,
    ensures
        lookup(m.update(j, (m[j].0, v)), k) == lookup(m, k),
{
    let m2 = m.update(j, (m[j].0, v));
    lemma_key_index_range(m, k);
    if has_key(m, k) {
        let i = key_index(m, k);
        lemma_first_index_unique_rev(m, k);
        assert(is_first_index(m2, k, i));
        lemma_lookup_of_first(m2, k, i);
    } else {
        assert(!has_key(m2, k)) by {
            if has_key(m2, k) {
                let w = choose|w: int| 0 <= w < m2.len() && m2[w].0 == k;
                assert(m[w].0 == k);
            }
        }
    }
}

/// Appending an entry keyed other than `k` leaves `k`'s lookup alone.
proof fn lemma_lookup_push_other(m: Seq<(Seq<char>, Tree)>, e: (Seq<char>, Tree), k: Seq<char>)
    requires
        e.0 != k,
    ensures
        lookup(m.push(e), k) == lookup(m, k),
{
    let m2 = m.push(e);
    lemma_key_index_range(m, k);
    if has_key(m, k) {
        let i = key_index(m, k);
        lemma_first_index_unique_rev(m, k);
        assert(is_first_index(m2, k, i));
        lemma_lookup_of_first(m2, k, i);
    } else {
        assert(!has_key(m2, k)) by {
            if has_key(m2, k) {
                let w = choose|w: int| 0 <= w < m2.len() && m2[w].0 == k;
                assert(m[w].0 == k);
            }
        }
    }
}

proof fn lemma_first_index_unique_rev(m: Seq<(Seq<char>, Tree)>, k: Seq<char>)
    requires
        has_key(m, k),
    ensures
        is_first_index(m, k, key_index(m, k)),
{
    let w = choose|j: int| 0 <= j < m.len() && m[j].0 == k;
    lemma_first_exists(m, k, w);
}

/// Merging mappings keeps every base entry whose key the overlay does not
/// name: its lookup in the result is its lookup in the base.
pub proof fn lemma_merge_keeps_unnamed_keys(
    b: Seq<(Seq<char>, Tree)>,
    o: Seq<(Seq<char>, Tree)>,
    k: Seq<char>,
)
    requires
        !has_key(o, k),
    ensures
        lookup(merged_entries(b, o), k) == lookup(b, k),
    decreases o.len(),
{
    if o.len() > 0 {
        let o1 = o.subrange(0, o.len() - 1);
        assert(!has_key(o1, k)) by {
            if has_key(o1, k) {
                let w = choose|w: int| 0 <= w < o1.len() && o1[w].0 == k;
                assert(o[w].0 == k);
            }
        }
        lemma_merge_keeps_unnamed_keys(b, o1, k);
        let m = merged_entries(b, o1);
        let ok = o[o.len() - 1].0;
        let ov = o[o.len() - 1].1;
        assert(ok != k);
        let j = key_index(m, ok);
        lemma_key_index_range(m, ok);
        if j >= 0 {
            lemma_lookup_update_other(m, j, merged(m[j].1, ov), k);
        } else {
            lemma_lookup_push_other(m, (ok, ov), k);
        }
    }
}

/// An explicit null never adds a key: a key the base lacks, and that the
/// overlay gives only null values, is still absent after the merge.
pub proof fn lemma_merge_adds_no_null_key(
    b: Seq<(Seq<char>, Tree)>,
    o: Seq<(Seq<char>, Tree)>,
    k: Seq<char>,
)
    requires
        !has_key(b, k),
        forall|x: int| 0 <= x < o.len() && #[trigger] o[x].0 == k ==> o[x].1 is Null,
    ensures
        !has_key(merged_entries(b, o), k),
    decreases o.len(),
{
    if o.len() > 0 {
        let o1 = o.subrange(0, o.len() - 1);
        assert forall|x: int| 0 <= x < o1.len() && #[trigger] o1[x].0 == k implies o1[x].1 is Null by {
            assert(o1[x] == o[x]);
        }
        lemma_merge_adds_no_null_key(b, o1, k);
        let m = merged_entries(b, o1);
        let ok = o[o.len() - 1].0;
        let ov = o[o.len() - 1].1;
        let j = key_index(m, ok);
        lemma_key_index_range(m, ok);
        let r = merged_entries(b, o);
        if j >= 0 {
            assert(!has_key(r, k)) by {
                if has_key(r, k) {
                    let w = choose|w: int| 0 <= w < r.len() && r[w].0 == k;
                    assert(m[w].0 == k);
                }
            }
        } else if !(ov is Null) {
            assert(ok != k);
            assert(!has_key(r, k)) by {
                if has_key(r, k) {
                    let w = choose|w: int| 0 <= w < r.len() && r[w].0 == k;
                    assert(m[w].0 == k);
                }
            }
        }
    }
}

/// Applying overlay entries in two runs is applying them in one.
proof fn lemma_merged_entries_split(
    b: Seq<(Seq<char>, Tree)>,
    o1: Seq<(Seq<char>, Tree)>,
    o2: Seq<(Seq<char>, Tree)>,
)
    ensures
        merged_entries(b, o1 + o2) == merged_entries(merged_entries(b, o1), o2),
    decreases o2.len(),
{
    if o2.len() == 0 {
        assert(o1 + o2 =~= o1);
    } else {
        let o2a = o2.subrange(0, o2.len() - 1);
        lemma_merged_entries_split(b, o1, o2a);
        assert((o1 + o2).subrange(0, (o1 + o2).len() - 1) =~= o1 + o2a);
        assert((o1 + o2)[(o1 + o2).len() - 1] == o2[o2.len() - 1]);
    }
}

/// Changing the value under the first entry keyed `k` changes `k`'s lookup.
proof fn lemma_lookup_update_same(m: Seq<(Seq<char>, Tree)>, k: Seq<char>, v: Tree)
    requires
        has_key(m, k),
    ensures
        lookup(m.update(key_index(m, k), (m[key_index(m, k)].0, v)), k) == Some(v),
{
    lemma_first_index_unique_rev(m, k);
    let j = key_index(m, k);
    let m2 = m.update(j, (m[j].0, v));
    assert(is_first_index(m2, k, j));
    lemma_lookup_of_first(m2, k, j);
}

/// Appending an entry for a key that is absent makes it the key's entry.
proof fn lemma_lookup_push_new(m: Seq<(Seq<char>, Tree)>, k: Seq<char>, v: Tree)
    requires
        !has_key(m, k),
    ensures
        lookup(m.push((k, v)), k) == Some(v),
{
    let m2 = m.push((k, v));
    assert(is_first_index(m2, k, m.len() as int));
    lemma_lookup_of_first(m2, k, m.len() as int);
}

/// Merging mappings, a key that the overlay names once wins: its value in
/// the result is the overlay's value merged onto the base's, or, when the
/// base lacks the key, the overlay's own unless that is null, in which case
/// the key stays absent.
pub proof fn lemma_merge_overlay_key_wins(
    b: Seq<(Seq<char>, Tree)>,
    o: Seq<(Seq<char>, Tree)>,
    i: int,
)
    requires
        0 <= i < o.len(),
        forall|x: int| 0 <= x < o.len() && x != i ==> o[x].0 != o[i].0,
    ensures
        lookup(merged_entries(b, o), o[i].0) == match lookup(b, o[i].0) {
            Some(bv) => Some(merged(bv, o[i].1)),
            None => if o[i].1 is Null {
                None::<Tree>
            } else {
                Some(o[i].1)
            },
        },
{
    let k = o[i].0;
    let pre = o.subrange(0, i);
    let upto = o.subrange(0, i + 1);
    let post = o.subrange(i + 1, o.len() as int);
    assert(!has_key(pre, k)) by {
        if has_key(pre, k) {
            let w = choose|w: int| 0 <= w < pre.len() && pre[w].0 == k;
            assert(o[w].0 == k);
        }
    }
    assert(!has_key(post, k)) by {
        if has_key(post, k) {
            let w = choose|w: int| 0 <= w < post.len() && post[w].0 == k;
            assert(o[i + 1 + w].0 == k);
        }
    }
    lemma_merge_keeps_unnamed_keys(b, pre, k);
    let m = merged_entries(b, pre);
    assert(upto.subrange(0, upto.len() - 1) =~= pre);
    assert(upto[upto.len() - 1] == o[i]);
    lemma_key_index_range(m, k);
    if key_index(m, k) >= 0 {
        lemma_lookup_update_same(m, k, merged(m[key_index(m, k)].1, o[i].1));
    } else if !(o[i].1 is Null) {
        lemma_lookup_push_new(m, k, o[i].1);
    }
    lemma_merged_entries_split(b, upto, post);
    assert(upto + post =~= o);
    lemma_merge_keeps_unnamed_keys(merged_entries(b, upto), post, k);
}

/// Finds the first entry of `entries` whose key is `k`.
fn find_key(entries: &Vec<MapEntry>, k: &String) -> (r: Option<usize>)
    ensures
        match r {
            Some(j) => is_first_index(entries_model(entries@), k@, j as int),
            None => !has_key(entries_model(entries@), k@),
        },
{
    let ghost m = entries_model(entries@);
    let mut i: usize = 0;
    while i < entries.len()
        invariant
            0 <= i <= entries.len(),
            m == entries_model(entries@),
            forall|x: int| 0 <= x < i ==> m[x].0 != k@,
        decreases entries.len() - i,
    {
        if entries[i].key == *k {
            return Some(i);
        }
        i = i + 1;
    }
    None
}

proof fn lemma_first_index_unique(m: Seq<(Seq<char>, Tree)>, k: Seq<char>, j: int)
    requires
        is_first_index(m, k, j),
    ensures
        has_key(m, k),
        key_index(m, k) == j,
{
    let c = choose|x: int| is_first_index(m, k, x);
    assert(is_first_index(m, k, c));
    if c < j {
        assert(m[c].0 != k);
    } else if c > j {
        assert(m[j].0 != k);
    }
}

/// Merges `overlay` onto `base` and returns the result.
pub fn merge_values(base: YamlValue, overlay: YamlValue) -> (r: YamlValue)
    ensures
        r@ == merged(base@, overlay@),
    decreases overlay@,
{
    let ghost ov = overlay@;
    match overlay {
        YamlValue::Mapping(oes) => match base {
            YamlValue::Mapping(bes) => {
                proof {
                    lemma_mapping_view(oes);
                    lemma_mapping_view(bes);
                }
                let ghost o = entries_model(oes@);
                let ghost b = entries_model(bes@);
                let mut entries = bes;
                let mut rest = oes;
                let ghost n = rest.len();
                let ghost oes0 = rest@;
                let mut k: usize = 0;
                while rest.len() > 0
                    invariant
                        k + rest.len() == n,
                        n == o.len(),
                        o == entries_model(oes0),
                        rest@ == oes0.subrange(k as int, n as int),
                        entries_model(entries@) == merged_entries(b, o.subrange(0, k as int)),
                        ov == Tree::Mapping(o),
                        ov == overlay@,
                    decreases rest.len(),
                {
                    let e = rest.remove(0);
                    assert(o.subrange(0, k + 1).subrange(0, k as int) =~= o.subrange(0, k as int));
                    let ghost m = entries_model(entries@);
                    match find_key(&entries, &e.key) {
                        Some(j) => {
                            proof {
                                lemma_first_index_unique(m, e.key@, j as int);
                            }
                            let old_e = entries.remove(j);
                            proof {
                                let pair = o[k as int];
                                assert(decreases_to!(ov => ov->Mapping_0));
                                assert(decreases_to!(o => o[k as int]));
                                assert(decreases_to!(pair => pair.1));
                                assert(pair.1 == e.value@);
                                assert(decreases_to!(ov => e.value@));
                            }
                            let v = merge_values(old_e.value, e.value);
                            entries.insert(j, MapEntry { key: old_e.key, value: v });
                            assert(entries_model(entries@) =~= m.update(
                                j as int,
                                (m[j as int].0, merged(m[j as int].1, o[k as int].1)),
                            ));
                        },
                        None => {
                            let is_null = match &e.value {
                                YamlValue::Null => true,
                                _ => false,
                            };
                            if !is_null {
                                entries.push(e);
                                assert(entries_model(entries@) =~= m.push(o[k as int]));
                            }
                        },
                    }
                    k = k + 1;
                }
                assert(o.subrange(0, n as int) =~= o);
                let r = YamlValue::Mapping(entries);
                proof {
                    lemma_mapping_view(entries);
                }
                r
            },
            _ => YamlValue::Mapping(oes),
        },
        YamlValue::Null => base,
        _ => overlay,
    }
}

/// Merges `overlay` onto `base` in place.
pub fn deep_merge(base: &mut YamlValue, overlay: YamlValue)
    ensures
        final(base)@ == merged(old(base)@, overlay@),
{
    let mut b = YamlValue::Null;
    std::mem::swap(base, &mut b);
    *base = merge_values(b, overlay);
}


/// The tree `t` with the entries at the key path `parts` removed. Each
/// segment but the last names nested mappings; the last names the entries
/// removed from their parent. Every entry under a named key is followed, so
/// a key that a mapping holds twice is removed twice. A path that leaves the
/// mappings or names a missing key changes nothing.
pub open spec fn removed_path(t: Tree, parts: Seq<Seq<char>>) -> Tree
    decreases parts.len(), t,
{
    if parts.len() == 0 {
        t
    } else {
        match t {
            Tree::Mapping(m) => Tree::Mapping(removed_entries(m, parts)),
            _ => t,
        }
    }
}

/// The entries `m` with the key path `parts` removed: an entry keyed other
/// than `parts[0]` stays; one keyed `parts[0]` goes when the path ends
/// there, and has the rest of the path removed from its value otherwise.
pub open spec fn removed_entries(m: Seq<(Seq<char>, Tree)>, parts: Seq<Seq<char>>) -> Seq<
    (Seq<char>, Tree),
>
    decreases parts.len(), m,
{
    if m.len() == 0 || parts.len() == 0 {
        m
    } else {
        let rest = removed_entries(m.subrange(0, m.len() - 1), parts);
        let e = m[m.len() - 1];
        if e.0 != parts[0] {
            rest.push(e)
        } else if parts.len() == 1 {
            rest
        } else {
            rest.push((e.0, removed_path(e.1, parts.subrange(1, parts.len() as int))))
        }
    }
}

/// Whether the key path `parts` names an entry of `t`: some entry under
/// `parts[0]` ends the path or leads on to the rest of it.
pub open spec fn has_path(t: Tree, parts: Seq<Seq<char>>) -> bool
    decreases parts.len(), t,
{
    match t {
        Tree::Mapping(m) => parts.len() > 0 && entries_have_path(m, parts),
        _ => false,
    }
}

/// Whether some entry of `m` is named by the key path `parts`.
pub open spec fn entries_have_path(m: Seq<(Seq<char>, Tree)>, parts: Seq<Seq<char>>) -> bool
    decreases parts.len(), m,
{
    if m.len() == 0 || parts.len() == 0 {
        false
    } else {
        let e = m[m.len() - 1];
        entries_have_path(m.subrange(0, m.len() - 1), parts) || (e.0 == parts[0] && (parts.len()
            == 1 || has_path(e.1, parts.subrange(1, parts.len() as int))))
    }
}

proof fn lemma_push_split(m: Seq<(Seq<char>, Tree)>, x: (Seq<char>, Tree))
    ensures
        m.push(x).subrange(0, m.len() as int) == m,
        m.push(x)[m.len() as int] == x,
{
    assert(m.push(x).subrange(0, m.len() as int) =~= m);
}

/// Removing a path takes away every entry it names.
pub proof fn lemma_removed_path_absent(t: Tree, parts: Seq<Seq<char>>)
    requires
        parts.len() >= 1,
    ensures
        !has_path(removed_path(t, parts), parts),
    decreases parts.len(), t,
{
    match t {
        Tree::Mapping(m) => lemma_removed_entries_absent(m, parts),
        _ => {},
    }
}

proof fn lemma_removed_entries_absent(m: Seq<(Seq<char>, Tree)>, parts: Seq<Seq<char>>)
    requires
        parts.len() >= 1,
    ensures
        !entries_have_path(removed_entries(m, parts), parts),
    decreases parts.len(), m,
{
    if m.len() > 0 {
        let init = m.subrange(0, m.len() - 1);
        let e = m[m.len() - 1];
        let rest = removed_entries(init, parts);
        lemma_removed_entries_absent(init, parts);
        if e.0 != parts[0] {
            lemma_push_split(rest, e);
        } else if parts.len() > 1 {
            let sub = parts.subrange(1, parts.len() as int);
            lemma_removed_path_absent(e.1, sub);
            lemma_push_split(rest, (e.0, removed_path(e.1, sub)));
        }
    }
}

/// Removing one path never brings another into being: a path absent before
/// the removal is absent after it.
pub proof fn lemma_removed_path_keeps_absent(t: Tree, q: Seq<Seq<char>>, p: Seq<Seq<char>>)
    requires
        !has_path(t, p),
    ensures
        !has_path(removed_path(t, q), p),
    decreases p.len(), t,
{
    if q.len() > 0 {
        match t {
            Tree::Mapping(m) => lemma_removed_entries_keep_absent(m, q, p),
            _ => {},
        }
    }
}

proof fn lemma_removed_entries_keep_absent(
    m: Seq<(Seq<char>, Tree)>,
    q: Seq<Seq<char>>,
    p: Seq<Seq<char>>,
)
    requires
        q.len() > 0,
        !(p.len() > 0 && entries_have_path(m, p)),
    ensures
        !(p.len() > 0 && entries_have_path(removed_entries(m, q), p)),
    decreases p.len(), m,
{
    if m.len() > 0 && p.len() > 0 {
        let init = m.subrange(0, m.len() - 1);
        let e = m[m.len() - 1];
        let rest = removed_entries(init, q);
        lemma_removed_entries_keep_absent(init, q, p);
        if e.0 != q[0] {
            lemma_push_split(rest, e);
        } else if q.len() > 1 {
            let x = (e.0, removed_path(e.1, q.subrange(1, q.len() as int)));
            lemma_push_split(rest, x);
            if e.0 == p[0] && p.len() > 1 {
                lemma_removed_path_keeps_absent(
                    e.1,
                    q.subrange(1, q.len() as int),
                    p.subrange(1, p.len() as int),
                );
            }
        }
    }
}

/// Removing a path that names nothing changes nothing.
pub proof fn lemma_remove_missing_path(t: Tree, parts: Seq<Seq<char>>)
    requires
        !has_path(t, parts),
    ensures
        removed_path(t, parts) == t,
    decreases parts.len(), t,
{
    if parts.len() > 0 {
        match t {
            Tree::Mapping(m) => {
                lemma_removed_entries_missing(m, parts);
            },
            _ => {},
        }
    }
}

proof fn lemma_removed_entries_missing(m: Seq<(Seq<char>, Tree)>, parts: Seq<Seq<char>>)
    requires
        parts.len() >= 1,
        !entries_have_path(m, parts),
    ensures
        removed_entries(m, parts) == m,
    decreases parts.len(), m,
{
    if m.len() > 0 {
        let init = m.subrange(0, m.len() - 1);
        lemma_removed_entries_missing(init, parts);
        let e = m[m.len() - 1];
        if e.0 == parts[0] {
            lemma_remove_missing_path(e.1, parts.subrange(1, parts.len() as int));
        }
        assert(init.push(e) =~= m);
    }
}

/// The entries of `m` keyed other than `k`, in order.
pub open spec fn others(m: Seq<(Seq<char>, Tree)>, k: Seq<char>) -> Seq<(Seq<char>, Tree)> {
    m.filter(key_other_than(k))
}

pub open spec fn key_other_than(k: Seq<char>) -> spec_fn((Seq<char>, Tree)) -> bool {
    |e: (Seq<char>, Tree)| e.0 != k
}

/// Removing a key path keeps every entry under another top-level key, in
/// order and unchanged.
pub proof fn lemma_remove_keeps_other_keys(m: Seq<(Seq<char>, Tree)>, parts: Seq<Seq<char>>)
    requires
        parts.len() >= 1,
    ensures
        others(removed_entries(m, parts), parts[0]) == others(m, parts[0]),
    decreases m.len(),
{
    if m.len() == 0 {
    } else {
        let init = m.subrange(0, m.len() - 1);
        let e = m[m.len() - 1];
        let f = key_other_than(parts[0]);
        lemma_remove_keeps_other_keys(init, parts);
        let rest = removed_entries(init, parts);
        assert(init.push(e) =~= m);
        init.lemma_filter_push(e, f);
        if e.0 != parts[0] {
            rest.lemma_filter_push(e, f);
        } else if parts.len() > 1 {
            rest.lemma_filter_push((e.0, removed_path(e.1, parts.subrange(1, parts.len() as int))), f);
        }
    }
}

/// Removes the entries at the key path `parts[from..]` from `val`.
pub fn remove_field_recursive(val: &mut YamlValue, parts: &Vec<String>, from: usize)
    requires
        from <= parts.len(),
    ensures
        final(val)@ == removed_path(old(val)@, views(parts@).subrange(from as int, parts.len() as int)),
    decreases parts.len() - from,
{
    let ghost ps = views(parts@).subrange(from as int, parts.len() as int);
    if from >= parts.len() {
        return;
    }
    let mut cur = YamlValue::Null;
    std::mem::swap(val, &mut cur);
    match cur {
        YamlValue::Mapping(entries) => {
            proof {
                lemma_mapping_view(entries);
            }
            let ghost m = entries_model(entries@);
            let ghost entries0 = entries@;
            let ghost n = entries.len();
            let mut rest = entries;
            let mut out: Vec<MapEntry> = Vec::new();
            let mut k: usize = 0;
            assert(m.subrange(0, 0) =~= Seq::<(Seq<char>, Tree)>::empty());
            assert(entries_model(out@) =~= Seq::<(Seq<char>, Tree)>::empty());
            assert(ps.subrange(1, ps.len() as int) =~= views(parts@).subrange(
                from + 1,
                parts.len() as int,
            ));
            while rest.len() > 0
                invariant
                    from < parts.len(),
                    ps == views(parts@).subrange(from as int, parts.len() as int),
                    ps.subrange(1, ps.len() as int) == views(parts@).subrange(
                        from + 1,
                        parts.len() as int,
                    ),
                    k + rest.len() == n,
                    n == entries0.len(),
                    m == entries_model(entries0),
                    rest@ == entries0.subrange(k as int, n as int),
                    entries_model(out@) == removed_entries(m.subrange(0, k as int), ps),
                decreases rest.len(),
            {
                let ghost before = entries_model(out@);
                let e = rest.remove(0);
                assert(rest@ =~= entries0.subrange(k + 1, n as int));
                assert(e == entries0[k as int]);
                assert(m.subrange(0, k + 1).subrange(0, k as int) =~= m.subrange(0, k as int));
                assert(m.subrange(0, k + 1)[k as int] == m[k as int]);
                assert(ps[0] == parts@[from as int]@);
                if !(e.key == parts[from]) {
                    out.push(e);
                    assert(entries_model(out@) =~= before.push(m[k as int]));
                } else if from + 1 == parts.len() {
                } else {
                    let key = e.key;
                    let mut child = e.value;
                    remove_field_recursive(&mut child, parts, from + 1);
                    out.push(MapEntry { key, value: child });
                    assert(entries_model(out@) =~= before.push(
                        (m[k as int].0, removed_path(m[k as int].1, ps.subrange(1, ps.len() as int))),
                    ));
                }
                k = k + 1;
            }
            assert(m.subrange(0, n as int) =~= m);
            proof {
                lemma_mapping_view(out);
            }
            *val = YamlValue::Mapping(out);
        },
        other => {
            *val = other;
        },
    }
}

/// `t` with `v` placed at the key path `parts`: each segment names an entry
/// of a mapping (the first under its key), created when missing; a value on
/// the way that is not a mapping is replaced by one; the last segment's
/// entry takes `v`.
pub open spec fn with_path_set(t: Tree, parts: Seq<Seq<char>>, v: Tree) -> Tree
    decreases parts.len(),
{
    if parts.len() == 0 {
        v
    } else {
        let m = match t {
            Tree::Mapping(m) => m,
            _ => Seq::empty(),
        };
        let j = key_index(m, parts[0]);
        let rest = parts.subrange(1, parts.len() as int);
        if j >= 0 {
            Tree::Mapping(m.update(j, (m[j].0, with_path_set(m[j].1, rest, v))))
        } else {
            Tree::Mapping(m.push((parts[0], with_path_set(Tree::Null, rest, v))))
        }
    }
}

/// Places `v` at the key path `parts[from..]` in `val`.
pub fn set_path(val: &mut YamlValue, parts: &Vec<String>, from: usize, v: YamlValue)
    requires
        from <= parts.len(),
    ensures
        final(val)@ == with_path_set(
            old(val)@,
            views(parts@).subrange(from as int, parts.len() as int),
            v@,
        ),
    decreases parts.len() - from,
{
    let ghost ps = views(parts@).subrange(from as int, parts.len() as int);
    if from >= parts.len() {
        *val = v;
        return;
    }
    assert(ps.subrange(1, ps.len() as int) =~= views(parts@).subrange(from + 1, parts.len() as int));
    let mut cur = YamlValue::Null;
    std::mem::swap(val, &mut cur);
    let mut entries = match cur {
        YamlValue::Mapping(e) => {
            proof {
                lemma_mapping_view(e);
            }
            e
        },
        _ => {
            let e: Vec<MapEntry> = Vec::new();
            assert(entries_model(e@) =~= Seq::<(Seq<char>, Tree)>::empty());
            e
        },
    };
    let ghost m = entries_model(entries@);
    let ghost vv = v@;
    match find_key(&entries, &parts[from]) {
        Some(j) => {
            proof {
                lemma_first_index_unique(m, parts[from as int]@, j as int);
            }
            let e = entries.remove(j);
            let mut child = e.value;
            set_path(&mut child, parts, from + 1, v);
            entries.insert(j, MapEntry { key: e.key, value: child });
            assert(entries_model(entries@) =~= m.update(
                j as int,
                (m[j as int].0, with_path_set(m[j as int].1, ps.subrange(1, ps.len() as int), vv)),
            ));
        },
        None => {
            let mut child = YamlValue::Null;
            set_path(&mut child, parts, from + 1, v);
            entries.push(MapEntry { key: parts[from].clone(), value: child });
            assert(entries_model(entries@) =~= m.push(
                (ps[0], with_path_set(Tree::Null, ps.subrange(1, ps.len() as int), vv)),
            ));
        },
    }
    proof {
        lemma_mapping_view(entries);
    }
    *val = YamlValue::Mapping(entries);
}

/// Removes the entry at the dot-separated key path `path` from `val`.
pub fn remove_field_path(val: &mut YamlValue, path: &str)
    ensures
        final(val)@ == removed_path(old(val)@, split_on(path@, '.')),
{
    let parts = split_char(path, '.');
    proof {
        lemma_split_on_nonempty(path@, '.');
        assert(views(parts@).subrange(0, parts.len() as int) =~= views(parts@));
    }
    remove_field_recursive(val, &parts, 0);
}


/// A copy of `v`.
pub fn copy_value(v: &YamlValue) -> (r: YamlValue)
    ensures
        r@ == v@,
    decreases v,
{
    match v {
        YamlValue::Null => YamlValue::Null,
        YamlValue::Bool(b) => YamlValue::Bool(*b),
        YamlValue::Number(n) => YamlValue::Number(n.clone()),
        YamlValue::Str(s) => YamlValue::Str(s.clone()),
        YamlValue::Sequence(items) => {
            let mut out: Vec<YamlValue> = Vec::new();
            let mut i: usize = 0;
            while i < items.len()
                invariant
                    i <= items.len(),
                    out.len() == i,
                    *v is Sequence && v->Sequence_0 == *items,
                    forall|k: int| 0 <= k < i ==> #[trigger] out@[k]@ == items@[k]@,
                decreases items.len() - i,
            {
                proof {
                    assert(decreases_to!(*v => v->Sequence_0));
                    assert(decreases_to!(items => items[i as int]));
                }
                let c = copy_value(&items[i]);
                out.push(c);
                i = i + 1;
            }
            proof {
                lemma_sequence_view(out);
                lemma_sequence_view(*items);
                assert(items_model(out@) =~= items_model(items@));
            }
            YamlValue::Sequence(out)
        },
        YamlValue::Mapping(entries) => {
            let mut out: Vec<MapEntry> = Vec::new();
            let mut i: usize = 0;
            while i < entries.len()
                invariant
                    i <= entries.len(),
                    out.len() == i,
                    *v is Mapping && v->Mapping_0 == *entries,
                    forall|k: int|
                        0 <= k < i ==> #[trigger] out@[k].key@ == entries@[k].key@ && out@[k].value@
                            == entries@[k].value@,
                decreases entries.len() - i,
            {
                proof {
                    assert(decreases_to!(*v => v->Mapping_0));
                    assert(decreases_to!(entries => entries[i as int]));
                    assert(decreases_to!(entries[i as int] => entries[i as int].value));
                }
                let c = copy_value(&entries[i].value);
                out.push(MapEntry { key: entries[i].key.clone(), value: c });
                i = i + 1;
            }
            proof {
                lemma_mapping_view(out);
                lemma_mapping_view(*entries);
                assert(entries_model(out@) =~= entries_model(entries@));
            }
            YamlValue::Mapping(out)
        },
    }
}


/// The value under key `k` of a mapping; none for a missing key or a
/// value that is not a mapping.
pub open spec fn field_of(t: Tree, k: Seq<char>) -> Option<Tree> {
    match t {
        Tree::Mapping(m) => lookup(m, k),
        _ => None,
    }
}

/// The string under key `k`, when there is one.
pub open spec fn str_field(t: Tree, k: Seq<char>) -> Option<Seq<char>> {
    match field_of(t, k) {
        Some(Tree::Str(s)) => Some(s),
        _ => None,
    }
}

/// The value under key `k` of a mapping.
pub fn get_field<'a>(v: &'a YamlValue, k: &str) -> (r: Option<&'a YamlValue>)
    ensures
        match r {
            Some(x) => field_of(v@, k@) == Some(x@),
            None => field_of(v@, k@) is None,
        },
{
    match v {
        YamlValue::Mapping(entries) => {
            proof {
                lemma_mapping_view(*entries);
            }
            let key = String::from_str(k);
            match find_key(entries, &key) {
                Some(j) => {
                    proof {
                        lemma_first_index_unique(entries_model(entries@), k@, j as int);
                    }
                    Some(&entries[j].value)
                },
                None => None,
            }
        },
        _ => None,
    }
}

/// The string under key `k`, when there is one.
pub fn get_str(v: &YamlValue, k: &str) -> (r: Option<String>)
    ensures
        match r {
            Some(s) => str_field(v@, k@) == Some(s@),
            None => str_field(v@, k@) is None,
        },
{
    match get_field(v, k) {
        Some(YamlValue::Str(s)) => Some(s.clone()),
        _ => None,
    }
}

} // verus!
