//! The PathSpec tree: a mapping from root name to the ordered sequence of
//! suffixes nested under that root, with roots kept in first-seen order.
//!
//! Raw library-path entries follow the grammar `root[/segment]*[/]`. Parsing
//! splits each entry at its first `'/'`; the left part is the root name, the
//! rest (possibly empty) is the suffix. Every well-formed root that appears in
//! the input gets a key, even when no suffix ever accompanies it. An entry
//! whose root segment is empty (it starts with `'/'` or is itself empty) is
//! invalid and is skipped, so no empty-string key can arise.

use vstd::prelude::*;

use crate::paths::{lemma_str_views_push, root_of, str_views, suffix_of};

verus! {

/// Mathematical content of a [`LibDict`]: parallel sequences holding the root
/// names and, at the matching position, each root's ordered suffix list.
#[verifier::ext_equal]
pub struct DictView {
    pub keys: Seq<Seq<char>>,
    pub vals: Seq<Seq<Seq<char>>>,
}

/// Position of `k` in `keys`, scanning from the front; `keys.len()` if absent.
pub open spec fn index_of_key(keys: Seq<Seq<char>>, k: Seq<char>) -> int
    decreases keys.len(),
{
    if keys.len() == 0 {
        0
    } else if keys[0] == k {
        0
    } else {
        1 + index_of_key(keys.skip(1), k)
    }
}

/// Whether `k` occurs in `keys`.
pub open spec fn has_key(keys: Seq<Seq<char>>, k: Seq<char>) -> bool {
    index_of_key(keys, k) < keys.len()
}

/// `index_of_key` is the least position holding `k`, and `keys.len()` if none
/// does.
pub proof fn lemma_index_of_key(keys: Seq<Seq<char>>, k: Seq<char>)
    ensures
        0 <= index_of_key(keys, k) <= keys.len(),
        forall|j: int| 0 <= j < index_of_key(keys, k) ==> keys[j] != k,
        index_of_key(keys, k) < keys.len() ==> keys[index_of_key(keys, k)] == k,
    decreases keys.len(),
{
    if keys.len() == 0 {
    } else if keys[0] == k {
    } else {
        lemma_index_of_key(keys.skip(1), k);
        assert forall|j: int| 0 <= j < index_of_key(keys, k) implies keys[j] != k by {
            if j > 0 {
                assert(keys.skip(1)[j - 1] == keys[j]);
            }
        }
        if index_of_key(keys, k) < keys.len() {
            assert(keys.skip(1)[index_of_key(keys, k) - 1] == keys[index_of_key(keys, k)]);
        }
    }
}

/// A scan that saw no `k` before `i`, and `k` at `i` unless `i == keys.len()`,
/// has found exactly `index_of_key(keys, k)`.
pub proof fn lemma_index_of_key_at(keys: Seq<Seq<char>>, k: Seq<char>, i: int)
    requires
        0 <= i <= keys.len(),
        forall|j: int| 0 <= j < i ==> keys[j] != k,
        i < keys.len() ==> keys[i] == k,
    ensures
        index_of_key(keys, k) == i,
    decreases keys.len(),
{
    if keys.len() == 0 {
    } else if keys[0] == k {
        assert(i == 0);
    } else {
        assert(i != 0);
        assert forall|j: int| 0 <= j < i - 1 implies keys.skip(1)[j] != k by {
            assert(keys.skip(1)[j] == keys[j + 1]);
        }
        if i - 1 < keys.skip(1).len() {
            assert(keys.skip(1)[i - 1] == keys[i]);
        }
        lemma_index_of_key_at(keys.skip(1), k, i - 1);
    }
}

/// `has_key` agrees with sequence membership.
pub proof fn lemma_has_key_contains(keys: Seq<Seq<char>>, k: Seq<char>)
    ensures
        has_key(keys, k) <==> keys.contains(k),
{
    lemma_index_of_key(keys, k);
    if keys.contains(k) {
        let j = choose|j: int| 0 <= j < keys.len() && keys[j] == k;
        assert(index_of_key(keys, k) <= j);
    }
}

/// The empty PathSpec tree.
pub open spec fn empty_dict() -> DictView {
    DictView { keys: Seq::<Seq<char>>::empty(), vals: Seq::<Seq<Seq<char>>>::empty() }
}

/// One parsing step: fold the raw entry `lib` into the tree `d`.
///
/// An empty root marks an invalid entry and is skipped. A new root is
/// appended with its suffix as the sole list element, or with an empty list
/// when the suffix is empty. An already-present root gains the suffix at the
/// end of its list, unless the suffix is empty, which is a no-op.
pub open spec fn insert_one(d: DictView, lib: Seq<char>) -> DictView {
    let root = root_of(lib);
    let suf = suffix_of(lib);
    if root.len() == 0 {
        d
    } else if has_key(d.keys, root) {
        if suf.len() > 0 {
            let i = index_of_key(d.keys, root);
            DictView { keys: d.keys, vals: d.vals.update(i, d.vals[i].push(suf)) }
        } else {
            d
        }
    } else {
        DictView {
            keys: d.keys.push(root),
            vals: d.vals.push(
                if suf.len() > 0 {
                    seq![suf]
                } else {
                    Seq::<Seq<char>>::empty()
                },
            ),
        }
    }
}

/// The PathSpec tree of `libs`, folded left to right.
pub open spec fn parse_spec(libs: Seq<Seq<char>>) -> DictView
    decreases libs.len(),
{
    if libs.len() == 0 {
        empty_dict()
    } else {
        insert_one(parse_spec(libs.drop_last()), libs.last())
    }
}

/// A key present in a tree is still present after one more entry is folded in.
pub proof fn lemma_insert_one_keeps_key(d: DictView, lib: Seq<char>, k: Seq<char>)
    requires
        d.keys.contains(k),
    ensures
        insert_one(d, lib).keys.contains(k),
{
    let j = choose|j: int| 0 <= j < d.keys.len() && d.keys[j] == k;
    if !(root_of(lib).len() == 0) && !has_key(d.keys, root_of(lib)) {
        assert(d.keys.push(root_of(lib))[j] == k);
    }
}

/// Folding an entry with a well-formed root puts that root among the keys.
pub proof fn lemma_insert_one_adds_root(d: DictView, lib: Seq<char>)
    requires
        root_of(lib).len() > 0,
    ensures
        insert_one(d, lib).keys.contains(root_of(lib)),
{
    let root = root_of(lib);
    if has_key(d.keys, root) {
        lemma_index_of_key(d.keys, root);
    } else {
        assert(d.keys.push(root)[d.keys.len() as int] == root);
    }
}

/// Law: every root name present in the raw library list appears as a key of
/// the parsed PathSpec tree, even when its suffix list is empty. Only entries
/// whose root segment is empty — invalid input, skipped by the parser — are
/// exempt.
pub proof fn lemma_every_root_present(libs: Seq<Seq<char>>, i: int)
    requires
        0 <= i < libs.len(),
        root_of(libs[i]).len() > 0,
    ensures
        parse_spec(libs).keys.contains(root_of(libs[i])),
        has_key(parse_spec(libs).keys, root_of(libs[i])),
    decreases libs.len(),
{
    if i == libs.len() - 1 {
        lemma_insert_one_adds_root(parse_spec(libs.drop_last()), libs[i]);
    } else {
        assert(libs.drop_last()[i] == libs[i]);
        lemma_every_root_present(libs.drop_last(), i);
        lemma_insert_one_keeps_key(parse_spec(libs.drop_last()), libs.last(), root_of(libs[i]));
    }
    lemma_has_key_contains(parse_spec(libs).keys, root_of(libs[i]));
}

/// Folding an entry never duplicates a key.
pub proof fn lemma_insert_one_keeps_unique(d: DictView, lib: Seq<char>)
    requires
        d.keys.no_duplicates(),
    ensures
        insert_one(d, lib).keys.no_duplicates(),
{
    let root = root_of(lib);
    if root.len() > 0 && !has_key(d.keys, root) {
        lemma_has_key_contains(d.keys, root);
        let ks = d.keys.push(root);
        assert forall|i: int, j: int| 0 <= i < ks.len() && 0 <= j < ks.len() && i != j implies ks[i]
            != ks[j] by {
            if i < d.keys.len() && j < d.keys.len() {
                assert(ks[i] == d.keys[i] && ks[j] == d.keys[j]);
            } else if i < d.keys.len() {
                assert(ks[j] == root && ks[i] == d.keys[i]);
                assert(d.keys.contains(d.keys[i]));
            } else {
                assert(ks[i] == root && ks[j] == d.keys[j]);
                assert(d.keys.contains(d.keys[j]));
            }
        }
    }
}

/// Invariant of the PathSpec tree: its keys are distinct, so each root maps
/// to exactly one suffix list.
pub proof fn lemma_parse_keys_unique(libs: Seq<Seq<char>>)
    ensures
        parse_spec(libs).keys.no_duplicates(),
    decreases libs.len(),
{
    if libs.len() > 0 {
        lemma_parse_keys_unique(libs.drop_last());
        lemma_insert_one_keeps_unique(parse_spec(libs.drop_last()), libs.last());
    }
}

/// The PathSpec tree: root names in first-seen order, each with the ordered
/// suffixes nested under it.
pub struct LibDict {
    names: Vec<String>,
    vals: Vec<Vec<String>>,
}

impl View for LibDict {
    type V = DictView;

    closed spec fn view(&self) -> DictView {
        DictView {
            keys: str_views(self.names@),
            vals: self.vals@.map_values(|v: Vec<String>| str_views(v@)),
        }
    }
}

impl LibDict {
    /// The key and value sequences line up.
    pub open spec fn wf(&self) -> bool {
        self@.keys.len() == self@.vals.len()
    }

    /// Position of `name` among the roots, scanning from the front;
    /// the number of roots if absent.
    fn find_key(&self, name: &String) -> (r: usize)
        ensures
            r == index_of_key(self@.keys, name@),
    {
        let mut i: usize = 0;
        while i < self.names.len()
            invariant
                0 <= i <= self@.keys.len(),
                self@.keys.len() == self.names@.len(),
                forall|j: int| 0 <= j < i ==> self@.keys[j] != name@,
            decreases self.names@.len() - i,
        {
            proof {
                assert(self@.keys[i as int] == self.names@[i as int]@);
            }
            if self.names[i] == *name {
                proof {
                    lemma_index_of_key_at(self@.keys, name@, i as int);
                }
                return i;
            }
            i += 1;
        }
        proof {
            lemma_index_of_key_at(self@.keys, name@, self@.keys.len() as int);
        }
        i
    }

    /// How many distinct roots the tree holds.
    pub fn num_roots(&self) -> (r: usize)
        ensures
            r == self@.keys.len(),
    {
        self.names.len()
    }

    /// The root name at position `i` (first-seen order).
    pub fn root_at(&self, i: usize) -> (r: &String)
        requires
            i < self@.keys.len(),
        ensures
            r@ == self@.keys[i as int],
    {
        &self.names[i]
    }

    /// The suffix list at position `i` (first-seen order).
    pub fn libs_at(&self, i: usize) -> (r: &Vec<String>)
        requires
            self.wf(),
            i < self@.keys.len(),
        ensures
            str_views(r@) == self@.vals[i as int],
    {
        &self.vals[i]
    }

    /// The suffix list under root `name`, or `None` when `name` is not a key.
    pub fn get(&self, name: &String) -> (r: Option<&Vec<String>>)
        requires
            self.wf(),
        ensures
            match r {
                Some(v) => {
                    &&& has_key(self@.keys, name@)
                    &&& str_views(v@) == self@.vals[index_of_key(self@.keys, name@)]
                },
                None => !has_key(self@.keys, name@),
            },
    {
        let i = self.find_key(name);
        if i < self.names.len() {
            Some(&self.vals[i])
        } else {
            None
        }
    }

    /// Parses the raw library-path entries into a PathSpec tree.
    ///
    /// Each entry is split at its first `'/'` into root and suffix and folded
    /// into the tree; entries with an empty root segment are skipped.
    pub fn parse(libs: &Vec<String>) -> (r: LibDict)
        ensures
            r.wf(),
            r@ == parse_spec(str_views(libs@)),
    {
        let ghost all = str_views(libs@);
        let mut d = LibDict { names: Vec::new(), vals: Vec::new() };
        proof {
            assert(d@ =~= parse_spec(all.take(0)));
        }
        let mut i: usize = 0;
        while i < libs.len()
            invariant
                0 <= i <= libs@.len(),
                all == str_views(libs@),
                d.wf(),
                d@ == parse_spec(all.take(i as int)),
            decreases libs@.len() - i,
        {
            let ghost d0 = d@;
            let lib = &libs[i];
            proof {
                assert(all[i as int] == lib@);
                assert(all.take(i + 1).drop_last() =~= all.take(i as int));
                assert(all.take(i + 1).last() == lib@);
                assert(parse_spec(all.take(i + 1)) == insert_one(d0, lib@));
            }
            let (root, suf) = crate::paths::split_first_slash(lib.as_str());
            if root.as_str().unicode_len() > 0 {
                let idx = d.find_key(&root);
                if idx < d.names.len() {
                    if suf.as_str().unicode_len() > 0 {
                        let ghost vals0 = d.vals@;
                        let ghost old_elem = d.vals@[idx as int]@;
                        d.vals[idx].push(suf);
                        proof {
                            lemma_str_views_push(old_elem, suf);
                            assert forall|j: int|
                                0 <= j < d.vals@.len() implies d@.vals[j] == insert_one(
                                d0,
                                lib@,
                            ).vals[j] by {
                                if j != idx {
                                    assert(d.vals@[j] == vals0[j]);
                                }
                            }
                            assert(d@.keys =~= insert_one(d0, lib@).keys);
                            assert(d@.vals =~= insert_one(d0, lib@).vals);
                            assert(d@ =~= insert_one(d0, lib@));
                        }
                    }
                } else {
                    let ghost names0 = d.names@;
                    let ghost vals0 = d.vals@;
                    d.names.push(root);
                    if suf.as_str().unicode_len() > 0 {
                        let mut v: Vec<String> = Vec::new();
                        v.push(suf);
                        d.vals.push(v);
                        proof {
                            assert(str_views(d.vals@.last()@) =~= seq![suf@]);
                        }
                    } else {
                        d.vals.push(Vec::new());
                        proof {
                            assert(str_views(d.vals@.last()@) =~= Seq::<Seq<char>>::empty());
                        }
                    }
                    proof {
                        lemma_str_views_push(names0, root);
                        assert forall|j: int|
                            0 <= j < d.vals@.len() implies d@.vals[j] == insert_one(
                            d0,
                            lib@,
                        ).vals[j] by {
                            if j < vals0.len() {
                                assert(d.vals@[j] == vals0[j]);
                            }
                        }
                        assert(d@.keys =~= insert_one(d0, lib@).keys);
                        assert(d@.vals =~= insert_one(d0, lib@).vals);
                        assert(d@ =~= insert_one(d0, lib@));
                    }
                }
            }
            proof {
                assert(d@ == parse_spec(all.take(i as int + 1)));
            }
            i += 1;
        }
        proof {
            assert(all.take(libs@.len() as int) =~= all);
        }
        d
    }
}

} // verus!
