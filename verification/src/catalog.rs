//! The catalog builder: groups the scanner's flat module list by
//! category, orders categories lexicographically, sorts each bucket by
//! module name (ties broken by identifier), and synthesizes a single
//! placeholder entry when the scan found nothing, so the navigation
//! state machine always has at least one navigable item.

use crate::descriptor::{distinct_keys, Module};
use crate::order::{
    lemma_lex_le_antisym, lemma_lex_le_refl, lemma_lex_le_total, lemma_lex_le_trans, lex_le,
    lex_lt, str_eq, str_le,
};
use vstd::multiset::Multiset;
use vstd::prelude::*;
use vstd::seq_lib::{lemma_flatten_concat, lemma_multiset_commutative, to_multiset_insert};
use vstd::string::StringExecFns;

verus! {

/// Module order inside a bucket: by name, ties by identifier.
pub open spec fn module_le(a: Module, b: Module) -> bool {
    lex_lt(a.name@, b.name@) || (a.name@ == b.name@ && lex_le(a.id@, b.id@))
}

/// Every adjacent pair of modules is ordered.
pub open spec fn sorted_modules(s: Seq<Module>) -> bool {
    forall|i: int| 0 <= i && i + 1 < s.len() ==> module_le(#[trigger] s[i], s[i + 1])
}

/// Category labels strictly ascend, so they are distinct.
pub open spec fn sorted_distinct_labels(s: Seq<String>) -> bool {
    forall|i: int| 0 <= i && i + 1 < s.len() ==> lex_lt((#[trigger] s[i])@, s[i + 1]@)
}

/// Of two modules, one is at most the other.
pub proof fn lemma_module_le_total(a: Module, b: Module)
    ensures
        module_le(a, b) || module_le(b, a),
{
    lemma_lex_le_total(a.name@, b.name@);
    lemma_lex_le_total(a.id@, b.id@);
}

/// Strictly ascending adjacent labels order every pair.
pub proof fn lemma_labels_pairwise(s: Seq<String>, i: int, j: int)
    requires
        sorted_distinct_labels(s),
        0 <= i < j < s.len(),
    ensures
        lex_lt(s[i]@, s[j]@),
    decreases j - i,
{
    if j == i + 1 {
    } else {
        lemma_labels_pairwise(s, i, j - 1);
        lemma_lex_le_trans(s[i]@, s[j - 1]@, s[j]@);
        if s[i]@ == s[j]@ {
            lemma_lex_le_antisym(s[j - 1]@, s[j]@);
        }
    }
}

/// Executable module order, against `module_le`.
fn module_le_exec(a: &Module, b: &Module) -> (r: bool)
    ensures
        r == module_le(*a, *b),
{
    if str_eq(a.name.as_str(), b.name.as_str()) {
        str_le(a.id.as_str(), b.id.as_str())
    } else {
        str_le(a.name.as_str(), b.name.as_str())
    }
}

/// Where `label` stands among the sorted `cats`: its index, or the index
/// a new entry must take to keep the order.
enum Slot {
    Found(usize),
    Insert(usize),
}

fn locate(cats: &Vec<String>, label: &str) -> (r: Slot)
    requires
        sorted_distinct_labels(cats@),
    ensures
        (match r {
            Slot::Found(c) => 0 <= c < cats@.len() && cats@[c as int]@ == label@,
            Slot::Insert(c) => {
                &&& 0 <= c <= cats@.len()
                &&& (forall|j: int| 0 <= j < c ==> lex_lt((#[trigger] cats@[j])@, label@))
                &&& (c < cats@.len() ==> lex_lt(label@, cats@[c as int]@))
                &&& (forall|j: int| 0 <= j < cats@.len() ==> (#[trigger] cats@[j])@ != label@)
            },
        }),
{
    let n = cats.len();
    let mut i: usize = 0;
    loop
        invariant
            i <= n,
            n == cats@.len(),
            sorted_distinct_labels(cats@),
            forall|j: int| 0 <= j < i ==> lex_lt((#[trigger] cats@[j])@, label@),
        decreases n - i,
    {
        if i >= n {
            return Slot::Insert(i);
        }
        if str_le(label, cats[i].as_str()) {
            if str_eq(label, cats[i].as_str()) {
                return Slot::Found(i);
            }
            proof {
                assert(lex_lt(label@, cats@[i as int]@));
                assert forall|j: int| 0 <= j < cats@.len() implies (#[trigger] cats@[j])@
                    != label@ by {
                    if j < i {
                    } else if j > i {
                        lemma_labels_pairwise(cats@, i as int, j);
                        if cats@[j]@ == label@ {
                            lemma_lex_le_antisym(label@, cats@[i as int]@);
                        }
                    }
                }
            }
            return Slot::Insert(i);
        }
        proof {
            lemma_lex_le_total(label@, cats@[i as int]@);
            if cats@[i as int]@ == label@ {
                lemma_lex_le_refl(label@);
                assert(false);
            }
        }
        i = i + 1;
    }
}

/// The buckets as mathematical sequences.
pub open spec fn bucket_views(buckets: Seq<Vec<Module>>) -> Seq<Seq<Module>> {
    buckets.map_values(|b: Vec<Module>| b@)
}

/// Every module of every bucket, in catalog order.
pub open spec fn all_modules_of(buckets: Seq<Vec<Module>>) -> Seq<Module> {
    bucket_views(buckets).flatten()
}

/// The category labels as character sequences.
pub open spec fn label_views(cats: Seq<String>) -> Seq<Seq<char>> {
    cats.map_values(|s: String| s@)
}

/// Well-formedness of a grouping: one non-empty, name-sorted bucket per
/// label, labels strictly ascending, every module standing in the bucket
/// of its own category, and every module's action names unique, as the
/// descriptor format guarantees of parsed modules.
pub open spec fn wf_parts(cats: Seq<String>, buckets: Seq<Vec<Module>>) -> bool {
    &&& buckets.len() == cats.len()
    &&& sorted_distinct_labels(cats)
    &&& (forall|c: int| 0 <= c < buckets.len() ==> (#[trigger] buckets[c])@.len() > 0)
    &&& (forall|c: int| 0 <= c < buckets.len() ==> sorted_modules((#[trigger] buckets[c])@))
    &&& (forall|c: int, k: int|
        0 <= c < buckets.len() && 0 <= k < buckets[c]@.len() ==> (#[trigger] buckets[c]@[k]).category@
            == cats[c]@)
    &&& (forall|c: int, k: int|
        0 <= c < buckets.len() && 0 <= k < buckets[c]@.len() ==> distinct_keys(
            (#[trigger] buckets[c]@[k]).actions@,
        ))
}

/// The modules grouped by category: ascending distinct labels, and for
/// each label the bucket of its modules sorted by name then identifier.
pub struct Catalog {
    pub categories: Vec<String>,
    pub buckets: Vec<Vec<Module>>,
}

impl Catalog {
    pub open spec fn wf(self) -> bool {
        wf_parts(self.categories@, self.buckets@)
    }

    /// Every module of the catalog, in catalog order.
    pub open spec fn all_modules(self) -> Seq<Module> {
        all_modules_of(self.buckets@)
    }

    /// The category labels as character sequences.
    pub open spec fn labels(self) -> Seq<Seq<char>> {
        label_views(self.categories@)
    }

    /// Groups `modules` by category.  Built from at least one module, the
    /// catalog holds exactly the given modules and exactly their category
    /// labels; built from none, it holds one synthetic category with one
    /// module exposing one placeholder action, rooted under
    /// `modules_root`.
    pub fn build(modules: Vec<Module>, modules_root: &str) -> (r: Catalog)
        requires
            forall|i: int|
                0 <= i < modules@.len() ==> distinct_keys((#[trigger] modules@[i]).actions@),
        ensures
            r.wf(),
            r.categories@.len() >= 1,
            modules@.len() == 0 ==> r.categories@.len() == 1 && r.categories@[0]@ == "Examples"@
                && r.buckets@[0]@.len() == 1 && r.buckets@[0]@[0].name@ == "Example Module"@
                && r.buckets@[0]@[0].actions@.len() == 1 && r.buckets@[0]@[0].actions@[0].0@
                == "run-placeholder"@ && r.buckets@[0]@[0].actions@[0].1@
                == "echo 'Replace this with your script'"@,
            modules@.len() > 0 ==> r.all_modules().to_multiset() == modules@.to_multiset(),
            modules@.len() > 0 ==> r.labels().to_set() == modules@.map_values(
                |mm: Module| mm.category@,
            ).to_set(),
    {
        broadcast use vstd::multiset::group_multiset_axioms;

        if modules.is_empty() {
            let m = fallback_module(modules_root);
            let mut categories: Vec<String> = Vec::new();
            categories.push(String::from_str("Examples"));
            let mut bucket: Vec<Module> = Vec::new();
            bucket.push(m);
            let mut buckets: Vec<Vec<Module>> = Vec::new();
            buckets.push(bucket);
            return Catalog { categories, buckets };
        }
        let mut rem = modules;
        let mut categories: Vec<String> = Vec::new();
        let mut buckets: Vec<Vec<Module>> = Vec::new();
        proof {
            assert(modules@.take(rem@.len() as int) =~= rem@);
            assert(bucket_views(Seq::<Vec<Module>>::empty()) =~= Seq::<Seq<Module>>::empty());
            assert(all_modules_of(buckets@) =~= Seq::<Module>::empty());
            Seq::<Module>::empty().to_multiset_ensures();
            assert(all_modules_of(buckets@).to_multiset().add(rem@.to_multiset())
                =~= modules@.to_multiset());
            assert(label_views(categories@) =~= Seq::<Seq<char>>::empty());
            assert(modules@.skip(rem@.len() as int) =~= Seq::<Module>::empty());
            assert(label_views(categories@).to_set() =~= modules@.skip(
                rem@.len() as int,
            ).map_values(|mm: Module| mm.category@).to_set());
        }
        while rem.len() > 0
            invariant
                wf_parts(categories@, buckets@),
                rem@.len() <= modules@.len(),
                rem@ == modules@.take(rem@.len() as int),
                forall|j: int| 0 <= j < rem@.len() ==> distinct_keys((#[trigger] rem@[j]).actions@),
                all_modules_of(buckets@).to_multiset().add(rem@.to_multiset())
                    == modules@.to_multiset(),
                label_views(categories@).to_set() == modules@.skip(rem@.len() as int).map_values(
                    |mm: Module| mm.category@,
                ).to_set(),
            decreases rem@.len(),
        {
            broadcast use vstd::multiset::group_multiset_axioms;

            let ghost old_rem = rem@;
            let ghost old_all = all_modules_of(buckets@);
            let ghost old_labels = label_views(categories@);
            let m = rem.pop().unwrap();
            let ghost k = rem@.len() as int;
            proof {
                assert(old_rem =~= rem@.push(m));
                assert(rem@ =~= modules@.take(k)) by {
                    assert(forall|j: int| 0 <= j < k ==> rem@[j] == old_rem[j]);
                }
                assert(m == modules@[k]);
                vstd::seq_lib::to_multiset_build(rem@, m);
            }
            add_module(&mut categories, &mut buckets, m);
            proof {
                let new_all = all_modules_of(buckets@);
                assert(new_all.to_multiset().add(rem@.to_multiset()) =~= modules@.to_multiset())
                    by {
                    assert(new_all.to_multiset() == old_all.to_multiset().insert(m));
                    assert(old_all.to_multiset().add(old_rem.to_multiset())
                        == modules@.to_multiset());
                    assert(old_rem.to_multiset() == rem@.to_multiset().insert(m));
                    assert forall|x: Module|
                        new_all.to_multiset().add(rem@.to_multiset()).count(x)
                            == modules@.to_multiset().count(x) by {
                        assert(old_all.to_multiset().add(old_rem.to_multiset()).count(x)
                            == modules@.to_multiset().count(x));
                    }
                }
                let vf = |mm: Module| mm.category@;
                assert(label_views(categories@).to_set() =~= modules@.skip(k).map_values(
                    vf,
                ).to_set()) by {
                    assert(label_views(categories@).to_set() == old_labels.to_set().insert(
                        m.category@,
                    ));
                    let tail = modules@.skip(k + 1);
                    let head_tail = modules@.skip(k);
                    assert(head_tail =~= seq![m] + tail);
                    assert forall|x: Seq<char>| head_tail.map_values(vf).contains(x) implies
                        old_labels.to_set().insert(m.category@).contains(x) by {
                        let j = choose|j: int|
                            0 <= j < head_tail.len() && vf(head_tail[j]) == x;
                        if j == 0 {
                        } else {
                            assert(tail.map_values(vf)[j - 1] == x);
                            assert(tail.map_values(vf).contains(x));
                        }
                    }
                    assert forall|x: Seq<char>|
                        old_labels.to_set().insert(m.category@).contains(x) implies
                        head_tail.map_values(vf).contains(x) by {
                        if x == m.category@ {
                            assert(head_tail.map_values(vf)[0] == x);
                        } else {
                            assert(tail.map_values(vf).contains(x));
                            let j = choose|j: int|
                                0 <= j < tail.len() && vf(tail[j]) == x;
                            assert(head_tail.map_values(vf)[j + 1] == x);
                        }
                    }
                }
            }
        }
        proof {
            assert(rem@.to_multiset() =~= Multiset::<Module>::empty()) by {
                rem@.to_multiset_ensures();
            }
            assert(all_modules_of(buckets@).to_multiset() =~= modules@.to_multiset()) by {
                assert forall|x: Module|
                    all_modules_of(buckets@).to_multiset().count(x) == modules@.to_multiset().count(
                    x,
                ) by {
                    assert(all_modules_of(buckets@).to_multiset().add(rem@.to_multiset()).count(x)
                        == modules@.to_multiset().count(x));
                }
            }
            assert(modules@.skip(0) =~= modules@);
            let vf = |mm: Module| mm.category@;
            assert(label_views(categories@).to_set() == modules@.map_values(vf).to_set());
            assert(categories@.len() >= 1) by {
                assert(modules@.map_values(vf)[0] == vf(modules@[0]));
                assert(modules@.map_values(vf).contains(vf(modules@[0])));
                assert(label_views(categories@).to_set().contains(vf(modules@[0])));
                assert(label_views(categories@).contains(vf(modules@[0])));
            }
        }
        Catalog { categories, buckets }
    }
}

/// The splice point of `m` in a sorted bucket.
fn insert_pos(bucket: &Vec<Module>, m: &Module) -> (p: usize)
    requires
        sorted_modules(bucket@),
    ensures
        p <= bucket@.len(),
        forall|j: int| 0 <= j < p ==> module_le(#[trigger] bucket@[j], *m),
        p < bucket@.len() ==> module_le(*m, bucket@[p as int]),
{
    let n = bucket.len();
    let mut i: usize = 0;
    loop
        invariant
            i <= n,
            n == bucket@.len(),
            forall|j: int| 0 <= j < i ==> module_le(#[trigger] bucket@[j], *m),
        decreases n - i,
    {
        if i >= n {
            return i;
        }
        if module_le_exec(m, &bucket[i]) {
            return i;
        }
        proof {
            lemma_module_le_total(*m, bucket@[i as int]);
        }
        i = i + 1;
    }
}

/// Inserts `m` into a sorted bucket, keeping it sorted; the new bucket is
/// the old one with `m` spliced in.
fn insert_module(bucket: &mut Vec<Module>, m: Module)
    requires
        sorted_modules(old(bucket)@),
    ensures
        sorted_modules(final(bucket)@),
        exists|p: int|
            0 <= p <= old(bucket)@.len() && final(bucket)@ == (#[trigger] old(
                bucket,
            )@.insert(p, m)),
{
    let i = insert_pos(bucket, &m);
    let ghost old_b = bucket@;
    let ghost p = i as int;
    bucket.insert(i, m);
    proof {
        assert(bucket@ == old_b.insert(p, m));
        assert forall|k: int| 0 <= k && k + 1 < bucket@.len() implies module_le(
            #[trigger] bucket@[k],
            bucket@[k + 1],
        ) by {
            if k + 1 < p {
                assert(bucket@[k] == old_b[k] && bucket@[k + 1] == old_b[k + 1]);
            } else if k + 1 == p {
                assert(bucket@[k] == old_b[k] && bucket@[k + 1] == m);
            } else if k == p {
                assert(bucket@[k] == m && bucket@[k + 1] == old_b[k]);
            } else {
                assert(bucket@[k] == old_b[k - 1] && bucket@[k + 1] == old_b[k]);
            }
        }
    }
}

/// Splicing a sequence into a sequence of sequences adds exactly its
/// elements to the flattened multiset.
proof fn lemma_flatten_ms_insert<A>(bs: Seq<Seq<A>>, c: int, t: Seq<A>)
    requires
        0 <= c <= bs.len(),
    ensures
        bs.insert(c, t).flatten().to_multiset() =~= bs.flatten().to_multiset().add(
            t.to_multiset(),
        ),
{
    broadcast use vstd::multiset::group_multiset_axioms;

    let left = bs.take(c);
    let right = bs.skip(c);
    assert(bs.insert(c, t) =~= left + seq![t] + right);
    assert(bs =~= left + right);
    lemma_flatten_concat(left + seq![t], right);
    lemma_flatten_concat(left, seq![t]);
    lemma_flatten_concat(left, right);
    seq![t].lemma_flatten_singleton();
    assert(bs.insert(c, t).flatten() =~= left.flatten() + t + right.flatten());
    assert(bs.flatten() =~= left.flatten() + right.flatten());
    lemma_multiset_commutative(left.flatten() + t, right.flatten());
    lemma_multiset_commutative(left.flatten(), t);
    lemma_multiset_commutative(left.flatten(), right.flatten());
}

/// Replacing one inner sequence changes the flattened multiset by what
/// the replacement changes, stated without subtraction.
proof fn lemma_flatten_ms_update<A>(bs: Seq<Seq<A>>, c: int, t: Seq<A>)
    requires
        0 <= c < bs.len(),
    ensures
        bs.update(c, t).flatten().to_multiset().add(bs[c].to_multiset())
            =~= bs.flatten().to_multiset().add(t.to_multiset()),
{
    broadcast use vstd::multiset::group_multiset_axioms;

    let left = bs.take(c);
    let right = bs.skip(c + 1);
    assert(bs.update(c, t) =~= left + seq![t] + right);
    assert(bs =~= left + seq![bs[c]] + right);
    lemma_flatten_concat(left + seq![t], right);
    lemma_flatten_concat(left, seq![t]);
    lemma_flatten_concat(left + seq![bs[c]], right);
    lemma_flatten_concat(left, seq![bs[c]]);
    seq![t].lemma_flatten_singleton();
    seq![bs[c]].lemma_flatten_singleton();
    assert(bs.update(c, t).flatten() =~= left.flatten() + t + right.flatten());
    assert(bs.flatten() =~= left.flatten() + bs[c] + right.flatten());
    lemma_multiset_commutative(left.flatten() + t, right.flatten());
    lemma_multiset_commutative(left.flatten(), t);
    lemma_multiset_commutative(left.flatten() + bs[c], right.flatten());
    lemma_multiset_commutative(left.flatten(), bs[c]);
}

/// In a sorted bucket, every adjacent pair of modules has ascending
/// names: ties in name are broken by identifier, never by reordering.
pub proof fn lemma_sorted_bucket_names(s: Seq<Module>)
    requires
        sorted_modules(s),
    ensures
        forall|i: int|
            0 <= i && i + 1 < s.len() ==> lex_le((#[trigger] s[i]).name@, s[i + 1].name@),
{
    assert forall|i: int| 0 <= i && i + 1 < s.len() implies lex_le(
        (#[trigger] s[i]).name@,
        s[i + 1].name@,
    ) by {
        if s[i].name@ == s[i + 1].name@ {
            lemma_lex_le_refl(s[i].name@);
        }
    }
}

/// A catalog holding exactly the category labels of `modules` — as
/// `Catalog::build` ensures of one or more modules — has exactly as many
/// categories as there are distinct labels among them, and, its labels
/// being strictly sorted, each module's bucket is the single one keyed by
/// the module's own category.
pub proof fn lemma_category_count(c: Catalog, modules: Seq<Module>)
    requires
        c.wf(),
        c.labels().to_set() == modules.map_values(|m: Module| m.category@).to_set(),
    ensures
        c.categories@.len() == modules.map_values(|m: Module| m.category@).to_set().len(),
        forall|i: int, j: int|
            0 <= i < j < c.categories@.len() ==> (#[trigger] c.categories@[i])@ != (
            #[trigger] c.categories@[j])@,
{
    assert forall|i: int, j: int|
        0 <= i < j < c.categories@.len() implies (#[trigger] c.categories@[i])@ != (
    #[trigger] c.categories@[j])@ by {
        lemma_labels_pairwise(c.categories@, i, j);
    }
    assert(c.labels().no_duplicates()) by {
        assert(forall|i: int, j: int|
            0 <= i < j < c.labels().len() ==> c.labels()[i] != c.labels()[j]);
    }
    c.labels().unique_seq_to_set();
}

/// The placeholder module synthesized when the scan finds nothing, so
/// the dashboard is never keyboard-dead.
fn fallback_module(modules_root: &str) -> (m: Module)
    ensures
        m.wf(),
        m.id@ == "example-module"@,
        m.name@ == "Example Module"@,
        m.category@ == "Examples"@,
        m.actions@.len() == 1,
        m.actions@[0].0@ == "run-placeholder"@,
        m.actions@[0].1@ == "echo 'Replace this with your script'"@,
        distinct_keys(m.actions@),
{
    let mut root = modules_root.to_owned();
    root.append("/examples");
    let mut actions: Vec<(String, String)> = Vec::new();
    actions.push(
        (
            String::from_str("run-placeholder"),
            String::from_str("echo 'Replace this with your script'"),
        ),
    );
    proof {
        reveal_strlit("example-module");
        reveal_strlit("Example Module");
    }
    Module {
        id: String::from_str("example-module"),
        name: String::from_str("Example Module"),
        description: String::from_str("Placeholder module - add your own"),
        category: String::from_str("Examples"),
        script_kind: String::from_str("bash"),
        enabled: false,
        root,
        actions,
    }
}

/// Files `m` into the bucket of its category, creating the category in
/// label order when it is new: the grouped multiset gains exactly `m`,
/// the label set gains exactly its category.
fn add_module(cats: &mut Vec<String>, buckets: &mut Vec<Vec<Module>>, m: Module)
    requires
        wf_parts(old(cats)@, old(buckets)@),
        distinct_keys(m.actions@),
    ensures
        wf_parts(final(cats)@, final(buckets)@),
        all_modules_of(final(buckets)@).to_multiset() =~= all_modules_of(
            old(buckets)@,
        ).to_multiset().insert(m),
        label_views(final(cats)@).to_set() =~= label_views(old(cats)@).to_set().insert(
            m.category@,
        ),
{
    broadcast use vstd::multiset::group_multiset_axioms;

    match locate(cats, m.category.as_str()) {
        Slot::Found(c) => {
            let ghost old_buckets = buckets@;
            let ghost old_views = bucket_views(buckets@);
            let mut bucket = buckets.remove(c);
            let ghost old_bucket = bucket@;
            insert_module(&mut bucket, m);
            let ghost new_bucket = bucket@;
            buckets.insert(c, bucket);
            proof {
                assert(buckets@ =~= old_buckets.update(c as int, buckets@[c as int]));
                assert(bucket_views(buckets@) =~= old_views.update(c as int, new_bucket));
                let p = choose|p: int|
                    0 <= p <= old_bucket.len() && new_bucket == #[trigger] old_bucket.insert(p, m);
                to_multiset_insert(old_bucket, p, m);
                lemma_flatten_ms_update(old_views, c as int, new_bucket);
                assert(old_views[c as int] == old_bucket);
                assert(all_modules_of(buckets@).to_multiset().add(old_bucket.to_multiset())
                    =~= all_modules_of(old_buckets).to_multiset().insert(m).add(
                    old_bucket.to_multiset(),
                ));
                assert(all_modules_of(buckets@).to_multiset() =~= all_modules_of(
                    old_buckets,
                ).to_multiset().insert(m)) by {
                    let lhs = all_modules_of(buckets@).to_multiset();
                    let rhs = all_modules_of(old_buckets).to_multiset().insert(m);
                    let ob = old_bucket.to_multiset();
                    assert forall|x: Module| lhs.count(x) == rhs.count(x) by {
                        assert(lhs.add(ob).count(x) == rhs.add(ob).count(x));
                        assert(lhs.add(ob).count(x) == lhs.count(x) + ob.count(x));
                        assert(rhs.add(ob).count(x) == rhs.count(x) + ob.count(x));
                    }
                }
                assert(label_views(cats@).to_set() =~= label_views(cats@).to_set().insert(
                    m.category@,
                )) by {
                    assert(label_views(cats@)[c as int] == m.category@);
                    assert(label_views(cats@).contains(m.category@));
                }
                assert forall|k: int| 0 <= k < new_bucket.len() implies (#[trigger] new_bucket[k]).category@
                    == cats@[c as int]@ && distinct_keys(new_bucket[k].actions@) by {
                    if k < p {
                        assert(new_bucket[k] == old_bucket[k]);
                    } else if k == p {
                        assert(new_bucket[k] == m);
                    } else {
                        assert(new_bucket[k] == old_bucket[k - 1]);
                    }
                }
            }
        },
        Slot::Insert(c) => {
            let ghost old_cats = cats@;
            let ghost old_buckets = buckets@;
            let ghost old_views = bucket_views(buckets@);
            let mut bucket: Vec<Module> = Vec::new();
            let label = m.category.clone();
            bucket.push(m);
            let ghost new_bucket = bucket@;
            cats.insert(c, label);
            buckets.insert(c, bucket);
            proof {
                assert(cats@ =~= old_cats.insert(c as int, cats@[c as int]));
                assert(bucket_views(buckets@) =~= old_views.insert(c as int, new_bucket));
                assert(new_bucket =~= Seq::empty().push(m));
                lemma_flatten_ms_insert(old_views, c as int, new_bucket);
                assert(new_bucket.to_multiset() =~= Multiset::empty().insert(m)) by {
                    Seq::<Module>::empty().push(m).to_multiset_ensures();
                    vstd::seq_lib::to_multiset_build(Seq::<Module>::empty(), m);
                }
                assert(all_modules_of(buckets@).to_multiset() =~= all_modules_of(
                    old_buckets,
                ).to_multiset().insert(m));
                assert(label_views(cats@) =~= label_views(old_cats).insert(c as int, m.category@));
                assert(label_views(cats@).to_set() =~= label_views(old_cats).to_set().insert(
                    m.category@,
                )) by {
                    let ls = label_views(cats@);
                    let old_ls = label_views(old_cats);
                    assert forall|x: Seq<char>| ls.contains(x) implies old_ls.to_set().insert(
                        m.category@,
                    ).contains(x) by {
                        let k = choose|k: int| 0 <= k < ls.len() && ls[k] == x;
                        if k < c as int {
                            assert(old_ls[k] == x);
                        } else if k > c as int {
                            assert(old_ls[k - 1] == x);
                        }
                    }
                    assert forall|x: Seq<char>|
                        old_ls.to_set().insert(m.category@).contains(x) implies ls.contains(
                        x,
                    ) by {
                        if x == m.category@ {
                            assert(ls[c as int] == x);
                        } else {
                            let k = choose|k: int| 0 <= k < old_ls.len() && old_ls[k] == x;
                            if k < c as int {
                                assert(ls[k] == x);
                            } else {
                                assert(ls[k + 1] == x);
                            }
                        }
                    }
                }
                assert forall|i: int| 0 <= i && i + 1 < cats@.len() implies lex_lt(
                    (#[trigger] cats@[i])@,
                    cats@[i + 1]@,
                ) by {
                    if i + 1 < c as int {
                        assert(cats@[i] == old_cats[i] && cats@[i + 1] == old_cats[i + 1]);
                    } else if i + 1 == c as int {
                        assert(cats@[i] == old_cats[i]);
                    } else if i == c as int {
                        assert(cats@[i + 1] == old_cats[i]);
                    } else {
                        assert(cats@[i] == old_cats[i - 1] && cats@[i + 1] == old_cats[i]);
                    }
                }
            }
        },
    }
}

} // verus!
