//! The category tree as FINN sends it, and the flat category list made from it.
use vstd::prelude::*;

use crate::category::entry_views;
use crate::model::{CategoryEntry, CategoryView};
use crate::order::{lemma_path_lt_transitive, path_less, path_lt};
use crate::text::{clone_strings, str_eq, views};

verus! {

/// A filter of FINN's search metadata; the one named `category` holds the
/// category tree.
pub struct ApiFilter {
    pub name: String,
    pub filter_items: Vec<ApiFilterItem>,
}

/// A node of the category tree.
pub struct ApiFilterItem {
    pub display_name: String,
    pub name: String,
    pub value: String,
    pub filter_items: Vec<ApiFilterItem>,
}

/// The entries for `items` and their subtrees, in pre-order, each node's
/// path being `parent` followed by the labels down to it.
pub open spec fn flatten(items: Seq<ApiFilterItem>, parent: Seq<Seq<char>>) -> Seq<CategoryView>
    decreases items,
{
    if items.len() == 0 {
        Seq::empty()
    } else {
        let last = items.last();
        let path = parent.push(last.display_name@);
        flatten(items.drop_last(), parent) + seq![
            CategoryView {
                label: last.display_name@,
                path,
                query_param: last.name@,
                value: last.value@,
            },
        ] + flatten(last.filter_items@, path)
    }
}


/// Every entry of the flattened tree has a path that begins with the path
/// it was placed under and ends with the entry's own label.
pub proof fn law_flatten_paths(items: Seq<ApiFilterItem>, parent: Seq<Seq<char>>)
    ensures
        forall|i: int|
            0 <= i < flatten(items, parent).len() ==> {
                let e = #[trigger] flatten(items, parent)[i];
                &&& e.path.len() > parent.len()
                &&& e.path.take(parent.len() as int) == parent
                &&& e.path.last() == e.label
            },
    decreases items,
{
    if items.len() > 0 {
        let last = items.last();
        let path = parent.push(last.display_name@);
        let prev = items.drop_last();
        assert(decreases_to!(items => prev)) by {
            assert(prev == items.subrange(0, items.len() - 1));
        }
        assert(decreases_to!(items => last.filter_items)) by {
            assert(decreases_to!(items => items[items.len() - 1]));
        }
        law_flatten_paths(prev, parent);
        law_flatten_paths(last.filter_items@, path);
        let a = flatten(prev, parent);
        let b = flatten(last.filter_items@, path);
        let f = flatten(items, parent);
        assert(f == a + seq![
            CategoryView {
                label: last.display_name@,
                path,
                query_param: last.name@,
                value: last.value@,
            },
        ] + b);
        assert(path.take(parent.len() as int) =~= parent);
        assert forall|i: int| 0 <= i < f.len() implies {
            let e = #[trigger] f[i];
            &&& e.path.len() > parent.len()
            &&& e.path.take(parent.len() as int) == parent
            &&& e.path.last() == e.label
        } by {
            if i < a.len() {
                assert(f[i] == a[i]);
            } else if i == a.len() {
            } else {
                let e = b[i - a.len() - 1];
                assert(f[i] == e);
                assert(e.path.take(path.len() as int) == path);
                assert(e.path.take(parent.len() as int) =~= path.take(parent.len() as int)) by {
                    assert forall|k: int| 0 <= k < parent.len() implies e.path[k] == path[k] by {
                        assert(e.path.take(path.len() as int)[k] == e.path[k]);
                    }
                }
            }
        }
    }
}

/// Adds the entries for `items` and their subtrees to `out`, each with
/// `parent_path` in front of its own path; `parent_path` is given back as it was.
pub fn flatten_category_entries(
    items: &Vec<ApiFilterItem>,
    parent_path: &mut Vec<String>,
    out: &mut Vec<CategoryEntry>,
)
    ensures
        views(final(parent_path)@) == views(old(parent_path)@),
        entry_views(final(out)@) == entry_views(old(out)@) + flatten(
            items@,
            views(old(parent_path)@),
        ),
    decreases items@,
{
    let ghost parent = views(parent_path@);
    let ghost start = entry_views(out@);
    let mut i: usize = 0;
    while i < items.len()
        invariant
            i <= items@.len(),
            views(parent_path@) == parent,
            entry_views(out@) == start + flatten(items@.take(i as int), parent),
        decreases items@.len() - i,
    {
        let item = &items[i];
        let ghost before = entry_views(out@);
        parent_path.push(item.display_name.clone());
        let ghost path = views(parent_path@);
        assert(path == parent.push(item.display_name@));
        let entry = CategoryEntry {
            label: item.display_name.clone(),
            path: clone_strings(parent_path),
            query_param: item.name.clone(),
            value: item.value.clone(),
        };
        out.push(entry);
        assert(entry_views(out@) == before + seq![entry@]);
        proof {
            assert(decreases_to!(items@ => items@[i as int]));
            assert(decreases_to!(items@[i as int] => items@[i as int].filter_items));
            assert(decreases_to!(items@[i as int].filter_items => items@[i as int].filter_items@));
        }
        let ghost mid = entry_views(out@);
        flatten_category_entries(&item.filter_items, parent_path, out);
        let ghost popped = parent_path@;
        parent_path.pop();
        proof {
            assert(parent_path@ == popped.drop_last());
            assert(views(parent_path@) =~= views(popped).drop_last());
            assert(views(parent_path@) == parent);
            assert(items@.take(i + 1).drop_last() == items@.take(i as int));
            assert(items@.take(i + 1).last() == items@[i as int]);
        }
        i = i + 1;
    }
    assert(items@.take(items@.len() as int) == items@);
}

/// No entry's path comes before an earlier entry's path.
pub open spec fn sorted_by_path(s: Seq<CategoryView>) -> bool {
    forall|i: int, j: int| 0 <= i < j < s.len() ==> !path_lt(s[j].path, s[i].path)
}

/// Whether an entry has the path `p`.
pub open spec fn has_path(p: Seq<Seq<char>>) -> spec_fn(CategoryView) -> bool {
    |e: CategoryView| e.path == p
}

/// For every path, the entries with that path come in the same order in
/// `a` as in `b`.
pub open spec fn same_order_per_path(a: Seq<CategoryView>, b: Seq<CategoryView>) -> bool {
    forall|p: Seq<Seq<char>>| #[trigger] a.filter(has_path(p)) == b.filter(has_path(p))
}

proof fn lemma_insert_after_equal_paths(
    sv: Seq<CategoryView>,
    pos: int,
    ev: CategoryView,
    p: Seq<Seq<char>>,
)
    requires
        0 <= pos <= sv.len(),
        sorted_by_path(sv),
        pos < sv.len() ==> path_lt(ev.path, sv[pos].path),
    ensures
        sv.insert(pos, ev).filter(has_path(p)) == sv.filter(has_path(p)) + if ev.path == p {
            seq![ev]
        } else {
            Seq::empty()
        },
{
    let f = has_path(p);
    let a = sv.take(pos);
    let b = sv.skip(pos);
    assert(sv == a + b);
    assert(sv.insert(pos, ev) == a + seq![ev] + b);
    Seq::filter_distributes_over_add(a, b, f);
    Seq::filter_distributes_over_add(a + seq![ev], b, f);
    Seq::filter_distributes_over_add(a, seq![ev], f);
    assert(seq![ev].filter(f) == if ev.path == p {
        seq![ev]
    } else {
        Seq::empty()
    }) by {
        reveal_with_fuel(Seq::filter, 2);
        assert(seq![ev].drop_last() =~= Seq::<CategoryView>::empty());
    }
    if ev.path == p {
        assert forall|k: int| 0 <= k < b.len() implies !f(#[trigger] b[k]) by {
            assert(b[k] == sv[pos + k]);
            if sv[pos + k].path == ev.path {
                if k == 0 {
                    crate::order::lemma_path_lt_irreflexive(ev.path);
                } else {
                    assert(!path_lt(sv[pos + k].path, sv[pos].path));
                }
            }
        }
        b.lemma_all_neg_filter_empty(f);
    }
}

/// The entries ordered by path; entries with equal paths keep their order.
pub fn sort_by_path(entries: &Vec<CategoryEntry>) -> (r: Vec<CategoryEntry>)
    ensures
        sorted_by_path(entry_views(r@)),
        same_order_per_path(entry_views(r@), entry_views(entries@)),
        entry_views(r@).to_multiset() == entry_views(entries@).to_multiset(),
{
    broadcast use vstd::seq_lib::group_to_multiset_ensures;

    let mut sorted: Vec<CategoryEntry> = Vec::new();
    let mut i: usize = 0;
    assert(entry_views(sorted@) =~= entry_views(entries@.take(0)));
    while i < entries.len()
        invariant
            i <= entries@.len(),
            sorted_by_path(entry_views(sorted@)),
            same_order_per_path(entry_views(sorted@), entry_views(entries@.take(i as int))),
            entry_views(sorted@).to_multiset() == entry_views(entries@.take(i as int)).to_multiset(),
        decreases entries@.len() - i,
    {
        let e = entries[i].clone();
        let ghost sv = entry_views(sorted@);
        let mut pos: usize = 0;
        while pos < sorted.len() && !path_less(&e.path, &sorted[pos].path)
            invariant
                pos <= sorted@.len(),
                sv == entry_views(sorted@),
                forall|k: int| 0 <= k < pos ==> !path_lt(e@.path, #[trigger] sv[k].path),
            decreases sorted@.len() - pos,
        {
            pos = pos + 1;
        }
        let ghost ev = e@;
        sorted.insert(pos, e);
        proof {
            let nv = entry_views(sorted@);
            assert(nv =~= sv.insert(pos as int, ev));
            assert forall|a: int, b: int| 0 <= a < b < nv.len() implies !path_lt(
                nv[b].path,
                nv[a].path,
            ) by {
                if a < pos && b == pos {
                } else if a == pos && b > pos {
                    assert(nv[b] == sv[b - 1]);
                    if path_lt(nv[b].path, ev.path) {
                        assert(path_lt(ev.path, sv[pos as int].path));
                        if b - 1 > pos {
                            lemma_path_lt_transitive(nv[b].path, ev.path, sv[pos as int].path);
                        } else {
                            lemma_path_lt_transitive(nv[b].path, ev.path, nv[b].path);
                            crate::order::lemma_path_lt_irreflexive(nv[b].path);
                        }
                    }
                } else if a < pos && b > pos {
                    assert(nv[b] == sv[b - 1]);
                } else if b < pos {
                } else {
                    assert(nv[b] == sv[b - 1]);
                    assert(nv[a] == sv[a - 1]);
                }
            }
            assert(entries@.take(i + 1) == entries@.take(i as int).push(entries@[i as int]));
            assert(entry_views(entries@.take(i + 1)) == entry_views(entries@.take(i as int)).push(
                ev,
            ));
            assert forall|p: Seq<Seq<char>>| #[trigger] nv.filter(has_path(p)) == entry_views(
                entries@.take(i + 1),
            ).filter(has_path(p)) by {
                lemma_insert_after_equal_paths(sv, pos as int, ev, p);
                entry_views(entries@.take(i as int)).lemma_filter_push(ev, has_path(p));
                assert(sv.filter(has_path(p)) == entry_views(entries@.take(i as int)).filter(
                    has_path(p),
                ));
            }
            vstd::seq_lib::to_multiset_insert(sv, pos as int, ev);
            vstd::seq_lib::to_multiset_build(entry_views(entries@.take(i as int)), ev);
            assert(nv.to_multiset() == entry_views(entries@.take(i + 1)).to_multiset());
        }
        i = i + 1;
    }
    assert(entries@.take(entries@.len() as int) == entries@);
    sorted
}

/// Whether one of the filters is named `category`, and the first such.
pub open spec fn category_filter(filters: Seq<ApiFilter>) -> Option<int> {
    if exists|k: int| 0 <= k < filters.len() && filters[k].name@ == "category"@ {
        Some(
            choose|k: int|
                0 <= k < filters.len() && filters[k].name@ == "category"@ && forall|m: int|
                    0 <= m < k ==> filters[m].name@ != "category"@,
        )
    } else {
        None
    }
}

/// The categories of FINN's search metadata, ordered by path: the tree of
/// the first filter named `category` flattened, or none without one.
/// Entries with equal paths keep the order of the tree.
pub fn categories_from_filters(filters: &Vec<ApiFilter>) -> (r: Vec<CategoryEntry>)
    ensures
        category_filter(filters@) is None ==> r@.len() == 0,
        category_filter(filters@) matches Some(k) ==> {
            &&& sorted_by_path(entry_views(r@))
            &&& same_order_per_path(entry_views(r@), flatten(filters@[k].filter_items@, Seq::empty()))
            &&& entry_views(r@).to_multiset() == flatten(
                filters@[k].filter_items@,
                Seq::empty(),
            ).to_multiset()
        },
{
    let mut k: usize = 0;
    while k < filters.len()
        invariant
            k <= filters@.len(),
            forall|m: int| 0 <= m < k ==> filters@[m].name@ != "category"@,
        decreases filters@.len() - k,
    {
        if str_eq(filters[k].name.as_str(), "category") {
            let mut flat: Vec<CategoryEntry> = Vec::new();
            let mut parent: Vec<String> = Vec::new();
            flatten_category_entries(&filters[k].filter_items, &mut parent, &mut flat);
            assert(views(Seq::<String>::empty()) =~= Seq::<Seq<char>>::empty());
            assert(entry_views(Seq::<CategoryEntry>::empty()) =~= Seq::<CategoryView>::empty());
            proof {
                let w = choose|j: int|
                    0 <= j < filters@.len() && filters@[j].name@ == "category"@ && forall|m: int|
                        0 <= m < j ==> filters@[m].name@ != "category"@;
                assert(0 <= k < filters@.len() && filters@[k as int].name@ == "category"@);
                if w < k {
                } else if w > k {
                }
                assert(w == k);
            }
            return sort_by_path(&flat);
        }
        k = k + 1;
    }
    Vec::new()
}

} // verus!
