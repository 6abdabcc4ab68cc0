//! The general properties of the merge, stated and proved over the same
//! specification functions that the executable functions are verified
//! against.
use vstd::prelude::*;

use crate::merge::{
    all_pages, catalog_id, doc_off, doc_span, ids_max, ids_min, merged_doc, merged_objs,
    next_after, pages_id, patch_all, patch_one, renum_objs_v, shift_ids_v,
};
use crate::names::{k_count, k_kids, k_page, k_pages, k_parent, k_root, k_type};
use crate::object::{
    dict_get_v, dict_set_v, doc_closed, doc_wf, entries_refs_in, has_id, id_set,
    lemma_entries_refs_in, lemma_list_refs_in, lemma_map_get_skip, list_refs_in, map_get_v,
    obj_refs_in, unique_ids, DocV, IdV, ObjV,
};
use crate::pages::{pages_of, walk_kids_v, walk_node_v};
use crate::renumber::{renum_entries_v, renum_obj_v};
use crate::renumber::shift_id;

verus! {

/// The sum of the documents' own page counts.
pub open spec fn page_count_sum(ds: Seq<DocV>) -> int
    decreases ds.len(),
{
    if ds.len() == 0 {
        0
    } else {
        page_count_sum(ds.drop_last()) + pages_of(ds.last())->Some_0.len()
    }
}

/// The merged page list carries every input page: its length is the sum of
/// the inputs' page counts, in input order.
pub proof fn lemma_page_count(ds: Seq<DocV>)
    ensures
        all_pages(ds).len() == page_count_sum(ds),
    decreases ds.len(),
{
    if ds.len() > 0 {
        lemma_page_count(ds.drop_last());
    }
}

/// Merging a single document keeps its page order and object contents: the
/// merged graph is exactly the document's graph shifted by its offset, and
/// the merged page list is its page list shifted the same way.
pub proof fn lemma_merge_single(d: DocV)
    requires
        pages_of(d) is Some,
    ensures
        merged_objs(seq![d]) == renum_objs_v(d.objects, doc_off(seq![d], 0)),
        all_pages(seq![d]) == shift_ids_v(pages_of(d)->Some_0, doc_off(seq![d], 0)),
        all_pages(seq![d]).len() == pages_of(d)->Some_0.len(),
        forall|n: int|
            0 <= n < pages_of(d)->Some_0.len() ==> #[trigger] all_pages(seq![d])[n] == shift_id(
                pages_of(d)->Some_0[n],
                doc_off(seq![d], 0),
            ),
{
    let ds = seq![d];
    assert(ds.drop_last() =~= Seq::<DocV>::empty());
    assert(ds.last() == d);
    assert(merged_objs(Seq::<DocV>::empty()) =~= Seq::<(IdV, ObjV)>::empty());
    assert(all_pages(Seq::<DocV>::empty()) =~= Seq::<IdV>::empty());
    assert(merged_objs(ds) =~= renum_objs_v(d.objects, doc_off(ds, ds.len() - 1)));
    assert(all_pages(ds) =~= shift_ids_v(pages_of(d)->Some_0, doc_off(ds, ds.len() - 1)));
}

/// Every binding's number lies between the graph's smallest and largest.
pub proof fn lemma_ids_minmax(objs: Seq<(IdV, ObjV)>)
    ensures
        forall|j: int|
            0 <= j < objs.len() ==> ids_min(objs) <= (#[trigger] objs[j]).0.num <= ids_max(objs),
        objs.len() > 0 ==> ids_min(objs) <= ids_max(objs),
    decreases objs.len(),
{
    if objs.len() > 1 {
        lemma_ids_minmax(objs.drop_last());
        assert forall|j: int| 0 <= j < objs.len() implies ids_min(objs) <= (#[trigger] objs[j]).0.num
            <= ids_max(objs) by {
            if j < objs.len() - 1 {
                assert(objs.drop_last()[j] == objs[j]);
            }
        }
    } else if objs.len() == 1 {
        assert(objs.drop_last() =~= Seq::<(IdV, ObjV)>::empty());
    }
}

/// Identifiers in the merged union are pairwise distinct, and their numbers
/// fill the space below the running counter: each document's block is
/// disjoint from every earlier one.
pub proof fn lemma_merged_objs_unique(ds: Seq<DocV>)
    requires
        forall|k: int| 0 <= k < ds.len() ==> doc_wf(#[trigger] ds[k]),
    ensures
        unique_ids(merged_objs(ds)),
        forall|j: int|
            0 <= j < merged_objs(ds).len() ==> 1 <= (#[trigger] merged_objs(ds)[j]).0.num
                < next_after(ds),
        merged_objs(ds).len() >= 0,
        next_after(ds) >= 1,
    decreases ds.len(),
{
    if ds.len() == 0 {
        assert(merged_objs(ds).len() == 0);
    } else {
        let front = ds.drop_last();
        let d = ds.last();
        assert(forall|k: int| 0 <= k < front.len() ==> doc_wf(#[trigger] front[k])) by {
            assert(forall|k: int| 0 <= k < front.len() ==> front[k] == ds[k]);
        }
        lemma_merged_objs_unique(front);
        lemma_ids_minmax(d.objects);
        let off = doc_off(ds, ds.len() - 1);
        let block = renum_objs_v(d.objects, off);
        assert(ds.take(ds.len() - 1) =~= front);
        assert(doc_wf(d));
        if d.objects.len() > 0 {
            assert(ids_min(d.objects) >= 1) by {
                let j0 = 0int;
                assert(1 <= d.objects[j0].0.num);
                assert(exists|j: int| 0 <= j < d.objects.len() && ids_min(d.objects) == (
                #[trigger] d.objects[j]).0.num) by {
                    lemma_ids_min_witness(d.objects);
                }
            }
        }
        assert forall|j: int| 0 <= j < block.len() implies next_after(front) <= (
        #[trigger] block[j]).0.num < next_after(ds) by {
            assert(block[j].0 == shift_id(d.objects[j].0, off));
            assert(ids_min(d.objects) <= d.objects[j].0.num <= ids_max(d.objects));
        }
        assert(unique_ids(block)) by {
            assert forall|a: int, b: int| 0 <= a < b < block.len() implies (
            #[trigger] block[a]).0 != (#[trigger] block[b]).0 by {
                assert(d.objects[a].0 != d.objects[b].0);
                assert(block[a].0 == shift_id(d.objects[a].0, off));
                assert(block[b].0 == shift_id(d.objects[b].0, off));
                if d.objects[a].0.num == d.objects[b].0.num {
                    assert(d.objects[a].0.gen != d.objects[b].0.gen);
                }
            }
        }
        let m = merged_objs(ds);
        assert(m == merged_objs(front) + block);
        assert forall|a: int, b: int| 0 <= a < b < m.len() implies (#[trigger] m[a]).0 != (
        #[trigger] m[b]).0 by {
            let fl = merged_objs(front).len() as int;
            if a < fl && b < fl {
                assert(m[a] == merged_objs(front)[a]);
                assert(m[b] == merged_objs(front)[b]);
            } else if a < fl && b >= fl {
                assert(m[a] == merged_objs(front)[a]);
                assert(m[b] == block[b - fl]);
                assert(m[a].0.num < next_after(front));
                assert(m[b].0.num >= next_after(front));
            } else {
                assert(m[a] == block[a - fl]);
                assert(m[b] == block[b - fl]);
            }
        }
        assert forall|j: int| 0 <= j < m.len() implies 1 <= (#[trigger] m[j]).0.num < next_after(
            ds,
        ) by {
            let fl = merged_objs(front).len() as int;
            if j < fl {
                assert(m[j] == merged_objs(front)[j]);
                assert(next_after(front) <= next_after(ds)) by {
                    assert(doc_span(d) >= 0);
                }
            } else {
                assert(m[j] == block[j - fl]);
            }
        }
    }
}

/// Some binding carries the smallest number.
pub proof fn lemma_ids_min_witness(objs: Seq<(IdV, ObjV)>)
    requires
        objs.len() > 0,
    ensures
        exists|j: int|
            0 <= j < objs.len() && ids_min(objs) == (#[trigger] objs[j]).0.num,
    decreases objs.len(),
{
    if objs.len() == 1 {
        assert(ids_min(objs) == objs[0].0.num);
    } else {
        lemma_ids_min_witness(objs.drop_last());
        if objs.last().0.num < ids_min(objs.drop_last()) {
            let w = objs.len() - 1;
            assert(ids_min(objs) == (objs[w]).0.num);
        } else {
            let j = choose|j: int|
                0 <= j < objs.drop_last().len() && ids_min(objs.drop_last()) == (
                #[trigger] objs.drop_last()[j]).0.num;
            assert(objs.drop_last()[j] == objs[j]);
            assert(ids_min(objs) == (objs[j]).0.num);
        }
    }
}

/// Re-parenting pages changes no identifier.
pub proof fn lemma_patch_ids(objs: Seq<(IdV, ObjV)>, pages: Seq<IdV>, parent: IdV)
    ensures
        patch_all(objs, pages, parent).len() == objs.len(),
        forall|j: int|
            0 <= j < objs.len() ==> (#[trigger] patch_all(objs, pages, parent)[j]).0 == objs[j].0,
    decreases pages.len(),
{
    if pages.len() > 0 {
        lemma_patch_ids(objs, pages.drop_last(), parent);
    }
}

/// Object identifiers in the merged output are pairwise distinct, across
/// what were originally independent identifier spaces and including the two
/// fresh nodes.
pub proof fn lemma_merged_doc_unique(ds: Seq<DocV>)
    requires
        forall|k: int| 0 <= k < ds.len() ==> doc_wf(#[trigger] ds[k]),
    ensures
        unique_ids(merged_doc(ds).objects),
{
    lemma_merged_objs_unique(ds);
    lemma_patch_ids(merged_objs(ds), all_pages(ds), pages_id(ds));
    let body = patch_all(merged_objs(ds), all_pages(ds), pages_id(ds));
    let m = merged_doc(ds).objects;
    assert forall|a: int, b: int| 0 <= a < b < m.len() implies (#[trigger] m[a]).0 != (
    #[trigger] m[b]).0 by {
        let bl = body.len() as int;
        if a < bl && b < bl {
            assert(m[a] == body[a]);
            assert(m[b] == body[b]);
            assert(body[a].0 == merged_objs(ds)[a].0);
            assert(body[b].0 == merged_objs(ds)[b].0);
        } else if a < bl {
            assert(m[a] == body[a]);
            assert(body[a].0 == merged_objs(ds)[a].0);
            assert(m[a].0.num < next_after(ds));
            assert(m[b].0.num >= next_after(ds));
        } else {
            assert(m[a].0 == pages_id(ds));
            assert(m[b].0 == catalog_id(ds));
        }
    }
}


/// Renumbering keeps every reference resolvable: a reference into `s`
/// becomes, after the shift, a reference into any set `t` that contains the
/// shifted identifiers.
pub proof fn lemma_renum_refs_obj(o: ObjV, s: Set<IdV>, t: Set<IdV>, off: int)
    requires
        obj_refs_in(o, s),
        forall|id: IdV| s.contains(id) ==> t.contains(#[trigger] shift_id(id, off)),
    ensures
        obj_refs_in(crate::renumber::renum_obj_v(o, off), t),
    decreases o,
{
    match o {
        ObjV::Array(items) => {
            lemma_renum_refs_list(items, s, t, off);
        },
        ObjV::Dict(es) => {
            lemma_renum_refs_entries(es, s, t, off);
        },
        ObjV::Stream(es, _c) => {
            lemma_renum_refs_entries(es, s, t, off);
        },
        _ => {},
    }
}

/// The list form of `lemma_renum_refs_obj`.
pub proof fn lemma_renum_refs_list(items: Seq<ObjV>, s: Set<IdV>, t: Set<IdV>, off: int)
    requires
        list_refs_in(items, s),
        forall|id: IdV| s.contains(id) ==> t.contains(#[trigger] shift_id(id, off)),
    ensures
        list_refs_in(crate::renumber::renum_list_v(items, off), t),
    decreases items,
{
    if items.len() > 0 {
        lemma_renum_refs_obj(items[0], s, t, off);
        lemma_renum_refs_list(items.drop_first(), s, t, off);
        crate::renumber::lemma_renum_list_len(items, off);
        assert(crate::renumber::renum_list_v(items, off)[0] == crate::renumber::renum_obj_v(
            items[0],
            off,
        )) by {
            crate::renumber::lemma_renum_list_index(items, off, 0);
        }
        assert(crate::renumber::renum_list_v(items, off).drop_first()
            =~= crate::renumber::renum_list_v(items.drop_first(), off)) by {
            crate::renumber::lemma_renum_list_len(items.drop_first(), off);
            assert forall|j: int|
                0 <= j < crate::renumber::renum_list_v(items.drop_first(), off).len() implies
                crate::renumber::renum_list_v(items, off).drop_first()[j]
                == crate::renumber::renum_list_v(items.drop_first(), off)[j] by {
                crate::renumber::lemma_renum_list_index(items, off, j + 1);
                crate::renumber::lemma_renum_list_index(items.drop_first(), off, j);
            }
        }
    }
}

/// The entries form of `lemma_renum_refs_obj`.
pub proof fn lemma_renum_refs_entries(es: Seq<(Seq<u8>, ObjV)>, s: Set<IdV>, t: Set<IdV>, off: int)
    requires
        entries_refs_in(es, s),
        forall|id: IdV| s.contains(id) ==> t.contains(#[trigger] shift_id(id, off)),
    ensures
        entries_refs_in(crate::renumber::renum_entries_v(es, off), t),
    decreases es,
{
    if es.len() > 0 {
        lemma_renum_refs_obj(es[0].1, s, t, off);
        lemma_renum_refs_entries(es.drop_first(), s, t, off);
        crate::renumber::lemma_renum_entries_len(es, off);
        assert(crate::renumber::renum_entries_v(es, off)[0].1 == crate::renumber::renum_obj_v(
            es[0].1,
            off,
        )) by {
            crate::renumber::lemma_renum_entries_index(es, off, 0);
        }
        assert(crate::renumber::renum_entries_v(es, off).drop_first()
            =~= crate::renumber::renum_entries_v(es.drop_first(), off)) by {
            crate::renumber::lemma_renum_entries_len(es.drop_first(), off);
            assert forall|j: int|
                0 <= j < crate::renumber::renum_entries_v(es.drop_first(), off).len() implies
                crate::renumber::renum_entries_v(es, off).drop_first()[j]
                == crate::renumber::renum_entries_v(es.drop_first(), off)[j] by {
                crate::renumber::lemma_renum_entries_index(es, off, j + 1);
                crate::renumber::lemma_renum_entries_index(es.drop_first(), off, j);
            }
        }
    }
}


/// Every reference in the merged union resolves in any set that holds all
/// of the union's identifiers.
pub proof fn lemma_merged_objs_closed(ds: Seq<DocV>, t: Set<IdV>)
    requires
        forall|k: int| 0 <= k < ds.len() ==> doc_closed(#[trigger] ds[k]),
        forall|id: IdV| has_id(merged_objs(ds), id) ==> t.contains(id),
    ensures
        forall|j: int|
            0 <= j < merged_objs(ds).len() ==> obj_refs_in((#[trigger] merged_objs(ds)[j]).1, t),
    decreases ds.len(),
{
    if ds.len() > 0 {
        let front = ds.drop_last();
        let d = ds.last();
        let off = doc_off(ds, ds.len() - 1);
        let block = renum_objs_v(d.objects, off);
        let m = merged_objs(ds);
        let fl = merged_objs(front).len() as int;
        assert(m == merged_objs(front) + block);
        assert(forall|k: int| 0 <= k < front.len() ==> doc_closed(#[trigger] front[k])) by {
            assert(forall|k: int| 0 <= k < front.len() ==> front[k] == ds[k]);
        }
        assert forall|id: IdV| has_id(merged_objs(front), id) implies t.contains(id) by {
            let j = choose|j: int|
                0 <= j < merged_objs(front).len() && merged_objs(front)[j].0 == id;
            assert(m[j] == merged_objs(front)[j]);
            assert(has_id(m, id));
        }
        lemma_merged_objs_closed(front, t);
        assert forall|id: IdV| id_set(d.objects).contains(id) implies t.contains(
            #[trigger] shift_id(id, off),
        ) by {
            let i = choose|i: int| 0 <= i < d.objects.len() && d.objects[i].0 == id;
            assert(block[i].0 == shift_id(id, off));
            assert(m[fl + i] == block[i]);
            assert(has_id(m, shift_id(id, off)));
        }
        assert forall|j: int| 0 <= j < m.len() implies obj_refs_in((#[trigger] m[j]).1, t) by {
            if j < fl {
                assert(m[j] == merged_objs(front)[j]);
            } else {
                assert(m[j] == block[j - fl]);
                assert(block[j - fl].1 == crate::renumber::renum_obj_v(d.objects[j - fl].1, off));
                assert(obj_refs_in(d.objects[j - fl].1, id_set(d.objects)));
                lemma_renum_refs_obj(d.objects[j - fl].1, id_set(d.objects), t, off);
            }
        }
    }
}

/// Setting one entry keeps the others' references resolvable, and adds only
/// the new value's.
pub proof fn lemma_dict_set_refs(
    es: Seq<(Seq<u8>, ObjV)>,
    key: Seq<u8>,
    val: ObjV,
    t: Set<IdV>,
)
    requires
        entries_refs_in(es, t),
        obj_refs_in(val, t),
    ensures
        entries_refs_in(crate::object::dict_set_v(es, key, val), t),
    decreases es.len(),
{
    let out = crate::object::dict_set_v(es, key, val);
    assert(entries_refs_in(Seq::<(Seq<u8>, ObjV)>::empty(), t));
    if es.len() == 0 {
        assert(out =~= seq![(key, val)]);
        assert(out.drop_first() =~= Seq::<(Seq<u8>, ObjV)>::empty());
        assert(out[0].1 == val);
        assert(entries_refs_in(out.drop_first(), t));
        assert(entries_refs_in(out, t));
    } else if es[0].0 == key {
        assert(out == seq![(key, val)] + es.drop_first());
        assert(out[0].1 == val);
        assert(out.drop_first() =~= es.drop_first());
        assert(entries_refs_in(es.drop_first(), t));
        assert(entries_refs_in(out, t));
    } else {
        lemma_dict_set_refs(es.drop_first(), key, val, t);
        assert(out == seq![es[0]] + crate::object::dict_set_v(es.drop_first(), key, val));
        assert(out[0].1 == es[0].1);
        assert(obj_refs_in(out[0].1, t));
        assert(out.drop_first() =~= crate::object::dict_set_v(es.drop_first(), key, val));
        assert(entries_refs_in(out.drop_first(), t));
        assert(entries_refs_in(out, t));
    }
}

/// Re-parenting keeps every reference resolvable once the new parent is.
pub proof fn lemma_patch_one_refs(objs: Seq<(IdV, ObjV)>, pid: IdV, parent: IdV, t: Set<IdV>)
    requires
        forall|j: int| 0 <= j < objs.len() ==> obj_refs_in((#[trigger] objs[j]).1, t),
        t.contains(parent),
    ensures
        forall|j: int|
            0 <= j < objs.len() ==> obj_refs_in((#[trigger] patch_one(objs, pid, parent)[j]).1, t),
{
    assert forall|j: int| 0 <= j < objs.len() implies obj_refs_in(
        (#[trigger] patch_one(objs, pid, parent)[j]).1,
        t,
    ) by {
        if objs[j].0 == pid && objs[j].1 is Dict {
            let es = objs[j].1->Dict_0;
            assert(obj_refs_in(objs[j].1, t));
            assert(entries_refs_in(es, t));
            assert(obj_refs_in(ObjV::Ref(parent), t));
            lemma_dict_set_refs(es, crate::names::k_parent(), ObjV::Ref(parent), t);
        }
    }
}

/// Re-parenting every page keeps every reference resolvable.
pub proof fn lemma_patch_all_refs(objs: Seq<(IdV, ObjV)>, pages: Seq<IdV>, parent: IdV, t: Set<IdV>)
    requires
        forall|j: int| 0 <= j < objs.len() ==> obj_refs_in((#[trigger] objs[j]).1, t),
        t.contains(parent),
    ensures
        forall|j: int|
            0 <= j < objs.len() ==> obj_refs_in(
                (#[trigger] patch_all(objs, pages, parent)[j]).1,
                t,
            ),
        patch_all(objs, pages, parent).len() == objs.len(),
    decreases pages.len(),
{
    lemma_patch_ids(objs, pages, parent);
    if pages.len() > 0 {
        lemma_patch_all_refs(objs, pages.drop_last(), parent, t);
        lemma_patch_ids(objs, pages.drop_last(), parent);
        lemma_patch_one_refs(patch_all(objs, pages.drop_last(), parent), pages.last(), parent, t);
    }
}

/// Every merged page identifier is bound in the merged union.
pub proof fn lemma_all_pages_bound(ds: Seq<DocV>)
    requires
        forall|k: int| 0 <= k < ds.len() ==> pages_of(#[trigger] ds[k]) is Some,
    ensures
        forall|n: int|
            0 <= n < all_pages(ds).len() ==> has_id(merged_objs(ds), #[trigger] all_pages(ds)[n]),
    decreases ds.len(),
{
    if ds.len() > 0 {
        let front = ds.drop_last();
        let d = ds.last();
        let off = doc_off(ds, ds.len() - 1);
        let block = renum_objs_v(d.objects, off);
        let m = merged_objs(ds);
        let fl = merged_objs(front).len() as int;
        assert(m == merged_objs(front) + block);
        assert(forall|k: int| 0 <= k < front.len() ==> pages_of(#[trigger] front[k]) is Some) by {
            assert(forall|k: int| 0 <= k < front.len() ==> front[k] == ds[k]);
        }
        lemma_all_pages_bound(front);
        crate::pages::lemma_pages_of_ids(d);
        let shifted = shift_ids_v(pages_of(d)->Some_0, off);
        assert(all_pages(ds) == all_pages(front) + shifted);
        assert forall|n: int| 0 <= n < all_pages(ds).len() implies has_id(
            m,
            #[trigger] all_pages(ds)[n],
        ) by {
            let al = all_pages(front).len() as int;
            if n < al {
                assert(all_pages(ds)[n] == all_pages(front)[n]);
                let j = choose|j: int|
                    0 <= j < merged_objs(front).len() && merged_objs(front)[j].0 == all_pages(
                        front,
                    )[n];
                assert(m[j] == merged_objs(front)[j]);
            } else {
                assert(all_pages(ds)[n] == shifted[n - al]);
                let p = pages_of(d)->Some_0[n - al];
                assert(has_id(d.objects, p));
                let i = choose|i: int| 0 <= i < d.objects.len() && d.objects[i].0 == p;
                assert(block[i].0 == shift_id(p, off));
                assert(m[fl + i] == block[i]);
            }
        }
    }
}

/// No reference in the merged output dangles: every reference in every
/// object and in the trailer resolves to a bound identifier.
pub proof fn lemma_merged_no_dangling(ds: Seq<DocV>)
    requires
        forall|k: int| 0 <= k < ds.len() ==> doc_closed(#[trigger] ds[k]),
        forall|k: int| 0 <= k < ds.len() ==> pages_of(#[trigger] ds[k]) is Some,
    ensures
        doc_closed(merged_doc(ds)),
{
    let md = merged_doc(ds);
    let t = id_set(md.objects);
    let body = patch_all(merged_objs(ds), all_pages(ds), pages_id(ds));
    lemma_patch_ids(merged_objs(ds), all_pages(ds), pages_id(ds));
    let bl = body.len() as int;
    assert(md.objects[bl].0 == pages_id(ds));
    assert(md.objects[bl + 1].0 == catalog_id(ds));
    assert(t.contains(pages_id(ds)));
    assert(t.contains(catalog_id(ds)));
    assert forall|id: IdV| has_id(merged_objs(ds), id) implies t.contains(id) by {
        let j = choose|j: int|
            0 <= j < merged_objs(ds).len() && merged_objs(ds)[j].0 == id;
        assert(body[j].0 == merged_objs(ds)[j].0);
        assert(md.objects[j] == body[j]);
        assert(has_id(md.objects, id));
    }
    lemma_merged_objs_closed(ds, t);
    lemma_patch_all_refs(merged_objs(ds), all_pages(ds), pages_id(ds), t);
    lemma_all_pages_bound(ds);
    assert forall|n: int| 0 <= n < all_pages(ds).len() implies t.contains(
        #[trigger] all_pages(ds)[n],
    ) by {
        assert(has_id(merged_objs(ds), all_pages(ds)[n]));
    }
    let ap = all_pages(ds);
    let kids = crate::merge::refs_of_ids(ap);
    assert(list_refs_in(kids, t)) by {
        lemma_list_refs_in(kids, t);
        assert forall|n: int| 0 <= n < kids.len() implies obj_refs_in(#[trigger] kids[n], t) by {
            assert(kids[n] == ObjV::Ref(ap[n]));
        }
    }
    let pdv = crate::merge::pages_dict_v(ds);
    assert(obj_refs_in(ObjV::Dict(pdv), t)) by {
        lemma_entries_refs_in(pdv, t);
        assert forall|n: int| 0 <= n < pdv.len() implies obj_refs_in((#[trigger] pdv[n]).1, t) by {
            if n == 2 {
                assert(pdv[n].1 == ObjV::Array(kids));
            } else if n == 0 {
                assert(pdv[n].1 == ObjV::Name(crate::names::k_pages()));
            } else {
                assert(pdv[n].1 == ObjV::Integer(all_pages(ds).len() as i64));
            }
        }
    }
    let cdv = crate::merge::catalog_dict_v(ds);
    assert(obj_refs_in(ObjV::Dict(cdv), t)) by {
        lemma_entries_refs_in(cdv, t);
        assert forall|n: int| 0 <= n < cdv.len() implies obj_refs_in((#[trigger] cdv[n]).1, t) by {
            if n == 0 {
                assert(cdv[n].1 == ObjV::Name(crate::names::k_catalog()));
            } else {
                assert(cdv[n].1 == ObjV::Ref(pages_id(ds)));
            }
        }
    }
    assert forall|i: int| 0 <= i < md.objects.len() implies obj_refs_in(
        (#[trigger] md.objects[i]).1,
        id_set(md.objects),
    ) by {
        if i < bl {
            assert(md.objects[i] == body[i]);
        } else if i == bl {
            assert(md.objects[i].1 == ObjV::Dict(pdv));
        } else {
            assert(md.objects[i].1 == ObjV::Dict(cdv));
        }
    }
    assert forall|i: int| 0 <= i < md.trailer.len() implies obj_refs_in(
        (#[trigger] md.trailer[i]).1,
        id_set(md.objects),
    ) by {
        assert(md.trailer[i].1 == ObjV::Ref(catalog_id(ds)));
    }
}


/// The merged document's root page tree lists every input page, in input
/// order: its `Kids` are references to the merged page list, whose length
/// is the sum of the input page counts, and its `Count` says so.
pub proof fn lemma_merged_page_tree(ds: Seq<DocV>)
    requires
        all_pages(ds).len() <= i64::MAX as int,
    ensures
        crate::object::dict_get_v(crate::merge::pages_dict_v(ds), crate::names::k_count())
            == Some(ObjV::Integer(page_count_sum(ds) as i64)),
        crate::object::dict_get_v(crate::merge::pages_dict_v(ds), crate::names::k_kids())
            == Some(ObjV::Array(crate::merge::refs_of_ids(all_pages(ds)))),
        crate::object::dict_get_v(merged_doc(ds).trailer, crate::names::k_root()) == Some(
            ObjV::Ref(catalog_id(ds)),
        ),
        crate::object::dict_get_v(crate::merge::catalog_dict_v(ds), crate::names::k_pages())
            == Some(ObjV::Ref(pages_id(ds))),
{
    reveal_with_fuel(crate::object::dict_get_v, 5);
    lemma_page_count(ds);
    let pdv = crate::merge::pages_dict_v(ds);
    assert(crate::names::k_type() != crate::names::k_count());
    assert(crate::names::k_type() != crate::names::k_kids()) by {
        assert(crate::names::k_type()[0] == 'T' as u8);
        assert(crate::names::k_kids()[0] == 'K' as u8);
    }
    assert(crate::names::k_count() != crate::names::k_kids());
    assert(crate::names::k_type() != crate::names::k_pages());
    assert(pdv.drop_first() =~= seq![
        (crate::names::k_count(), ObjV::Integer(all_pages(ds).len() as i64)),
        (crate::names::k_kids(), ObjV::Array(crate::merge::refs_of_ids(all_pages(ds)))),
    ]);
    assert(pdv.drop_first().drop_first() =~= seq![
        (crate::names::k_kids(), ObjV::Array(crate::merge::refs_of_ids(all_pages(ds)))),
    ]);
    let cdv = crate::merge::catalog_dict_v(ds);
    assert(cdv.drop_first() =~= seq![(crate::names::k_pages(), ObjV::Ref(pages_id(ds)))]);
    let tr = merged_doc(ds).trailer;
    assert(tr[0] == (crate::names::k_root(), ObjV::Ref(catalog_id(ds))));
}


/// Setting one name leaves every other name's lookup alone.
pub proof fn lemma_dict_get_set_other(es: Seq<(Seq<u8>, ObjV)>, k1: Seq<u8>, v: ObjV, k2: Seq<u8>)
    requires
        k1 != k2,
    ensures
        dict_get_v(dict_set_v(es, k1, v), k2) == dict_get_v(es, k2),
    decreases es.len(),
{
    let out = dict_set_v(es, k1, v);
    if es.len() == 0 {
        assert(out =~= seq![(k1, v)]);
        assert(out[0].0 == k1);
        assert(out.drop_first() =~= Seq::<(Seq<u8>, ObjV)>::empty());
        assert(dict_get_v(out, k2) == dict_get_v(out.drop_first(), k2));
        assert(dict_get_v(out.drop_first(), k2) is None);
    } else if es[0].0 == k1 {
        assert(out == seq![(k1, v)] + es.drop_first());
        assert(out[0].0 == k1);
        assert(out.drop_first() =~= es.drop_first());
        assert(dict_get_v(out, k2) == dict_get_v(es.drop_first(), k2));
        assert(dict_get_v(es, k2) == dict_get_v(es.drop_first(), k2));
    } else {
        lemma_dict_get_set_other(es.drop_first(), k1, v, k2);
        assert(out == seq![es[0]] + dict_set_v(es.drop_first(), k1, v));
        assert(out.drop_first() =~= dict_set_v(es.drop_first(), k1, v));
        assert(out[0] == es[0]);
        if es[0].0 == k2 {
            assert(dict_get_v(out, k2) == Some(out[0].1));
            assert(dict_get_v(es, k2) == Some(es[0].1));
        } else {
            assert(dict_get_v(out, k2) == dict_get_v(out.drop_first(), k2));
            assert(dict_get_v(es, k2) == dict_get_v(es.drop_first(), k2));
        }
    }
}

/// Renumbering shifts a looked-up value but never a name.
pub proof fn lemma_renum_dict_get(es: Seq<(Seq<u8>, ObjV)>, off: int, key: Seq<u8>)
    ensures
        dict_get_v(renum_entries_v(es, off), key) == match dict_get_v(es, key) {
            Some(v) => Some(renum_obj_v(v, off)),
            None => None,
        },
    decreases es.len(),
{
    if es.len() > 0 {
        lemma_renum_dict_get(es.drop_first(), off, key);
        let out = renum_entries_v(es, off);
        assert(out == seq![(es[0].0, renum_obj_v(es[0].1, off))] + renum_entries_v(
            es.drop_first(),
            off,
        ));
        assert(out.drop_first() =~= renum_entries_v(es.drop_first(), off));
        assert(out[0] == (es[0].0, renum_obj_v(es[0].1, off)));
    }
}

/// Whether the graph binds `id` to a dictionary whose `Type` is `Page`.
pub open spec fn is_page_dict(objs: Seq<(IdV, ObjV)>, id: IdV) -> bool {
    match map_get_v(objs, id) {
        Some(ObjV::Dict(es)) => dict_get_v(es, k_type()) == Some(ObjV::Name(k_page())),
        _ => false,
    }
}

/// Every page the walk returns is bound to a `Page` dictionary.
pub proof fn lemma_walk_node_page_dicts(objs: Seq<(IdV, ObjV)>, id: IdV, fuel: nat)
    requires
        walk_node_v(objs, id, fuel) is Some,
    ensures
        forall|i: int|
            0 <= i < walk_node_v(objs, id, fuel)->Some_0.len() ==> is_page_dict(
                objs,
                #[trigger] walk_node_v(objs, id, fuel)->Some_0[i],
            ),
    decreases fuel, 0int,
{
    let es = map_get_v(objs, id)->Some_0->Dict_0;
    let t = dict_get_v(es, k_type())->Some_0->Name_0;
    if t == k_page() {
        assert(is_page_dict(objs, id));
    } else {
        let kids = dict_get_v(es, k_kids())->Some_0->Array_0;
        lemma_walk_kids_page_dicts(objs, kids, (fuel - 1) as nat);
    }
}

/// Every page below any kid is bound to a `Page` dictionary.
pub proof fn lemma_walk_kids_page_dicts(objs: Seq<(IdV, ObjV)>, kids: Seq<ObjV>, fuel: nat)
    requires
        walk_kids_v(objs, kids, fuel) is Some,
    ensures
        forall|i: int|
            0 <= i < walk_kids_v(objs, kids, fuel)->Some_0.len() ==> is_page_dict(
                objs,
                #[trigger] walk_kids_v(objs, kids, fuel)->Some_0[i],
            ),
    decreases fuel, kids.len(),
{
    if kids.len() > 0 {
        lemma_walk_kids_page_dicts(objs, kids.drop_last(), fuel);
        let kid = kids.last()->Ref_0;
        lemma_walk_node_page_dicts(objs, kid, fuel);
        let front = walk_kids_v(objs, kids.drop_last(), fuel)->Some_0;
        let sub = walk_node_v(objs, kid, fuel)->Some_0;
        assert forall|i: int| 0 <= i < walk_kids_v(objs, kids, fuel)->Some_0.len() implies
            is_page_dict(objs, #[trigger] walk_kids_v(objs, kids, fuel)->Some_0[i]) by {
            if i < front.len() {
                assert((front + sub)[i] == front[i]);
            } else {
                assert((front + sub)[i] == sub[i - front.len()]);
            }
        }
    }
}

/// Every page of a resolvable document is bound to a `Page` dictionary.
pub proof fn lemma_pages_of_page_dicts(d: DocV)
    requires
        pages_of(d) is Some,
    ensures
        forall|i: int|
            0 <= i < pages_of(d)->Some_0.len() ==> is_page_dict(
                d.objects,
                #[trigger] pages_of(d)->Some_0[i],
            ),
{
    let rid = dict_get_v(d.trailer, k_root())->Some_0->Ref_0;
    let ces = map_get_v(d.objects, rid)->Some_0->Dict_0;
    let pid = dict_get_v(ces, k_pages())->Some_0->Ref_0;
    lemma_walk_node_page_dicts(d.objects, pid, d.objects.len());
}

/// With unique identifiers, the lookup of a binding's identifier returns
/// that binding's value.
pub proof fn lemma_map_get_at(objs: Seq<(IdV, ObjV)>, j: int)
    requires
        unique_ids(objs),
        0 <= j < objs.len(),
    ensures
        map_get_v(objs, objs[j].0) == Some(objs[j].1),
{
    lemma_map_get_skip(objs, objs[j].0, j);
    assert(objs.skip(j)[0] == objs[j]);
}


/// Re-parenting changes no identifier and no dictionary entry other than
/// `Parent`; non-dictionaries are left alone.
pub proof fn lemma_patch_all_type(objs: Seq<(IdV, ObjV)>, pages: Seq<IdV>, parent: IdV, key: Seq<u8>)
    requires
        key != k_parent(),
    ensures
        patch_all(objs, pages, parent).len() == objs.len(),
        forall|j: int|
            0 <= j < objs.len() && (#[trigger] objs[j]).1 is Dict ==> patch_all(
                objs,
                pages,
                parent,
            )[j].1 is Dict && dict_get_v(patch_all(objs, pages, parent)[j].1->Dict_0, key)
                == dict_get_v(objs[j].1->Dict_0, key),
        forall|j: int|
            0 <= j < objs.len() && !((#[trigger] objs[j]).1 is Dict) ==> patch_all(
                objs,
                pages,
                parent,
            )[j] == objs[j],
    decreases pages.len(),
{
    if pages.len() > 0 {
        lemma_patch_all_type(objs, pages.drop_last(), parent, key);
        let mid = patch_all(objs, pages.drop_last(), parent);
        let out = patch_all(objs, pages, parent);
        assert(out == patch_one(mid, pages.last(), parent));
        assert forall|j: int| 0 <= j < objs.len() && (#[trigger] objs[j]).1 is Dict implies
            out[j].1 is Dict && dict_get_v(out[j].1->Dict_0, key) == dict_get_v(
            objs[j].1->Dict_0,
            key,
        ) by {
            if mid[j].0 == pages.last() && mid[j].1 is Dict {
                lemma_dict_get_set_other(mid[j].1->Dict_0, k_parent(), ObjV::Ref(parent), key);
            }
        }
        assert forall|j: int| 0 <= j < objs.len() && !((#[trigger] objs[j]).1 is Dict) implies
            out[j] == objs[j] by {
            assert(mid[j] == objs[j]);
        }
    }
}

/// Whether some binding carries `id` with a dictionary whose `Type` is
/// `Page`.
pub open spec fn has_page_entry(objs: Seq<(IdV, ObjV)>, id: IdV) -> bool {
    exists|j: int|
        0 <= j < objs.len() && (#[trigger] objs[j]).0 == id && objs[j].1 is Dict && dict_get_v(
            objs[j].1->Dict_0,
            k_type(),
        ) == Some(ObjV::Name(k_page()))
}

/// Every merged page identifier is bound in the union to a dictionary whose
/// `Type` is `Page`.
pub proof fn lemma_all_pages_entries(ds: Seq<DocV>)
    requires
        forall|k: int| 0 <= k < ds.len() ==> doc_wf(#[trigger] ds[k]),
        forall|k: int| 0 <= k < ds.len() ==> pages_of(#[trigger] ds[k]) is Some,
    ensures
        forall|n: int|
            0 <= n < all_pages(ds).len() ==> has_page_entry(
                merged_objs(ds),
                #[trigger] all_pages(ds)[n],
            ),
    decreases ds.len(),
{
    if ds.len() == 0 {
        assert(all_pages(ds) =~= Seq::<IdV>::empty());
    } else {
        let front = ds.drop_last();
        let d = ds.last();
        let off = doc_off(ds, ds.len() - 1);
        let block = renum_objs_v(d.objects, off);
        let m = merged_objs(ds);
        let fl = merged_objs(front).len() as int;
        assert(m == merged_objs(front) + block);
        assert(forall|k: int| 0 <= k < front.len() ==> doc_wf(#[trigger] front[k])
            && pages_of(front[k]) is Some) by {
            assert(forall|k: int| 0 <= k < front.len() ==> front[k] == ds[k]);
        }
        lemma_all_pages_entries(front);
        lemma_pages_of_page_dicts(d);
        crate::pages::lemma_pages_of_ids(d);
        let shifted = shift_ids_v(pages_of(d)->Some_0, off);
        assert(all_pages(ds) == all_pages(front) + shifted);
        assert forall|n: int| 0 <= n < all_pages(ds).len() implies has_page_entry(
            merged_objs(ds),
            #[trigger] all_pages(ds)[n],
        ) by {
            let al = all_pages(front).len() as int;
            if n < al {
                assert(all_pages(ds)[n] == all_pages(front)[n]);
                assert(has_page_entry(merged_objs(front), all_pages(front)[n]));
                let j = choose|j: int|
                    0 <= j < merged_objs(front).len() && (#[trigger] merged_objs(front)[j]).0
                        == all_pages(front)[n] && merged_objs(front)[j].1 is Dict && dict_get_v(
                        merged_objs(front)[j].1->Dict_0,
                        k_type(),
                    ) == Some(ObjV::Name(k_page()));
                assert(m[j] == merged_objs(front)[j]);
                assert(0 <= j < m.len() && m[j].0 == all_pages(ds)[n] && m[j].1 is Dict
                    && dict_get_v(m[j].1->Dict_0, k_type()) == Some(ObjV::Name(k_page())));
                assert(has_page_entry(m, all_pages(ds)[n]));
            } else {
                let p = pages_of(d)->Some_0[n - al];
                assert(all_pages(ds)[n] == shift_id(p, off));
                assert(is_page_dict(d.objects, p));
                assert(has_id(d.objects, p));
                let j = choose|j: int| 0 <= j < d.objects.len() && (#[trigger] d.objects[j]).0 == p;
                assert(doc_wf(d));
                lemma_map_get_at(d.objects, j);
                let es = d.objects[j].1->Dict_0;
                assert(d.objects[j].1 is Dict);
                assert(dict_get_v(es, k_type()) == Some(ObjV::Name(k_page())));
                assert(block[j] == (shift_id(p, off), renum_obj_v(d.objects[j].1, off)));
                assert(renum_obj_v(d.objects[j].1, off) == ObjV::Dict(renum_entries_v(es, off)));
                lemma_renum_dict_get(es, off, k_type());
                assert(renum_obj_v(ObjV::Name(k_page()), off) == ObjV::Name(k_page()));
                assert(m[fl + j] == block[j]);
                assert(0 <= fl + j < m.len() && m[fl + j].0 == all_pages(ds)[n] && m[fl + j].1
                    is Dict && dict_get_v(m[fl + j].1->Dict_0, k_type()) == Some(
                    ObjV::Name(k_page()),
                ));
                assert(has_page_entry(m, all_pages(ds)[n]));
            }
        }
    }
}

/// Walking a list of references to known one-page leaves yields exactly
/// those identifiers, in order.
pub proof fn lemma_kids_id_walk(objs: Seq<(IdV, ObjV)>, ap: Seq<IdV>, fuel: nat, n: int)
    requires
        0 <= n <= ap.len(),
        forall|m: int|
            0 <= m < ap.len() ==> walk_node_v(objs, #[trigger] ap[m], fuel) == Some(seq![ap[m]]),
    ensures
        walk_kids_v(objs, crate::merge::refs_of_ids(ap).take(n), fuel) == Some(ap.take(n)),
    decreases n,
{
    let refs = crate::merge::refs_of_ids(ap);
    if n == 0 {
        assert(refs.take(0) =~= Seq::<ObjV>::empty());
        assert(walk_kids_v(objs, refs.take(0), fuel) == Some(Seq::<IdV>::empty()));
        assert(ap.take(0) =~= Seq::<IdV>::empty());
    } else {
        lemma_kids_id_walk(objs, ap, fuel, n - 1);
        let kn = refs.take(n);
        assert(kn.drop_last() =~= refs.take(n - 1));
        assert(kn.last() == refs[n - 1]);
        assert(refs[n - 1] == ObjV::Ref(ap[n - 1]));
        assert(walk_node_v(objs, ap[n - 1], fuel) == Some(seq![ap[n - 1]]));
        assert(ap.take(n - 1) + seq![ap[n - 1]] =~= ap.take(n));
    }
}

/// Walking the merged document's own page tree resolves to exactly the
/// collected page list: every input page, in input order.
pub proof fn lemma_merged_pages_resolve(ds: Seq<DocV>)
    requires
        forall|k: int| 0 <= k < ds.len() ==> doc_wf(#[trigger] ds[k]),
        forall|k: int| 0 <= k < ds.len() ==> pages_of(#[trigger] ds[k]) is Some,
    ensures
        pages_of(merged_doc(ds)) == Some(all_pages(ds)),
{
    reveal_with_fuel(dict_get_v, 5);
    let md = merged_doc(ds);
    let objs = md.objects;
    let ap = all_pages(ds);
    let body = patch_all(merged_objs(ds), ap, pages_id(ds));
    let bl = body.len() as int;
    let pdv = crate::merge::pages_dict_v(ds);
    let cdv = crate::merge::catalog_dict_v(ds);
    lemma_merged_doc_unique(ds);
    lemma_merged_objs_unique(ds);
    lemma_patch_ids(merged_objs(ds), ap, pages_id(ds));
    assert(k_type() != k_parent());
    lemma_patch_all_type(merged_objs(ds), ap, pages_id(ds), k_type());
    lemma_all_pages_entries(ds);
    // the trailer's Root resolves to the fresh catalog
    assert(dict_get_v(md.trailer, k_root()) == Some(ObjV::Ref(catalog_id(ds))));
    // the catalog is found: everything before it has a smaller number
    assert forall|i: int| 0 <= i < bl + 1 implies (#[trigger] objs[i]).0 != catalog_id(ds) by {
        if i < bl {
            assert(objs[i] == body[i]);
            assert(body[i].0 == merged_objs(ds)[i].0);
            assert(merged_objs(ds)[i].0.num < next_after(ds));
        } else {
            assert(objs[i].0 == pages_id(ds));
        }
    }
    lemma_map_get_skip(objs, catalog_id(ds), bl + 1);
    assert(objs.skip(bl + 1) =~= seq![(catalog_id(ds), ObjV::Dict(cdv))]);
    assert(map_get_v(objs, catalog_id(ds)) == Some(ObjV::Dict(cdv)));
    // the catalog's Pages entry points at the fresh Pages node
    assert(k_type() != k_pages());
    assert(cdv.drop_first() =~= seq![(k_pages(), ObjV::Ref(pages_id(ds)))]);
    assert(dict_get_v(cdv, k_pages()) == Some(ObjV::Ref(pages_id(ds))));
    // the Pages node is found the same way
    assert forall|i: int| 0 <= i < bl implies (#[trigger] objs[i]).0 != pages_id(ds) by {
        assert(objs[i] == body[i]);
        assert(body[i].0 == merged_objs(ds)[i].0);
        assert(merged_objs(ds)[i].0.num < next_after(ds));
    }
    lemma_map_get_skip(objs, pages_id(ds), bl);
    assert(objs.skip(bl) =~= seq![
        (pages_id(ds), ObjV::Dict(pdv)),
        (catalog_id(ds), ObjV::Dict(cdv)),
    ]);
    assert(map_get_v(objs, pages_id(ds)) == Some(ObjV::Dict(pdv)));
    // its Type is Pages, its Kids are the collected pages
    assert(dict_get_v(pdv, k_type()) == Some(ObjV::Name(k_pages())));
    assert(k_type() != k_kids()) by {
        assert(k_type()[0] == 'T' as u8);
        assert(k_kids()[0] == 'K' as u8);
    }
    assert(k_type() != k_count());
    assert(k_count() != k_kids());
    assert(pdv.drop_first() =~= seq![
        (k_count(), ObjV::Integer(ap.len() as i64)),
        (k_kids(), ObjV::Array(crate::merge::refs_of_ids(ap))),
    ]);
    assert(pdv.drop_first().drop_first() =~= seq![
        (k_kids(), ObjV::Array(crate::merge::refs_of_ids(ap))),
    ]);
    assert(dict_get_v(pdv, k_kids()) == Some(ObjV::Array(crate::merge::refs_of_ids(ap))));
    // every collected page is a one-page leaf of the merged graph
    let fuel1 = (objs.len() - 1) as nat;
    assert forall|m: int| 0 <= m < ap.len() implies walk_node_v(objs, #[trigger] ap[m], fuel1)
        == Some(seq![ap[m]]) by {
        assert(has_page_entry(merged_objs(ds), ap[m]));
        let j = choose|j: int|
            0 <= j < merged_objs(ds).len() && (#[trigger] merged_objs(ds)[j]).0 == ap[m]
                && merged_objs(ds)[j].1 is Dict && dict_get_v(
                merged_objs(ds)[j].1->Dict_0,
                k_type(),
            ) == Some(ObjV::Name(k_page()));
        assert(body[j].0 == merged_objs(ds)[j].0);
        assert(body[j].1 is Dict);
        assert(dict_get_v(body[j].1->Dict_0, k_type()) == Some(ObjV::Name(k_page())));
        assert(objs[j] == body[j]);
        lemma_map_get_at(objs, j);
        assert(map_get_v(objs, ap[m]) == Some(body[j].1));
        assert(fuel1 > 0);
    }
    lemma_kids_id_walk(objs, ap, fuel1, ap.len() as int);
    assert(crate::merge::refs_of_ids(ap).take(ap.len() as int) =~= crate::merge::refs_of_ids(ap));
    assert(ap.take(ap.len() as int) =~= ap);
    assert(walk_kids_v(objs, crate::merge::refs_of_ids(ap), fuel1) == Some(ap));
    // assemble the walk from the root
    assert(k_page() != k_pages()) by {
        assert(k_page().len() == 4);
        assert(k_pages().len() == 5);
    }
    assert(objs.len() == bl + 2);
    assert(walk_node_v(objs, pages_id(ds), objs.len()) == Some(ap));
}

} // verus!
