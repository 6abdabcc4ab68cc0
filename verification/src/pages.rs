//! Extracting the ordered list of pages of a document: the left-to-right,
//! depth-first leaf order of its `Pages` tree, starting from the trailer's
//! `Root` reference.  A graph whose tree cannot be resolved (missing or
//! ill-typed nodes, or a cycle) has no page list.
use vstd::prelude::*;

use crate::names::{k_kids, k_page, k_pages, k_root, k_type, mk_kids, mk_page, mk_pages, mk_root, mk_type};
use crate::object::{
    bytes_eq, dict_get_v, has_id, lemma_map_get_skip, lemma_view_list_index, lemma_view_list_len,
    map_get_v, view_ids, view_list, view_objs, DocV, IdV, ObjV, ObjectId, PdfDocument, PdfObject,
};

verus! {

broadcast use vstd::std_specs::vec::group_vec_axioms;

/// The page leaves below the node `id`, in depth-first order, or `None` when
/// the node is not a well-formed `Page` or `Pages` dictionary.  `fuel` bounds
/// the nesting depth; the number of objects in the graph is always enough for
/// an acyclic tree.
pub open spec fn walk_node_v(objs: Seq<(IdV, ObjV)>, id: IdV, fuel: nat) -> Option<Seq<IdV>>
    decreases fuel, 0int,
{
    if fuel == 0 {
        None
    } else {
        match map_get_v(objs, id) {
            Some(ObjV::Dict(es)) => match dict_get_v(es, k_type()) {
                Some(ObjV::Name(t)) => if t == k_page() {
                    Some(seq![id])
                } else if t == k_pages() {
                    match dict_get_v(es, k_kids()) {
                        Some(ObjV::Array(kids)) => walk_kids_v(objs, kids, (fuel - 1) as nat),
                        _ => None,
                    }
                } else {
                    None
                },
                _ => None,
            },
            _ => None,
        }
    }
}

/// The concatenation of the page leaves below each kid, left to right; `None`
/// as soon as one kid is not a reference or cannot be resolved.
pub open spec fn walk_kids_v(objs: Seq<(IdV, ObjV)>, kids: Seq<ObjV>, fuel: nat) -> Option<
    Seq<IdV>,
>
    decreases fuel, kids.len(),
{
    if kids.len() == 0 {
        Some(Seq::empty())
    } else {
        match walk_kids_v(objs, kids.drop_last(), fuel) {
            Some(front) => match kids.last() {
                ObjV::Ref(kid) => match walk_node_v(objs, kid, fuel) {
                    Some(sub) => Some(front + sub),
                    None => None,
                },
                _ => None,
            },
            None => None,
        }
    }
}

/// Once a prefix of the kids fails to resolve, the whole list fails.
pub proof fn lemma_walk_kids_prefix_none(objs: Seq<(IdV, ObjV)>, kids: Seq<ObjV>, fuel: nat, n: int)
    requires
        0 <= n <= kids.len(),
        walk_kids_v(objs, kids.take(n), fuel) is None,
    ensures
        walk_kids_v(objs, kids, fuel) is None,
    decreases kids.len() - n,
{
    if n < kids.len() {
        assert(kids.take(n + 1).drop_last() =~= kids.take(n));
        lemma_walk_kids_prefix_none(objs, kids, fuel, n + 1);
    } else {
        assert(kids.take(n) =~= kids);
    }
}

/// A binding is found exactly when some entry carries the identifier.
pub proof fn lemma_map_get_has(objs: Seq<(IdV, ObjV)>, id: IdV)
    ensures
        map_get_v(objs, id) is Some <==> has_id(objs, id),
    decreases objs.len(),
{
    if objs.len() == 0 {
    } else if objs[0].0 == id {
        assert(has_id(objs, id)) by {
            assert(objs[0].0 == id);
        }
    } else {
        lemma_map_get_has(objs.drop_first(), id);
        if map_get_v(objs, id) is Some {
            let i = choose|i: int|
                0 <= i < objs.drop_first().len() && objs.drop_first()[i].0 == id;
            assert(objs[i + 1].0 == id);
        }
        if has_id(objs, id) {
            let i = choose|i: int| 0 <= i < objs.len() && objs[i].0 == id;
            assert(i > 0);
            assert(objs.drop_first()[i - 1].0 == id);
        }
    }
}

/// Every page the walk returns is bound in the graph.
pub proof fn lemma_walk_node_ids(objs: Seq<(IdV, ObjV)>, id: IdV, fuel: nat)
    requires
        walk_node_v(objs, id, fuel) is Some,
    ensures
        forall|i: int|
            0 <= i < walk_node_v(objs, id, fuel)->Some_0.len() ==> has_id(
                objs,
                #[trigger] walk_node_v(objs, id, fuel)->Some_0[i],
            ),
    decreases fuel, 0int,
{
    let es = map_get_v(objs, id)->Some_0->Dict_0;
    let t = dict_get_v(es, k_type())->Some_0->Name_0;
    if t == k_page() {
        lemma_map_get_has(objs, id);
    } else {
        let kids = dict_get_v(es, k_kids())->Some_0->Array_0;
        lemma_walk_kids_ids(objs, kids, (fuel - 1) as nat);
    }
}

/// Every page below any kid is bound in the graph.
pub proof fn lemma_walk_kids_ids(objs: Seq<(IdV, ObjV)>, kids: Seq<ObjV>, fuel: nat)
    requires
        walk_kids_v(objs, kids, fuel) is Some,
    ensures
        forall|i: int|
            0 <= i < walk_kids_v(objs, kids, fuel)->Some_0.len() ==> has_id(
                objs,
                #[trigger] walk_kids_v(objs, kids, fuel)->Some_0[i],
            ),
    decreases fuel, kids.len(),
{
    if kids.len() > 0 {
        lemma_walk_kids_ids(objs, kids.drop_last(), fuel);
        let kid = kids.last()->Ref_0;
        lemma_walk_node_ids(objs, kid, fuel);
        let front = walk_kids_v(objs, kids.drop_last(), fuel)->Some_0;
        let sub = walk_node_v(objs, kid, fuel)->Some_0;
        assert forall|i: int| 0 <= i < walk_kids_v(objs, kids, fuel)->Some_0.len() implies has_id(
            objs,
            #[trigger] walk_kids_v(objs, kids, fuel)->Some_0[i],
        ) by {
            if i < front.len() {
                assert((front + sub)[i] == front[i]);
            } else {
                assert((front + sub)[i] == sub[i - front.len()]);
            }
        }
    }
}

/// A document with a page list has at least one object.
pub proof fn lemma_pages_of_nonempty(d: DocV)
    requires
        pages_of(d) is Some,
    ensures
        d.objects.len() > 0,
{
    if d.objects.len() == 0 {
        match dict_get_v(d.trailer, k_root()) {
            Some(ObjV::Ref(rid)) => {
                assert(map_get_v(d.objects, rid) is None);
            },
            _ => {},
        }
    }
}

/// Every page of the document's page list is bound in its graph.
pub proof fn lemma_pages_of_ids(d: DocV)
    requires
        pages_of(d) is Some,
    ensures
        forall|i: int|
            0 <= i < pages_of(d)->Some_0.len() ==> has_id(
                d.objects,
                #[trigger] pages_of(d)->Some_0[i],
            ),
{
    let rid = dict_get_v(d.trailer, k_root())->Some_0->Ref_0;
    let ces = map_get_v(d.objects, rid)->Some_0->Dict_0;
    let pid = dict_get_v(ces, k_pages())->Some_0->Ref_0;
    lemma_walk_node_ids(d.objects, pid, d.objects.len());
}

/// The ordered page list of the document, resolved from the trailer's `Root`
/// through the catalog's `Pages` entry.
pub open spec fn pages_of(d: DocV) -> Option<Seq<IdV>> {
    match dict_get_v(d.trailer, k_root()) {
        Some(ObjV::Ref(rid)) => match map_get_v(d.objects, rid) {
            Some(ObjV::Dict(ces)) => match dict_get_v(ces, k_pages()) {
                Some(ObjV::Ref(pid)) => walk_node_v(d.objects, pid, d.objects.len()),
                _ => None,
            },
            _ => None,
        },
        _ => None,
    }
}

/// Look an identifier up in the graph, returning the first binding.
pub fn map_get<'a>(objs: &'a Vec<(ObjectId, PdfObject)>, id: ObjectId) -> (r: Option<
    &'a PdfObject,
>)
    ensures
        match r {
            Some(o) => map_get_v(view_objs(objs@), id@) == Some(o@),
            None => map_get_v(view_objs(objs@), id@) is None,
        },
{
    let mut i: usize = 0;
    while i < objs.len()
        invariant
            0 <= i <= objs@.len(),
            forall|j: int| 0 <= j < i ==> view_objs(objs@)[j].0 != id@,
        decreases objs@.len() - i,
    {
        if objs[i].0 == id {
            proof {
                lemma_map_get_skip(view_objs(objs@), id@, i as int);
                assert(view_objs(objs@).skip(i as int)[0] == view_objs(objs@)[i as int]);
            }
            return Some(&objs[i].1);
        }
        i = i + 1;
    }
    proof {
        lemma_map_get_skip(view_objs(objs@), id@, objs@.len() as int);
        assert(view_objs(objs@).skip(objs@.len() as int) =~= Seq::<(IdV, ObjV)>::empty());
    }
    None
}

/// The page leaves below `id`, built executably; mirrors `walk_node_v`.
#[verifier::loop_isolation(false)]
pub fn walk_node(objs: &Vec<(ObjectId, PdfObject)>, id: ObjectId, fuel: usize) -> (r: Option<
    Vec<ObjectId>,
>)
    ensures
        match r {
            Some(v) => walk_node_v(view_objs(objs@), id@, fuel as nat) == Some(view_ids(v@)),
            None => walk_node_v(view_objs(objs@), id@, fuel as nat) is None,
        },
    decreases fuel, 0int,
{
    if fuel == 0 {
        return None;
    }
    let node = match map_get(objs, id) {
        Some(o) => o,
        None => {
            return None;
        },
    };
    let d = match node {
        PdfObject::Dict(d) => d,
        _ => {
            return None;
        },
    };
    let tkey = mk_type();
    let tval = match d.get(tkey.as_slice()) {
        Some(PdfObject::Name(n)) => n,
        _ => {
            return None;
        },
    };
    let pg = mk_page();
    if bytes_eq(tval.as_slice(), pg.as_slice()) {
        let out: Vec<ObjectId> = vec![id];
        proof {
            assert(view_ids(out@) =~= seq![id@]);
        }
        return Some(out);
    }
    let pgs = mk_pages();
    if bytes_eq(tval.as_slice(), pgs.as_slice()) {
        let kkey = mk_kids();
        let kids = match d.get(kkey.as_slice()) {
            Some(PdfObject::Array(kids)) => kids,
            _ => {
                return None;
            },
        };
        walk_kids(objs, kids, fuel - 1)
    } else {
        None
    }
}

/// The concatenated page leaves below the kids, built executably; mirrors
/// `walk_kids_v`.
#[verifier::loop_isolation(false)]
pub fn walk_kids(objs: &Vec<(ObjectId, PdfObject)>, kids: &Vec<PdfObject>, fuel: usize) -> (r:
    Option<Vec<ObjectId>>)
    ensures
        match r {
            Some(v) => walk_kids_v(view_objs(objs@), view_list(kids@), fuel as nat) == Some(
                view_ids(v@),
            ),
            None => walk_kids_v(view_objs(objs@), view_list(kids@), fuel as nat) is None,
        },
    decreases fuel, 1int,
{
    let ghost kv = view_list(kids@);
    proof {
        lemma_view_list_len(kids@);
    }
    let mut out: Vec<ObjectId> = Vec::new();
    let mut i: usize = 0;
    while i < kids.len()
        invariant
            0 <= i <= kids@.len(),
            walk_kids_v(view_objs(objs@), kv.take(i as int), fuel as nat) == Some(view_ids(out@)),
        decreases kids@.len() - i,
    {
        proof {
            lemma_view_list_index(kids@, i as int);
        }
        let kid = match &kids[i] {
            PdfObject::Ref(kid) => *kid,
            _ => {
                proof {
                    assert(kv.take(i + 1).drop_last() =~= kv.take(i as int));
                    assert(kv.take(i + 1).last() == kv[i as int]);
                    assert(walk_kids_v(view_objs(objs@), kv.take(i + 1), fuel as nat) is None);
                    lemma_walk_kids_prefix_none(view_objs(objs@), kv, fuel as nat, i + 1);
                }
                return None;
            },
        };
        let sub = match walk_node(objs, kid, fuel) {
            Some(sub) => sub,
            None => {
                proof {
                    assert(kv.take(i + 1).drop_last() =~= kv.take(i as int));
                    assert(kv.take(i + 1).last() == kv[i as int]);
                    assert(walk_kids_v(view_objs(objs@), kv.take(i + 1), fuel as nat) is None);
                    lemma_walk_kids_prefix_none(view_objs(objs@), kv, fuel as nat, i + 1);
                }
                return None;
            },
        };
        let ghost pre = out@;
        let mut j: usize = 0;
        while j < sub.len()
            invariant
                0 <= j <= sub@.len(),
                out@ == pre + sub@.take(j as int),
            decreases sub@.len() - j,
        {
            out.push(sub[j]);
            proof {
                assert(pre + sub@.take(j + 1) =~= (pre + sub@.take(j as int)).push(sub@[j as int]));
            }
            j = j + 1;
        }
        proof {
            assert(sub@.take(sub@.len() as int) =~= sub@);
            assert(out@ == pre + sub@);
            assert(kv.take(i + 1).drop_last() =~= kv.take(i as int));
            assert(kv.take(i + 1).last() == kv[i as int]);
            assert(view_ids(out@) =~= view_ids(pre) + view_ids(sub@));
            assert(walk_kids_v(view_objs(objs@), kv.take(i + 1), fuel as nat) == Some(
                view_ids(out@),
            ));
        }
        i = i + 1;
    }
    proof {
        assert(kv.take(kids@.len() as int) =~= kv);
    }
    Some(out)
}

/// The ordered page list of the document, resolved from the trailer's `Root`;
/// mirrors `pages_of`.
pub fn collect_pages(doc: &PdfDocument) -> (r: Option<Vec<ObjectId>>)
    ensures
        match r {
            Some(v) => pages_of(doc@) == Some(view_ids(v@)),
            None => pages_of(doc@) is None,
        },
{
    let rkey = mk_root();
    let rid = match doc.trailer.get(rkey.as_slice()) {
        Some(PdfObject::Ref(rid)) => *rid,
        _ => {
            return None;
        },
    };
    let cat = match map_get(&doc.objects, rid) {
        Some(PdfObject::Dict(ces)) => ces,
        _ => {
            return None;
        },
    };
    let pkey = mk_pages();
    let pid = match cat.get(pkey.as_slice()) {
        Some(PdfObject::Ref(pid)) => *pid,
        _ => {
            return None;
        },
    };
    walk_node(&doc.objects, pid, doc.objects.len())
}

} // verus!
