//! The object-graph merge: each document's identifiers are shifted into a
//! fresh block starting at the running counter, the shifted graphs are
//! unioned, a new `Pages` node is built over every collected page, each page
//! is re-parented to it, and a new catalog becomes the trailer's `Root`.
use vstd::prelude::*;

use crate::names::{
    k_catalog, k_count, k_kids, k_pages, k_parent, k_root, k_type, mk_catalog, mk_count, mk_kids,
    mk_pages, mk_parent, mk_root, mk_type,
};
use crate::object::{
    dict_set_v, doc_closed, doc_wf, has_id, id_set, lemma_view_list_index, lemma_view_list_len,
    obj_refs_in, view_entries, view_ids, view_list, view_objs, DocV, IdV, ObjV, ObjectId, PdfDict,
    PdfDocument, PdfObject,
};
use crate::pages::{
    collect_pages, lemma_pages_of_ids, lemma_pages_of_nonempty, pages_of,
};
use crate::renumber::{renum_obj, renum_obj_v, shift_id};

verus! {

broadcast use vstd::std_specs::vec::group_vec_axioms;

/// Why a merge was refused.
#[derive(Debug)]
pub enum MergeError {
    /// No source documents were given.
    EmptyInput,
    /// The document at `index` has no resolvable page tree.
    LoadError { index: usize, cause: String },
    /// The assembled graph cannot be represented or written.
    SaveError { cause: String },
}

/// The largest object number an identifier can carry.
pub open spec fn id_limit() -> int {
    u32::MAX as int
}

/// The smallest object number bound in the graph; 1 when it is empty.
pub open spec fn ids_min(objs: Seq<(IdV, ObjV)>) -> int
    decreases objs.len(),
{
    if objs.len() == 0 {
        1
    } else if objs.len() == 1 {
        objs[0].0.num
    } else {
        let rest = ids_min(objs.drop_last());
        if objs.last().0.num < rest {
            objs.last().0.num
        } else {
            rest
        }
    }
}

/// The largest object number bound in the graph; 0 when it is empty.
pub open spec fn ids_max(objs: Seq<(IdV, ObjV)>) -> int
    decreases objs.len(),
{
    if objs.len() == 0 {
        0
    } else {
        let rest = ids_max(objs.drop_last());
        if objs.last().0.num > rest {
            objs.last().0.num
        } else {
            rest
        }
    }
}

/// How many object numbers the document's block occupies.
pub open spec fn doc_span(d: DocV) -> int {
    if d.objects.len() == 0 {
        0
    } else {
        ids_max(d.objects) - ids_min(d.objects) + 1
    }
}

/// The first free object number after the documents' blocks; 1 before any.
pub open spec fn next_after(ds: Seq<DocV>) -> int
    decreases ds.len(),
{
    if ds.len() == 0 {
        1
    } else {
        next_after(ds.drop_last()) + doc_span(ds.last())
    }
}

/// The offset that shifts document `k` of the list into its block.
pub open spec fn doc_off(ds: Seq<DocV>, k: int) -> int {
    next_after(ds.take(k)) - ids_min(ds[k].objects)
}

/// The graph's bindings with every identifier and reference shifted.
pub open spec fn renum_objs_v(objs: Seq<(IdV, ObjV)>, off: int) -> Seq<(IdV, ObjV)> {
    Seq::new(objs.len(), |i: int| (shift_id(objs[i].0, off), renum_obj_v(objs[i].1, off)))
}

/// A list of identifiers, each shifted.
pub open spec fn shift_ids_v(ids: Seq<IdV>, off: int) -> Seq<IdV> {
    Seq::new(ids.len(), |i: int| shift_id(ids[i], off))
}

/// The union of all the documents' graphs, each shifted into its block.
pub open spec fn merged_objs(ds: Seq<DocV>) -> Seq<(IdV, ObjV)>
    decreases ds.len(),
{
    if ds.len() == 0 {
        Seq::empty()
    } else {
        merged_objs(ds.drop_last()) + renum_objs_v(
            ds.last().objects,
            doc_off(ds, ds.len() - 1),
        )
    }
}

/// Every document's pages, shifted, in document order.
pub open spec fn all_pages(ds: Seq<DocV>) -> Seq<IdV>
    decreases ds.len(),
{
    if ds.len() == 0 {
        Seq::empty()
    } else {
        all_pages(ds.drop_last()) + shift_ids_v(
            pages_of(ds.last())->Some_0,
            doc_off(ds, ds.len() - 1),
        )
    }
}

/// What the merge does with a list of documents.
pub enum OutcomeV {
    /// Nothing was given.
    Empty,
    /// The page tree of document `k` cannot be resolved.
    BadDoc { k: int },
    /// The identifier space or the page count would overflow at step `k`.
    TooBig { k: int },
    /// The merge succeeds.
    Good,
}

/// The outcome of scanning the documents from `k` on.
pub open spec fn scan_from(ds: Seq<DocV>, k: int) -> OutcomeV
    decreases ds.len() - k,
{
    if k >= ds.len() {
        if all_pages(ds).len() > i64::MAX as int {
            OutcomeV::TooBig { k: ds.len() as int }
        } else {
            OutcomeV::Good
        }
    } else if pages_of(ds[k]) is None {
        OutcomeV::BadDoc { k: k }
    } else if next_after(ds.take(k + 1)) + 2 > id_limit() {
        OutcomeV::TooBig { k: k }
    } else {
        scan_from(ds, k + 1)
    }
}

/// The outcome of merging the documents, in the order tried.
pub open spec fn merge_outcome(ds: Seq<DocV>) -> OutcomeV {
    if ds.len() == 0 {
        OutcomeV::Empty
    } else {
        scan_from(ds, 0)
    }
}


/// A scan never reports an empty input.
pub proof fn lemma_scan_not_empty(ds: Seq<DocV>, k: int)
    requires
        0 <= k <= ds.len(),
    ensures
        !(scan_from(ds, k) is Empty),
    decreases ds.len() - k,
{
    if k < ds.len() && pages_of(ds[k]) is Some && next_after(ds.take(k + 1)) + 1 <= id_limit() {
        lemma_scan_not_empty(ds, k + 1);
    }
}


/// A good scan keeps the running counter two below the identifier limit, so
/// the fresh catalog's number stays below it.
pub proof fn lemma_good_bound(ds: Seq<DocV>, k: int)
    requires
        0 <= k <= ds.len(),
        scan_from(ds, k) is Good,
        next_after(ds.take(k)) + 2 <= id_limit(),
    ensures
        next_after(ds) + 2 <= id_limit(),
    decreases ds.len() - k,
{
    if k < ds.len() {
        lemma_good_bound(ds, k + 1);
    } else {
        assert(ds.take(k) =~= ds);
    }
}

/// The identifier of the fresh `Pages` node.
pub open spec fn pages_id(ds: Seq<DocV>) -> IdV {
    IdV { num: next_after(ds), gen: 0 }
}

/// The identifier of the fresh catalog.
pub open spec fn catalog_id(ds: Seq<DocV>) -> IdV {
    IdV { num: next_after(ds) + 1, gen: 0 }
}

/// One reference object for each identifier.
pub open spec fn refs_of_ids(ids: Seq<IdV>) -> Seq<ObjV> {
    Seq::new(ids.len(), |i: int| ObjV::Ref(ids[i]))
}

/// The fresh root `Pages` dictionary: its kids are all collected pages.
pub open spec fn pages_dict_v(ds: Seq<DocV>) -> Seq<(Seq<u8>, ObjV)> {
    seq![
        (k_type(), ObjV::Name(k_pages())),
        (k_count(), ObjV::Integer(all_pages(ds).len() as i64)),
        (k_kids(), ObjV::Array(refs_of_ids(all_pages(ds)))),
    ]
}

/// The fresh catalog dictionary.
pub open spec fn catalog_dict_v(ds: Seq<DocV>) -> Seq<(Seq<u8>, ObjV)> {
    seq![(k_type(), ObjV::Name(k_catalog())), (k_pages(), ObjV::Ref(pages_id(ds)))]
}

/// The graph with, at every binding of `id` that is a dictionary, the
/// `Parent` entry set to a reference to `parent`.
pub open spec fn patch_one(objs: Seq<(IdV, ObjV)>, id: IdV, parent: IdV) -> Seq<(IdV, ObjV)> {
    Seq::new(
        objs.len(),
        |i: int|
            if objs[i].0 == id && objs[i].1 is Dict {
                (objs[i].0, ObjV::Dict(dict_set_v(objs[i].1->Dict_0, k_parent(), ObjV::Ref(parent))))
            } else {
                objs[i]
            },
    )
}

/// The graph re-parented at every page of the list, left to right.
pub open spec fn patch_all(objs: Seq<(IdV, ObjV)>, pages: Seq<IdV>, parent: IdV) -> Seq<
    (IdV, ObjV),
>
    decreases pages.len(),
{
    if pages.len() == 0 {
        objs
    } else {
        patch_one(patch_all(objs, pages.drop_last(), parent), pages.last(), parent)
    }
}

/// The merged document: the shifted union, re-parented pages, the fresh
/// `Pages` node and catalog, and a trailer whose `Root` is the catalog.
pub open spec fn merged_doc(ds: Seq<DocV>) -> DocV {
    DocV {
        objects: patch_all(merged_objs(ds), all_pages(ds), pages_id(ds)) + seq![
            (pages_id(ds), ObjV::Dict(pages_dict_v(ds))),
            (catalog_id(ds), ObjV::Dict(catalog_dict_v(ds))),
        ],
        trailer: seq![(k_root(), ObjV::Ref(catalog_id(ds)))],
    }
}

/// The views of a list of documents.
pub open spec fn view_docs(ds: Seq<PdfDocument>) -> Seq<DocV> {
    Seq::new(ds.len(), |i: int| ds[i]@)
}


/// Step equation for `next_after` on a prefix.
pub proof fn lemma_next_after_step(ds: Seq<DocV>, k: int)
    requires
        0 <= k < ds.len(),
    ensures
        next_after(ds.take(k + 1)) == next_after(ds.take(k)) + doc_span(ds[k]),
{
    let ts = ds.take(k + 1);
    assert(ts.drop_last() =~= ds.take(k));
    assert(ts.last() == ds[k]);
}

/// Step equation for `merged_objs` on a prefix.
pub proof fn lemma_merged_objs_step(ds: Seq<DocV>, k: int)
    requires
        0 <= k < ds.len(),
    ensures
        merged_objs(ds.take(k + 1)) == merged_objs(ds.take(k)) + renum_objs_v(
            ds[k].objects,
            doc_off(ds, k),
        ),
{
    let ts = ds.take(k + 1);
    assert(ts.drop_last() =~= ds.take(k));
    assert(ts.last() == ds[k]);
    assert(ts.take(k) =~= ds.take(k));
    assert(doc_off(ts, k) == doc_off(ds, k));
}

/// Step equation for `all_pages` on a prefix.
pub proof fn lemma_all_pages_step(ds: Seq<DocV>, k: int)
    requires
        0 <= k < ds.len(),
    ensures
        all_pages(ds.take(k + 1)) == all_pages(ds.take(k)) + shift_ids_v(
            pages_of(ds[k])->Some_0,
            doc_off(ds, k),
        ),
{
    let ts = ds.take(k + 1);
    assert(ts.drop_last() =~= ds.take(k));
    assert(ts.last() == ds[k]);
    assert(ts.take(k) =~= ds.take(k));
    assert(doc_off(ts, k) == doc_off(ds, k));
}

/// The smallest and largest object numbers of a nonempty graph, with the
/// bound they put on every binding.
#[verifier::loop_isolation(false)]
fn doc_bounds(objs: &Vec<(ObjectId, PdfObject)>) -> (r: (u32, u32))
    requires
        objs@.len() > 0,
    ensures
        r.0 as int == ids_min(view_objs(objs@)),
        r.1 as int == ids_max(view_objs(objs@)),
        r.0 <= r.1,
        forall|j: int|
            0 <= j < view_objs(objs@).len() ==> r.0 as int <= (#[trigger] view_objs(
                objs@,
            )[j]).0.num <= r.1 as int,
{
    let ghost vo = view_objs(objs@);
    let mut lo: u32 = objs[0].0.num;
    let mut hi: u32 = objs[0].0.num;
    proof {
        assert(vo.take(1).drop_last() =~= Seq::<(IdV, ObjV)>::empty());
        assert(vo.take(1).len() == 1);
        assert(vo.take(1)[0] == vo[0]);
        assert(ids_min(Seq::<(IdV, ObjV)>::empty()) == 1);
        assert(ids_max(Seq::<(IdV, ObjV)>::empty()) == 0);
        assert(vo.take(1).last() == vo[0]);
        assert(vo[0].0.num >= 0);
    }
    let mut i: usize = 1;
    while i < objs.len()
        invariant
            1 <= i <= objs@.len(),
            lo as int == ids_min(vo.take(i as int)),
            hi as int == ids_max(vo.take(i as int)),
            lo <= hi,
            forall|j: int| 0 <= j < i ==> lo as int <= (#[trigger] vo[j]).0.num <= hi as int,
        decreases objs@.len() - i,
    {
        let n = objs[i].0.num;
        proof {
            assert(vo.take(i + 1).drop_last() =~= vo.take(i as int));
            assert(vo.take(i + 1).last() == vo[i as int]);
            assert(vo[i as int].0.num == n as int);
        }
        if n < lo {
            lo = n;
        }
        if n > hi {
            hi = n;
        }
        i = i + 1;
    }
    proof {
        assert(vo.take(objs@.len() as int) =~= vo);
    }
    (lo, hi)
}

/// Set the `Parent` of every dictionary bound at `pid` to a reference to
/// `parent`; mirrors `patch_one`.
#[verifier::loop_isolation(false)]
fn patch_parent(objs: &mut Vec<(ObjectId, PdfObject)>, pid: ObjectId, parent: ObjectId)
    ensures
        view_objs(final(objs)@) == patch_one(view_objs(old(objs)@), pid@, parent@),
{
    let ghost vo = view_objs(old(objs)@);
    let mut i: usize = 0;
    while i < objs.len()
        invariant
            0 <= i <= objs@.len(),
            objs@.len() == old(objs)@.len(),
            forall|j: int|
                0 <= j < i ==> (#[trigger] view_objs(objs@)[j]) == patch_one(vo, pid@, parent@)[j],
            forall|j: int| i <= j < objs@.len() ==> (#[trigger] objs@[j]) == old(objs)@[j],
        decreases objs@.len() - i,
    {
        let ghost pre = objs@;
        if objs[i].0 == pid {
            let entry = objs.remove(i);
            let ghost oldpair = pre[i as int];
            match entry {
                (oid, PdfObject::Dict(mut d)) => {
                    let ghost dold = d@;
                    d.set_entry(mk_parent(), PdfObject::Ref(parent));
                    proof {
                        assert(d@ == dict_set_v(dold, k_parent(), ObjV::Ref(parent@)));
                        assert(oldpair.1.value() == ObjV::Dict(dold));
                    }
                    objs.insert(i, (oid, PdfObject::Dict(d)));
                    proof {
                        assert(objs@ =~= pre.update(
                            i as int,
                            (oid, PdfObject::Dict(d)),
                        ));
                        assert(vo[i as int] == (oldpair.0@, oldpair.1.value()));
                        assert(vo[i as int].0 == pid@);
                        assert(view_objs(objs@)[i as int] == patch_one(vo, pid@, parent@)[
                            i as int
                        ]);
                    }
                },
                other => {
                    objs.insert(i, other);
                    proof {
                        assert(objs@ =~= pre.update(i as int, other));
                        assert(objs@ =~= pre);
                        assert(!(oldpair.1.value() is Dict));
                        assert(view_objs(objs@)[i as int] == patch_one(vo, pid@, parent@)[
                            i as int
                        ]);
                    }
                },
            }
        } else {
            proof {
                assert(pre[i as int].0@ != pid@);
                assert(view_objs(objs@)[i as int] == patch_one(vo, pid@, parent@)[i as int]);
            }
        }
        proof {
            assert forall|j: int| 0 <= j < i + 1 implies (#[trigger] view_objs(objs@)[j])
                == patch_one(vo, pid@, parent@)[j] by {
                if j < i {
                    assert(objs@[j] == pre[j]);
                    assert(view_objs(pre)[j] == patch_one(vo, pid@, parent@)[j]);
                }
            }
        }
        i = i + 1;
    }
    proof {
        assert(view_objs(objs@) =~= patch_one(vo, pid@, parent@));
    }
}


/// An array object holding one reference per identifier, in order.
#[verifier::loop_isolation(false)]
fn kids_array(ids: &Vec<ObjectId>) -> (r: PdfObject)
    ensures
        r@ == ObjV::Array(refs_of_ids(view_ids(ids@))),
{
    let mut out: Vec<PdfObject> = Vec::new();
    let mut i: usize = 0;
    while i < ids.len()
        invariant
            0 <= i <= ids@.len(),
            out@.len() == i,
            forall|j: int| 0 <= j < i ==> ((#[trigger] out@[j]) == PdfObject::Ref(ids@[j])),
        decreases ids@.len() - i,
    {
        out.push(PdfObject::Ref(ids[i]));
        i = i + 1;
    }
    proof {
        lemma_view_list_len(out@);
        assert forall|j: int| 0 <= j < out@.len() implies view_list(out@)[j] == refs_of_ids(
            view_ids(ids@),
        )[j] by {
            lemma_view_list_index(out@, j);
        }
        assert(view_list(out@) =~= refs_of_ids(view_ids(ids@)));
    }
    PdfObject::Array(out)
}


/// Merge the documents into one: each graph is shifted into a fresh block of
/// identifiers, the blocks are unioned, a fresh `Pages` node is built over
/// every collected page in input order, each page is re-parented to it, and a
/// fresh catalog becomes the trailer's `Root`.
#[verifier::loop_isolation(false)]
#[verifier::rlimit(60)]
pub fn merge_documents(docs: &Vec<PdfDocument>) -> (r: Result<PdfDocument, MergeError>)
    requires
        forall|k: int| 0 <= k < docs@.len() ==> doc_wf((#[trigger] docs@[k])@),
        forall|k: int| 0 <= k < docs@.len() ==> doc_closed((#[trigger] docs@[k])@),
    ensures
        ({
            let ds = view_docs(docs@);
            match r {
                Ok(m) => merge_outcome(ds) is Good && m@ == merged_doc(ds),
                Err(e) => match e {
                    MergeError::EmptyInput => merge_outcome(ds) is Empty,
                    MergeError::LoadError { index, cause: _ } => 0 <= index < ds.len()
                        && merge_outcome(ds) == (OutcomeV::BadDoc { k: index as int }),
                    MergeError::SaveError { cause: _ } => merge_outcome(ds) is TooBig,
                },
            }
        }),
{
    let ghost ds = view_docs(docs@);
    if docs.len() == 0 {
        return Err(MergeError::EmptyInput);
    }
    let mut merged: Vec<(ObjectId, PdfObject)> = Vec::new();
    let mut pages: Vec<ObjectId> = Vec::new();
    let mut next: u64 = 1;
    let mut k: usize = 0;
    proof {
        assert(ds.take(0) =~= Seq::<DocV>::empty());
        assert(view_objs(merged@) =~= merged_objs(ds.take(0)));
        assert(view_ids(pages@) =~= all_pages(ds.take(0)));
    }
    while k < docs.len()
        invariant
            0 <= k <= docs@.len(),
            next as int == next_after(ds.take(k as int)),
            1 <= next as int,
            next as int + 2 <= id_limit(),
            view_objs(merged@) == merged_objs(ds.take(k as int)),
            view_ids(pages@) == all_pages(ds.take(k as int)),
            scan_from(ds, 0) == scan_from(ds, k as int),
        decreases docs@.len() - k,
    {
        let ghost dv = ds[k as int];
        proof {
            assert(dv == docs@[k as int]@);
        }
        let pg = match collect_pages(&docs[k]) {
            Some(pg) => pg,
            None => {
                proof {
                    assert(scan_from(ds, k as int) == (OutcomeV::BadDoc { k: k as int }));
                }
                return Err(MergeError::LoadError {
                    index: k,
                    cause: "the page tree cannot be resolved".to_owned(),
                });
            },
        };
        proof {
            lemma_pages_of_nonempty(dv);
            lemma_pages_of_ids(dv);
        }
        let (lo, hi) = doc_bounds(&docs[k].objects);
        let span: u64 = (hi - lo) as u64 + 1;
        proof {
            lemma_next_after_step(ds, k as int);
            assert(doc_span(dv) == span as int);
            assert(next_after(ds.take(k as int + 1)) == next as int + span as int);
        }
        if next + span - 1 > (u32::MAX - 3) as u64 {
            proof {
                assert(next_after(ds.take(k as int + 1)) + 2 > id_limit());
                assert(scan_from(ds, k as int) == (OutcomeV::TooBig { k: k as int }));
            }
            return Err(MergeError::SaveError {
                cause: "the object identifier space is exhausted".to_owned(),
            });
        }
        let off: i64 = next as i64 - lo as i64;
        let ghost idsg = id_set(dv.objects);
        proof {
            assert(off as int == doc_off(ds, k as int));
            assert forall|id: IdV| idsg.contains(id) implies 1 <= id.num + off <= u32::MAX by {
                let j = choose|j: int| 0 <= j < dv.objects.len() && dv.objects[j].0 == id;
                assert(lo as int <= dv.objects[j].0.num <= hi as int);
            }
        }
        let ghost premerged = merged@;
        let mut i: usize = 0;
        while i < docs[k].objects.len()
            invariant
                0 <= i <= docs@[k as int].objects@.len(),
                merged@.len() == premerged.len() + i,
                forall|j: int| 0 <= j < premerged.len() ==> merged@[j] == premerged[j],
                forall|j: int|
                    premerged.len() <= j < merged@.len() ==> (#[trigger] view_objs(merged@)[j])
                        == renum_objs_v(dv.objects, off as int)[j - premerged.len()],
            decreases docs@[k as int].objects@.len() - i,
        {
            let oid = docs[k].objects[i].0;
            proof {
                assert(dv.objects[i as int] == (oid@, docs@[k as int].objects@[i as int].1.value()));
                assert(has_id(dv.objects, oid@)) by {
                    assert(dv.objects[i as int].0 == oid@);
                }
                assert(idsg.contains(oid@));
                assert(obj_refs_in(dv.objects[i as int].1, idsg));
            }
            let nid = ObjectId { num: (oid.num as i64 + off) as u32, gen: oid.gen };
            let ro = renum_obj(&docs[k].objects[i].1, off, Ghost(idsg));
            let ghost old_m = merged@;
            merged.push((nid, ro));
            proof {
                assert(nid@ == shift_id(oid@, off as int));
                assert(view_objs(merged@)[premerged.len() + i as int] == (nid@, ro@));
                assert forall|j: int| premerged.len() <= j < merged@.len() implies (
                #[trigger] view_objs(merged@)[j]) == renum_objs_v(dv.objects, off as int)[j
                    - premerged.len()] by {
                    if j < premerged.len() + i {
                        assert(merged@[j] == old_m[j]);
                        assert(view_objs(old_m)[j] == renum_objs_v(dv.objects, off as int)[j
                            - premerged.len()]);
                    }
                }
            }
            i = i + 1;
        }
        proof {
            lemma_merged_objs_step(ds, k as int);
            assert(view_objs(merged@) =~= merged_objs(ds.take(k as int)) + renum_objs_v(
                dv.objects,
                off as int,
            ));
            assert(view_objs(merged@) == merged_objs(ds.take(k as int + 1)));
        }
        let ghost prepages = pages@;
        let mut i2: usize = 0;
        while i2 < pg.len()
            invariant
                0 <= i2 <= pg@.len(),
                pages@.len() == prepages.len() + i2,
                forall|j: int| 0 <= j < prepages.len() ==> pages@[j] == prepages[j],
                forall|j: int|
                    prepages.len() <= j < pages@.len() ==> (#[trigger] view_ids(pages@)[j])
                        == shift_ids_v(pages_of(dv)->Some_0, off as int)[j - prepages.len()],
            decreases pg@.len() - i2,
        {
            let pid = pg[i2];
            proof {
                assert(view_ids(pg@)[i2 as int] == pid@);
                assert(pages_of(dv)->Some_0[i2 as int] == pid@);
                assert(has_id(dv.objects, pid@));
                assert(idsg.contains(pid@));
                assert(1 <= pid@.num + off <= u32::MAX);
            }
            let sid = ObjectId { num: (pid.num as i64 + off) as u32, gen: pid.gen };
            let ghost old_p = pages@;
            pages.push(sid);
            proof {
                assert(sid@ == shift_id(pid@, off as int));
                assert(view_ids(pages@)[prepages.len() + i2 as int] == sid@);
                assert forall|j: int| prepages.len() <= j < pages@.len() implies (
                #[trigger] view_ids(pages@)[j]) == shift_ids_v(pages_of(dv)->Some_0, off as int)[j
                    - prepages.len()] by {
                    if j < prepages.len() + i2 {
                        assert(pages@[j] == old_p[j]);
                        assert(view_ids(old_p)[j] == shift_ids_v(pages_of(dv)->Some_0, off as int)[
                        j - prepages.len()]);
                    }
                }
            }
            i2 = i2 + 1;
        }
        proof {
            lemma_all_pages_step(ds, k as int);
            assert(view_ids(pages@) =~= all_pages(ds.take(k as int)) + shift_ids_v(
                pages_of(dv)->Some_0,
                off as int,
            ));
            assert(view_ids(pages@) == all_pages(ds.take(k as int + 1)));
        }
        next = next + span;
        proof {
            assert(scan_from(ds, k as int) == scan_from(ds, k as int + 1));
        }
        k = k + 1;
    }
    proof {
        assert(ds.take(docs@.len() as int) =~= ds);
    }
    if pages.len() as u64 > (i64::MAX as u64) {
        proof {
            assert(all_pages(ds).len() > i64::MAX as int);
            assert(scan_from(ds, ds.len() as int) == (OutcomeV::TooBig { k: ds.len() as int }));
        }
        return Err(MergeError::SaveError { cause: "the page count overflows".to_owned() });
    }
    proof {
        assert(merge_outcome(ds) is Good);
    }
    let pages_oid = ObjectId { num: next as u32, gen: 0 };
    let cat_oid = ObjectId { num: (next + 1) as u32, gen: 0 };
    proof {
        assert(pages_oid@ == pages_id(ds));
        assert(cat_oid@ == catalog_id(ds));
    }
    let ghost base = view_objs(merged@);
    let ghost ap = all_pages(ds);
    let mut p: usize = 0;
    proof {
        assert(ap.take(0) =~= Seq::<IdV>::empty());
    }
    while p < pages.len()
        invariant
            0 <= p <= pages@.len(),
            view_objs(merged@) == patch_all(base, ap.take(p as int), pages_id(ds)),
        decreases pages@.len() - p,
    {
        proof {
            assert(pages@[p as int]@ == ap[p as int]);
        }
        patch_parent(&mut merged, pages[p], pages_oid);
        proof {
            assert(ap.take(p as int + 1).drop_last() =~= ap.take(p as int));
            assert(ap.take(p as int + 1).last() == ap[p as int]);
        }
        p = p + 1;
    }
    proof {
        assert(ap.take(pages@.len() as int) =~= ap);
        assert(view_objs(merged@) == patch_all(base, ap, pages_id(ds)));
    }
    let kids = kids_array(&pages);
    let mut pd = PdfDict::new();
    pd.set_entry(mk_type(), PdfObject::Name(mk_pages()));
    pd.set_entry(mk_count(), PdfObject::Integer(pages.len() as i64));
    pd.set_entry(mk_kids(), kids);
    proof {
        reveal_with_fuel(dict_set_v, 5);
        assert(k_type() != k_count());
        assert(k_type() != k_kids()) by {
            assert(k_type()[0] == 'T' as u8);
            assert(k_kids()[0] == 'K' as u8);
        }
        assert(k_count() != k_kids());
        assert(pd@ =~= pages_dict_v(ds));
    }
    let mut cd = PdfDict::new();
    cd.set_entry(mk_type(), PdfObject::Name(mk_catalog()));
    cd.set_entry(mk_pages(), PdfObject::Ref(pages_oid));
    proof {
        reveal_with_fuel(dict_set_v, 5);
        assert(k_type() != k_pages());
        assert(cd@ =~= catalog_dict_v(ds));
    }
    let ghost patched = view_objs(merged@);
    merged.push((pages_oid, PdfObject::Dict(pd)));
    merged.push((cat_oid, PdfObject::Dict(cd)));
    let mut tr = PdfDict::new();
    tr.set_entry(mk_root(), PdfObject::Ref(cat_oid));
    proof {
        reveal_with_fuel(dict_set_v, 3);
        assert(tr@ =~= seq![(k_root(), ObjV::Ref(catalog_id(ds)))]);
    }
    let out = PdfDocument { objects: merged, trailer: tr };
    proof {
        assert(view_objs(out.objects@) =~= patched + seq![
            (pages_id(ds), ObjV::Dict(pages_dict_v(ds))),
            (catalog_id(ds), ObjV::Dict(catalog_dict_v(ds))),
        ]);
        assert(out@ =~= merged_doc(ds));
    }
    Ok(out)
}

} // verus!
