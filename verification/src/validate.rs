//! Deciding whether a loaded document satisfies the model's invariants:
//! unique identifiers, object numbers at least 1, and no dangling references.
use vstd::prelude::*;

use crate::object::{
    doc_closed, doc_wf, has_id, id_set, lemma_entries_refs_in, lemma_list_refs_in,
    lemma_view_entries_index, lemma_view_entries_len, lemma_view_list_index, lemma_view_list_len,
    obj_refs_in, view_entries, view_list, view_objs, IdV, ObjV, ObjectId, PdfDocument, PdfObject,
};

verus! {

broadcast use vstd::std_specs::vec::group_vec_axioms;

/// Whether some binding carries the identifier, decided by scanning.
#[verifier::loop_isolation(false)]
pub fn contains_id(objs: &Vec<(ObjectId, PdfObject)>, id: ObjectId) -> (r: bool)
    ensures
        r == has_id(view_objs(objs@), id@),
{
    let mut i: usize = 0;
    while i < objs.len()
        invariant
            0 <= i <= objs@.len(),
            forall|j: int| 0 <= j < i ==> view_objs(objs@)[j].0 != id@,
        decreases objs@.len() - i,
    {
        if objs[i].0 == id {
            proof {
                assert(view_objs(objs@)[i as int].0 == id@);
            }
            return true;
        }
        i = i + 1;
    }
    false
}

/// Whether every reference inside `o` resolves in `objs`, decided by
/// scanning; mirrors `obj_refs_in`.
#[verifier::loop_isolation(false)]
pub fn check_object_refs(o: &PdfObject, objs: &Vec<(ObjectId, PdfObject)>) -> (r: bool)
    ensures
        r == obj_refs_in(o@, id_set(view_objs(objs@))),
    decreases o,
{
    let ghost idsg = id_set(view_objs(objs@));
    match o {
        PdfObject::Null => {
            proof {
                assert(obj_refs_in(o@, idsg));
            }
            true
        },
        PdfObject::Boolean(_b) => {
            proof {
                assert(obj_refs_in(o@, idsg));
            }
            true
        },
        PdfObject::Integer(_i) => {
            proof {
                assert(obj_refs_in(o@, idsg));
            }
            true
        },
        PdfObject::Real(_t) => {
            proof {
                assert(obj_refs_in(o@, idsg));
            }
            true
        },
        PdfObject::Name(_n) => {
            proof {
                assert(obj_refs_in(o@, idsg));
            }
            true
        },
        PdfObject::Text(_t, _f) => {
            proof {
                assert(obj_refs_in(o@, idsg));
            }
            true
        },
        PdfObject::Ref(id) => {
            let b = contains_id(objs, *id);
            proof {
                assert(o@ == ObjV::Ref(id@));
                assert(obj_refs_in(o@, idsg) == idsg.contains(id@));
                assert(idsg.contains(id@) == has_id(view_objs(objs@), id@));
            }
            b
        },
        PdfObject::Array(items) => {
            let mut i: usize = 0;
            proof {
                lemma_view_list_len(items@);
            }
            while i < items.len()
                invariant
                    0 <= i <= items@.len(),
                    forall|j: int|
                        0 <= j < i ==> obj_refs_in(#[trigger] view_list(items@)[j], idsg),
                decreases items@.len() - i,
            {
                proof {
                    lemma_view_list_index(items@, i as int);
                }
                if !check_object_refs(&items[i], objs) {
                    proof {
                        assert(!obj_refs_in(view_list(items@)[i as int], idsg));
                        assert(o@ == ObjV::Array(view_list(items@)));
                        lemma_list_refs_in(view_list(items@), idsg);
                        assert(!obj_refs_in(o@, idsg));
                    }
                    return false;
                }
                i = i + 1;
            }
            proof {
                assert(o@ == ObjV::Array(view_list(items@)));
                lemma_list_refs_in(view_list(items@), idsg);
                assert(obj_refs_in(o@, idsg));
            }
            true
        },
        PdfObject::Dict(d) => {
            let b = check_entries_refs(&d.entries, objs);
            proof {
                assert(o@ == ObjV::Dict(view_entries(d.entries@)));
                lemma_entries_refs_in(view_entries(d.entries@), idsg);
                assert(b == obj_refs_in(o@, idsg));
            }
            b
        },
        PdfObject::Stream(d, _c) => {
            let b = check_entries_refs(&d.entries, objs);
            proof {
                assert(o@ == ObjV::Stream(view_entries(d.entries@), _c@));
                lemma_entries_refs_in(view_entries(d.entries@), idsg);
                assert(b == obj_refs_in(o@, idsg));
            }
            b
        },
    }
}

/// Whether every reference inside the entry values resolves in `objs`.
#[verifier::loop_isolation(false)]
fn check_entries_refs(entries: &Vec<(Vec<u8>, PdfObject)>, objs: &Vec<(ObjectId, PdfObject)>) -> (r:
    bool)
    ensures
        r == (forall|j: int|
            0 <= j < view_entries(entries@).len() ==> obj_refs_in(
                (#[trigger] view_entries(entries@)[j]).1,
                id_set(view_objs(objs@)),
            )),
    decreases entries,
{
    let mut i: usize = 0;
    proof {
        lemma_view_entries_len(entries@);
    }
    while i < entries.len()
        invariant
            0 <= i <= entries@.len(),
            forall|j: int|
                0 <= j < i ==> obj_refs_in(
                    (#[trigger] view_entries(entries@)[j]).1,
                    id_set(view_objs(objs@)),
                ),
        decreases entries@.len() - i,
    {
        proof {
            lemma_view_entries_index(entries@, i as int);
        }
        if !check_object_refs(&entries[i].1, objs) {
            proof {
                assert(!obj_refs_in(view_entries(entries@)[i as int].1, id_set(view_objs(objs@))));
            }
            return false;
        }
        i = i + 1;
    }
    true
}

/// Whether the document satisfies the model's invariants: identifiers unique
/// and at least 1, and every reference in the graph and the trailer resolved.
#[verifier::loop_isolation(false)]
pub fn check_document(doc: &PdfDocument) -> (r: bool)
    ensures
        r == (doc_wf(doc@) && doc_closed(doc@)),
{
    let n = doc.objects.len();
    let mut i: usize = 0;
    while i < n
        invariant
            0 <= i <= doc.objects@.len(),
            n == doc.objects@.len(),
            forall|a: int, b: int|
                0 <= a < b < doc.objects@.len() && a < i ==> view_objs(doc.objects@)[a].0
                    != view_objs(doc.objects@)[b].0,
            forall|a: int| 0 <= a < i ==> 1 <= (#[trigger] view_objs(doc.objects@)[a]).0.num,
            forall|a: int|
                0 <= a < i ==> obj_refs_in(
                    (#[trigger] view_objs(doc.objects@)[a]).1,
                    id_set(view_objs(doc.objects@)),
                ),
        decreases doc.objects@.len() - i,
    {
        if doc.objects[i].0.num < 1 {
            proof {
                assert(view_objs(doc.objects@)[i as int].0.num < 1);
                assert(doc@.objects == view_objs(doc.objects@));
                assert(!doc_wf(doc@));
            }
            return false;
        }
        let mut j: usize = i + 1;
        while j < n
            invariant
                i < j <= doc.objects@.len(),
                n == doc.objects@.len(),
                forall|b: int|
                    i < b < j ==> view_objs(doc.objects@)[i as int].0 != (#[trigger] view_objs(
                        doc.objects@,
                    )[b]).0,
            decreases doc.objects@.len() - j,
        {
            if doc.objects[i].0 == doc.objects[j].0 {
                proof {
                    assert(view_objs(doc.objects@)[i as int].0 == view_objs(doc.objects@)[
                    j as int].0);
                    assert(doc@.objects == view_objs(doc.objects@));
                    assert(!crate::object::unique_ids(doc@.objects));
                    assert(!doc_wf(doc@));
                }
                return false;
            }
            j = j + 1;
        }
        if !check_object_refs(&doc.objects[i].1, &doc.objects) {
            proof {
                assert(doc@.objects == view_objs(doc.objects@));
                assert(doc.objects@[i as int].1@ == view_objs(doc.objects@)[i as int].1);
                assert(!obj_refs_in(view_objs(doc.objects@)[i as int].1, id_set(view_objs(doc.objects@))));
                assert(!doc_closed(doc@)) by {
                    if doc_closed(doc@) {
                        assert(obj_refs_in(
                            doc@.objects[i as int].1,
                            id_set(doc@.objects),
                        ));
                    }
                }
            }
            return false;
        }
        i = i + 1;
    }
    let mut t: usize = 0;
    proof {
        lemma_view_entries_len(doc.trailer.entries@);
    }
    while t < doc.trailer.entries.len()
        invariant
            0 <= t <= doc.trailer.entries@.len(),
            doc_wf(doc@),
            forall|a: int|
                0 <= a < doc.objects@.len() ==> obj_refs_in(
                    (#[trigger] view_objs(doc.objects@)[a]).1,
                    id_set(view_objs(doc.objects@)),
                ),
            forall|a: int|
                0 <= a < t ==> obj_refs_in(
                    (#[trigger] view_entries(doc.trailer.entries@)[a]).1,
                    id_set(view_objs(doc.objects@)),
                ),
        decreases doc.trailer.entries@.len() - t,
    {
        proof {
            lemma_view_entries_index(doc.trailer.entries@, t as int);
        }
        if !check_object_refs(&doc.trailer.entries[t].1, &doc.objects) {
            proof {
                assert(doc.trailer.entries@[t as int].1@ == view_entries(doc.trailer.entries@)[
                t as int].1);
                assert(!obj_refs_in(
                    view_entries(doc.trailer.entries@)[t as int].1,
                    id_set(view_objs(doc.objects@)),
                ));
                assert(doc@.trailer == view_entries(doc.trailer.entries@));
                assert(!doc_closed(doc@)) by {
                    if doc_closed(doc@) {
                        assert(obj_refs_in(
                            doc@.trailer[t as int].1,
                            id_set(doc@.objects),
                        ));
                    }
                }
            }
            return false;
        }
        t = t + 1;
    }
    true
}

} // verus!
