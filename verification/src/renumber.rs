//! Renumbering: shifting every identifier of a document by a fixed offset,
//! rewriting each reference consistently, so that independent documents can
//! share one identifier space.
use vstd::prelude::*;

use crate::object::{
    copy_bytes, lemma_entries_refs_in, lemma_list_refs_in, lemma_view_entries_index,
    lemma_view_entries_len, lemma_view_list_index, lemma_view_list_len, obj_refs_in, view_entries,
    view_list, IdV, ObjV, ObjectId, PdfDict, PdfObject,
};

verus! {

broadcast use vstd::std_specs::vec::group_vec_axioms;

/// The identifier shifted by `off`.
pub open spec fn shift_id(id: IdV, off: int) -> IdV {
    IdV { num: id.num + off, gen: id.gen }
}

/// The object with every reference inside it shifted by `off`.
pub open spec fn renum_obj_v(o: ObjV, off: int) -> ObjV
    decreases o,
{
    match o {
        ObjV::Array(items) => ObjV::Array(renum_list_v(items, off)),
        ObjV::Dict(es) => ObjV::Dict(renum_entries_v(es, off)),
        ObjV::Stream(es, c) => ObjV::Stream(renum_entries_v(es, off), c),
        ObjV::Ref(id) => ObjV::Ref(shift_id(id, off)),
        _ => o,
    }
}

/// Each object of the list with its references shifted by `off`.
pub open spec fn renum_list_v(items: Seq<ObjV>, off: int) -> Seq<ObjV>
    decreases items,
{
    if items.len() == 0 {
        Seq::empty()
    } else {
        seq![renum_obj_v(items[0], off)] + renum_list_v(items.drop_first(), off)
    }
}

/// Each entry value with its references shifted by `off`; names are kept.
pub open spec fn renum_entries_v(es: Seq<(Seq<u8>, ObjV)>, off: int) -> Seq<(Seq<u8>, ObjV)>
    decreases es,
{
    if es.len() == 0 {
        Seq::empty()
    } else {
        seq![(es[0].0, renum_obj_v(es[0].1, off))] + renum_entries_v(es.drop_first(), off)
    }
}

/// Renumbering a list keeps its length.
pub broadcast proof fn lemma_renum_list_len(items: Seq<ObjV>, off: int)
    ensures
        #[trigger] renum_list_v(items, off).len() == items.len(),
    decreases items.len(),
{
    if items.len() > 0 {
        lemma_renum_list_len(items.drop_first(), off);
    }
}

/// Renumbering a list acts pointwise.
pub broadcast proof fn lemma_renum_list_index(items: Seq<ObjV>, off: int, i: int)
    requires
        0 <= i < items.len(),
    ensures
        #[trigger] renum_list_v(items, off)[i] == renum_obj_v(items[i], off),
    decreases items.len(),
{
    lemma_renum_list_len(items, off);
    if i > 0 {
        lemma_renum_list_index(items.drop_first(), off, i - 1);
    }
}

/// Renumbering entries keeps their number.
pub broadcast proof fn lemma_renum_entries_len(es: Seq<(Seq<u8>, ObjV)>, off: int)
    ensures
        #[trigger] renum_entries_v(es, off).len() == es.len(),
    decreases es.len(),
{
    if es.len() > 0 {
        lemma_renum_entries_len(es.drop_first(), off);
    }
}

/// Renumbering entries acts pointwise and keeps the names.
pub broadcast proof fn lemma_renum_entries_index(es: Seq<(Seq<u8>, ObjV)>, off: int, i: int)
    requires
        0 <= i < es.len(),
    ensures
        #[trigger] renum_entries_v(es, off)[i] == (es[i].0, renum_obj_v(es[i].1, off)),
    decreases es.len(),
{
    lemma_renum_entries_len(es, off);
    if i > 0 {
        lemma_renum_entries_index(es.drop_first(), off, i - 1);
    }
}

/// The object with every reference shifted, built executably.
#[verifier::loop_isolation(false)]
pub fn renum_obj(o: &PdfObject, off: i64, Ghost(ids): Ghost<Set<IdV>>) -> (r: PdfObject)
    requires
        obj_refs_in(o@, ids),
        forall|id: IdV| ids.contains(id) ==> 1 <= id.num + off <= u32::MAX,
        -4294967296 <= off <= 4294967296,
    ensures
        r@ == renum_obj_v(o@, off as int),
    decreases o,
{
    match o {
        PdfObject::Null => PdfObject::Null,
        PdfObject::Boolean(b) => PdfObject::Boolean(*b),
        PdfObject::Integer(i) => PdfObject::Integer(*i),
        PdfObject::Real(t) => PdfObject::Real(copy_bytes(t)),
        PdfObject::Name(n) => PdfObject::Name(copy_bytes(n)),
        PdfObject::Text(t, f) => PdfObject::Text(copy_bytes(t), *f),
        PdfObject::Array(items) => {
            let mut out: Vec<PdfObject> = Vec::new();
            let mut i: usize = 0;
            proof {
                lemma_view_list_len(items@);
            }
            while i < items.len()
                invariant
                    0 <= i <= items@.len(),
                    view_list(items@).len() == items@.len(),
                    obj_refs_in(ObjV::Array(view_list(items@)), ids),
                    forall|id: IdV| ids.contains(id) ==> 1 <= id.num + off <= u32::MAX,
                    -4294967296 <= off <= 4294967296,
                    o@ == ObjV::Array(view_list(items@)),
                    out@.len() == i,
                    forall|j: int|
                        0 <= j < i ==> (#[trigger] out@[j])@ == renum_obj_v(
                            view_list(items@)[j],
                            off as int,
                        ),
                decreases items@.len() - i,
            {
                proof {
                    lemma_view_list_index(items@, i as int);
                    lemma_list_refs_in(view_list(items@), ids);
                    assert(obj_refs_in(view_list(items@)[i as int], ids));
                }
                let e = renum_obj(&items[i], off, Ghost(ids));
                out.push(e);
                i = i + 1;
            }
            proof {
                lemma_view_list_len(out@);
                lemma_renum_list_len(view_list(items@), off as int);
                assert forall|j: int| 0 <= j < out@.len() implies view_list(out@)[j]
                    == renum_list_v(view_list(items@), off as int)[j] by {
                    lemma_view_list_index(out@, j);
                    lemma_renum_list_index(view_list(items@), off as int, j);
                }
                assert(view_list(out@) =~= renum_list_v(view_list(items@), off as int));
            }
            PdfObject::Array(out)
        },
        PdfObject::Dict(d) => {
            proof {
                lemma_entries_refs_in(view_entries(d.entries@), ids);
            }
            PdfObject::Dict(renum_dict(d, off, Ghost(ids)))
        },
        PdfObject::Stream(d, c) => {
            proof {
                lemma_entries_refs_in(view_entries(d.entries@), ids);
            }
            PdfObject::Stream(renum_dict(d, off, Ghost(ids)), copy_bytes(c))
        },
        PdfObject::Ref(id) => {
            proof {
                assert(ids.contains(id@));
            }
            let n: i64 = id.num as i64 + off;
            PdfObject::Ref(ObjectId { num: n as u32, gen: id.gen })
        },
    }
}

/// The dictionary with every reference inside its values shifted.
#[verifier::loop_isolation(false)]
fn renum_dict(d: &PdfDict, off: i64, Ghost(ids): Ghost<Set<IdV>>) -> (r: PdfDict)
    requires
        forall|i: int|
            0 <= i < view_entries(d.entries@).len() ==> obj_refs_in(
                (#[trigger] view_entries(d.entries@)[i]).1,
                ids,
            ),
        forall|id: IdV| ids.contains(id) ==> 1 <= id.num + off <= u32::MAX,
        -4294967296 <= off <= 4294967296,
    ensures
        r@ == renum_entries_v(view_entries(d.entries@), off as int),
    decreases d,
{
    let mut out: Vec<(Vec<u8>, PdfObject)> = Vec::new();
    let mut i: usize = 0;
    proof {
        lemma_view_entries_len(d.entries@);
    }
    while i < d.entries.len()
        invariant
            0 <= i <= d.entries@.len(),
            view_entries(d.entries@).len() == d.entries@.len(),
            forall|k: int|
                0 <= k < view_entries(d.entries@).len() ==> obj_refs_in(
                    (#[trigger] view_entries(d.entries@)[k]).1,
                    ids,
                ),
            forall|id: IdV| ids.contains(id) ==> 1 <= id.num + off <= u32::MAX,
            -4294967296 <= off <= 4294967296,
            out@.len() == i,
            forall|j: int|
                0 <= j < i ==> (#[trigger] view_entries(out@)[j]) == (
                view_entries(d.entries@)[j].0,
                renum_obj_v(view_entries(d.entries@)[j].1, off as int),
                ),
            view_entries(out@).len() == out@.len(),
        decreases d.entries@.len() - i,
    {
        proof {
            lemma_view_entries_index(d.entries@, i as int);
        }
        let key = copy_bytes(&d.entries[i].0);
        let val = renum_obj(&d.entries[i].1, off, Ghost(ids));
        let ghost pre = out@;
        out.push((key, val));
        proof {
            lemma_view_entries_len(out@);
            assert forall|j: int| 0 <= j < i + 1 implies (#[trigger] view_entries(out@)[j]) == (
            view_entries(d.entries@)[j].0,
            renum_obj_v(view_entries(d.entries@)[j].1, off as int),
            ) by {
                lemma_view_entries_index(out@, j);
                if j < i {
                    lemma_view_entries_index(pre, j);
                }
                lemma_view_entries_index(d.entries@, j);
            }
        }
        i = i + 1;
    }
    proof {
        lemma_renum_entries_len(view_entries(d.entries@), off as int);
        assert forall|j: int| 0 <= j < out@.len() implies view_entries(out@)[j]
            == renum_entries_v(view_entries(d.entries@), off as int)[j] by {
            lemma_renum_entries_index(view_entries(d.entries@), off as int, j);
        }
        assert(view_entries(out@) =~= renum_entries_v(view_entries(d.entries@), off as int));
    }
    PdfDict { entries: out }
}

} // verus!
