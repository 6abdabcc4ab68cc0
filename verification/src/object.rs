//! The in-memory model of a PDF document: an identifier-indexed object graph
//! together with a trailer dictionary.
use vstd::prelude::*;

verus! {

broadcast use vstd::std_specs::vec::group_vec_axioms;

/// An indirect-object identifier: an object number (at least 1 in a
/// well-formed document) together with a generation number.
#[derive(Clone, Copy, PartialEq, Eq, Structural, Debug)]
pub struct ObjectId {
    pub num: u32,
    pub gen: u16,
}

/// The mathematical value of an `ObjectId`.
#[verifier::ext_equal]
pub struct IdV {
    pub num: int,
    pub gen: int,
}

impl View for ObjectId {
    type V = IdV;

    open spec fn view(&self) -> IdV {
        IdV { num: self.num as int, gen: self.gen as int }
    }
}

/// The two serialized forms a PDF string object can take.
#[derive(Clone, Copy, PartialEq, Eq, Structural, Debug)]
pub enum TextFormat {
    Literal,
    Hexadecimal,
}

/// A PDF object value.  A `Real` keeps the decimal text of the number: the
/// merge never computes with it, it only carries it through.
#[derive(Debug)]
pub enum PdfObject {
    Null,
    Boolean(bool),
    Integer(i64),
    Real(Vec<u8>),
    Name(Vec<u8>),
    Text(Vec<u8>, TextFormat),
    Array(Vec<PdfObject>),
    Dict(PdfDict),
    Stream(PdfDict, Vec<u8>),
    Ref(ObjectId),
}

/// A dictionary: an ordered list of (name, value) entries.
#[derive(Debug)]
pub struct PdfDict {
    pub entries: Vec<(Vec<u8>, PdfObject)>,
}

/// A document: the object graph plus the trailer dictionary.
#[derive(Debug)]
pub struct PdfDocument {
    pub objects: Vec<(ObjectId, PdfObject)>,
    pub trailer: PdfDict,
}

/// The mathematical value of a `PdfObject`.
#[verifier::ext_equal]
pub enum ObjV {
    Null,
    Boolean(bool),
    Integer(i64),
    Real(Seq<u8>),
    Name(Seq<u8>),
    Text(Seq<u8>, TextFormat),
    Array(Seq<ObjV>),
    Dict(Seq<(Seq<u8>, ObjV)>),
    Stream(Seq<(Seq<u8>, ObjV)>, Seq<u8>),
    Ref(IdV),
}

/// The mathematical value of a `PdfDocument`.
#[verifier::ext_equal]
pub struct DocV {
    pub objects: Seq<(IdV, ObjV)>,
    pub trailer: Seq<(Seq<u8>, ObjV)>,
}

impl PdfObject {
    /// The mathematical value of this object.
    pub open spec fn value(self) -> ObjV
        decreases self,
    {
        match self {
            PdfObject::Null => ObjV::Null,
            PdfObject::Boolean(b) => ObjV::Boolean(b),
            PdfObject::Integer(i) => ObjV::Integer(i),
            PdfObject::Real(t) => ObjV::Real(t@),
            PdfObject::Name(n) => ObjV::Name(n@),
            PdfObject::Text(t, f) => ObjV::Text(t@, f),
            PdfObject::Array(items) => ObjV::Array(view_list(items@)),
            PdfObject::Dict(d) => ObjV::Dict(view_entries(d.entries@)),
            PdfObject::Stream(d, c) => ObjV::Stream(view_entries(d.entries@), c@),
            PdfObject::Ref(id) => ObjV::Ref(id@),
        }
    }
}

impl View for PdfObject {
    type V = ObjV;

    open spec fn view(&self) -> ObjV {
        self.value()
    }
}

/// The values of a list of objects.
pub open spec fn view_list(items: Seq<PdfObject>) -> Seq<ObjV>
    decreases items,
{
    if items.len() == 0 {
        Seq::empty()
    } else {
        seq![items[0].value()] + view_list(items.drop_first())
    }
}

/// The values of a dictionary's entries.
pub open spec fn view_entries(entries: Seq<(Vec<u8>, PdfObject)>) -> Seq<(Seq<u8>, ObjV)>
    decreases entries,
{
    if entries.len() == 0 {
        Seq::empty()
    } else {
        seq![(entries[0].0@, entries[0].1.value())] + view_entries(entries.drop_first())
    }
}

/// Lengths agree between a list of objects and its value.
pub broadcast proof fn lemma_view_list_len(items: Seq<PdfObject>)
    ensures
        #[trigger] view_list(items).len() == items.len(),
    decreases items.len(),
{
    if items.len() > 0 {
        lemma_view_list_len(items.drop_first());
    }
}

/// The value of a list of objects is pointwise the value of its elements.
pub broadcast proof fn lemma_view_list_index(items: Seq<PdfObject>, i: int)
    requires
        0 <= i < items.len(),
    ensures
        #[trigger] view_list(items)[i] == items[i].value(),
    decreases items.len(),
{
    lemma_view_list_len(items);
    if i > 0 {
        lemma_view_list_index(items.drop_first(), i - 1);
    }
}

/// Lengths agree between dictionary entries and their value.
pub broadcast proof fn lemma_view_entries_len(entries: Seq<(Vec<u8>, PdfObject)>)
    ensures
        #[trigger] view_entries(entries).len() == entries.len(),
    decreases entries.len(),
{
    if entries.len() > 0 {
        lemma_view_entries_len(entries.drop_first());
    }
}

/// The value of dictionary entries is pointwise the value of the pairs.
pub broadcast proof fn lemma_view_entries_index(entries: Seq<(Vec<u8>, PdfObject)>, i: int)
    requires
        0 <= i < entries.len(),
    ensures
        #[trigger] view_entries(entries)[i] == (entries[i].0@, entries[i].1.value()),
    decreases entries.len(),
{
    lemma_view_entries_len(entries);
    if i > 0 {
        lemma_view_entries_index(entries.drop_first(), i - 1);
    }
}

impl View for PdfDict {
    type V = Seq<(Seq<u8>, ObjV)>;

    open spec fn view(&self) -> Seq<(Seq<u8>, ObjV)> {
        view_entries(self.entries@)
    }
}

/// The values of a graph's bindings.
pub open spec fn view_objs(objs: Seq<(ObjectId, PdfObject)>) -> Seq<(IdV, ObjV)> {
    Seq::new(objs.len(), |i: int| (objs[i].0@, objs[i].1.value()))
}

/// The values of a list of identifiers.
pub open spec fn view_ids(ids: Seq<ObjectId>) -> Seq<IdV> {
    Seq::new(ids.len(), |i: int| ids[i]@)
}

impl View for PdfDocument {
    type V = DocV;

    open spec fn view(&self) -> DocV {
        DocV {
            objects: view_objs(self.objects@),
            trailer: view_entries(self.trailer.entries@),
        }
    }
}

/// Value of the first entry with the given name, if any.
pub open spec fn dict_get_v(es: Seq<(Seq<u8>, ObjV)>, key: Seq<u8>) -> Option<ObjV>
    decreases es.len(),
{
    if es.len() == 0 {
        None
    } else if es[0].0 == key {
        Some(es[0].1)
    } else {
        dict_get_v(es.drop_first(), key)
    }
}

/// The entries with the first entry named `key` replaced by (`key`, `val`),
/// or with (`key`, `val`) appended when no entry has that name.
pub open spec fn dict_set_v(es: Seq<(Seq<u8>, ObjV)>, key: Seq<u8>, val: ObjV) -> Seq<(Seq<u8>, ObjV)>
    decreases es.len(),
{
    if es.len() == 0 {
        seq![(key, val)]
    } else if es[0].0 == key {
        seq![(key, val)] + es.drop_first()
    } else {
        seq![es[0]] + dict_set_v(es.drop_first(), key, val)
    }
}

/// The object stored under `id`: the first binding, which is the only one in
/// a well-formed document.
pub open spec fn map_get_v(objs: Seq<(IdV, ObjV)>, id: IdV) -> Option<ObjV>
    decreases objs.len(),
{
    if objs.len() == 0 {
        None
    } else if objs[0].0 == id {
        Some(objs[0].1)
    } else {
        map_get_v(objs.drop_first(), id)
    }
}

/// Whether some object is stored under `id`.
pub open spec fn has_id(objs: Seq<(IdV, ObjV)>, id: IdV) -> bool {
    exists|i: int| 0 <= i < objs.len() && objs[i].0 == id
}

/// The set of identifiers bound in the graph.
pub open spec fn id_set(objs: Seq<(IdV, ObjV)>) -> Set<IdV> {
    Set::new(|id: IdV| has_id(objs, id))
}

/// Each identifier is bound at most once.
pub open spec fn unique_ids(objs: Seq<(IdV, ObjV)>) -> bool {
    forall|i: int, j: int| 0 <= i < j < objs.len() ==> objs[i].0 != objs[j].0
}

/// Every reference inside `o` lies in `ids`.
pub open spec fn obj_refs_in(o: ObjV, ids: Set<IdV>) -> bool
    decreases o,
{
    match o {
        ObjV::Ref(id) => ids.contains(id),
        ObjV::Array(items) => list_refs_in(items, ids),
        ObjV::Dict(es) => entries_refs_in(es, ids),
        ObjV::Stream(es, _c) => entries_refs_in(es, ids),
        _ => true,
    }
}

/// Every reference inside any object of the list lies in `ids`.
pub open spec fn list_refs_in(items: Seq<ObjV>, ids: Set<IdV>) -> bool
    decreases items,
{
    items.len() == 0 || (obj_refs_in(items[0], ids) && list_refs_in(items.drop_first(), ids))
}

/// Every reference inside any entry value lies in `ids`.
pub open spec fn entries_refs_in(es: Seq<(Seq<u8>, ObjV)>, ids: Set<IdV>) -> bool
    decreases es,
{
    es.len() == 0 || (obj_refs_in(es[0].1, ids) && entries_refs_in(es.drop_first(), ids))
}

/// The list condition, spelled out pointwise.
pub proof fn lemma_list_refs_in(items: Seq<ObjV>, ids: Set<IdV>)
    ensures
        list_refs_in(items, ids) == (forall|j: int|
            0 <= j < items.len() ==> obj_refs_in(#[trigger] items[j], ids)),
    decreases items.len(),
{
    if items.len() > 0 {
        lemma_list_refs_in(items.drop_first(), ids);
        if list_refs_in(items, ids) {
            assert forall|j: int| 0 <= j < items.len() implies obj_refs_in(
                #[trigger] items[j],
                ids,
            ) by {
                if j > 0 {
                    assert(items.drop_first()[j - 1] == items[j]);
                    assert(obj_refs_in(items.drop_first()[j - 1], ids));
                }
            }
        }
        if forall|j: int| 0 <= j < items.len() ==> obj_refs_in(#[trigger] items[j], ids) {
            assert forall|j: int| 0 <= j < items.drop_first().len() implies obj_refs_in(
                #[trigger] items.drop_first()[j],
                ids,
            ) by {
                assert(items.drop_first()[j] == items[j + 1]);
            }
            assert(obj_refs_in(items[0], ids));
        }
    }
}

/// The entries condition, spelled out pointwise.
pub proof fn lemma_entries_refs_in(es: Seq<(Seq<u8>, ObjV)>, ids: Set<IdV>)
    ensures
        entries_refs_in(es, ids) == (forall|j: int|
            0 <= j < es.len() ==> obj_refs_in((#[trigger] es[j]).1, ids)),
    decreases es.len(),
{
    if es.len() > 0 {
        lemma_entries_refs_in(es.drop_first(), ids);
        if entries_refs_in(es, ids) {
            assert forall|j: int| 0 <= j < es.len() implies obj_refs_in(
                (#[trigger] es[j]).1,
                ids,
            ) by {
                if j > 0 {
                    assert(es.drop_first()[j - 1] == es[j]);
                    assert(obj_refs_in(es.drop_first()[j - 1].1, ids));
                }
            }
        }
        if forall|j: int| 0 <= j < es.len() ==> obj_refs_in((#[trigger] es[j]).1, ids) {
            assert forall|j: int| 0 <= j < es.drop_first().len() implies obj_refs_in(
                (#[trigger] es.drop_first()[j]).1,
                ids,
            ) by {
                assert(es.drop_first()[j] == es[j + 1]);
            }
            assert(obj_refs_in(es[0].1, ids));
        }
    }
}

/// Basic well-formedness of a document: identifiers are unique and object
/// numbers are at least 1.
pub open spec fn doc_wf(d: DocV) -> bool {
    &&& unique_ids(d.objects)
    &&& forall|i: int| 0 <= i < d.objects.len() ==> 1 <= (#[trigger] d.objects[i].0).num
}

/// No dangling references: every reference in any object or in the trailer
/// resolves to an identifier bound in the graph.
pub open spec fn doc_closed(d: DocV) -> bool {
    &&& forall|i: int|
        0 <= i < d.objects.len() ==> obj_refs_in((#[trigger] d.objects[i].1), id_set(d.objects))
    &&& forall|i: int|
        0 <= i < d.trailer.len() ==> obj_refs_in((#[trigger] d.trailer[i].1), id_set(d.objects))
}

/// Byte-sequence equality, decided by scanning.
pub fn bytes_eq(a: &[u8], b: &[u8]) -> (r: bool)
    ensures
        r == (a@ == b@),
{
    if a.len() != b.len() {
        proof {
            assert(a@.len() != b@.len());
        }
        return false;
    }
    let mut i: usize = 0;
    while i < a.len()
        invariant
            0 <= i <= a@.len(),
            a@.len() == b@.len(),
            forall|j: int| 0 <= j < i ==> a@[j] == b@[j],
        decreases a@.len() - i,
    {
        if a[i] != b[i] {
            return false;
        }
        i = i + 1;
    }
    proof {
        assert(a@ =~= b@);
    }
    true
}

/// A copy of a byte vector.
pub fn copy_bytes(v: &Vec<u8>) -> (r: Vec<u8>)
    ensures
        r@ == v@,
{
    let mut r: Vec<u8> = Vec::new();
    let mut i: usize = 0;
    while i < v.len()
        invariant
            0 <= i <= v@.len(),
            r@ == v@.take(i as int),
        decreases v@.len() - i,
    {
        r.push(v[i]);
        proof {
            assert(r@ =~= v@.take(i + 1 as int));
        }
        i = i + 1;
    }
    proof {
        assert(v@.take(v@.len() as int) =~= v@);
    }
    r
}

/// If no entry among the first `n` has name `key`, the lookup is decided by
/// the rest of the entries.
pub proof fn lemma_dict_get_skip(es: Seq<(Seq<u8>, ObjV)>, key: Seq<u8>, n: int)
    requires
        0 <= n <= es.len(),
        forall|j: int| 0 <= j < n ==> es[j].0 != key,
    ensures
        dict_get_v(es, key) == dict_get_v(es.skip(n), key),
    decreases n,
{
    if n > 0 {
        assert(es.drop_first().skip(n - 1) =~= es.skip(n));
        lemma_dict_get_skip(es.drop_first(), key, n - 1);
    } else {
        assert(es.skip(0) =~= es);
    }
}

/// If no binding among the first `n` is for `id`, the lookup is decided by
/// the rest of the bindings.
pub proof fn lemma_map_get_skip(objs: Seq<(IdV, ObjV)>, id: IdV, n: int)
    requires
        0 <= n <= objs.len(),
        forall|j: int| 0 <= j < n ==> objs[j].0 != id,
    ensures
        map_get_v(objs, id) == map_get_v(objs.skip(n), id),
    decreases n,
{
    if n > 0 {
        assert(objs.drop_first().skip(n - 1) =~= objs.skip(n));
        lemma_map_get_skip(objs.drop_first(), id, n - 1);
    } else {
        assert(objs.skip(0) =~= objs);
    }
}

impl PdfDict {
    /// An empty dictionary.
    pub fn new() -> (r: PdfDict)
        ensures
            r@ =~= Seq::<(Seq<u8>, ObjV)>::empty(),
    {
        PdfDict { entries: Vec::new() }
    }

    /// Look the name up, returning a reference to the first matching value.
    pub fn get<'a>(&'a self, key: &[u8]) -> (r: Option<&'a PdfObject>)
        ensures
            match r {
                Some(o) => dict_get_v(self@, key@) == Some(o@),
                None => dict_get_v(self@, key@) is None,
            },
    {
        broadcast use lemma_view_entries_len, lemma_view_entries_index;

        let mut i: usize = 0;
        while i < self.entries.len()
            invariant
                0 <= i <= self.entries@.len(),
                self@.len() == self.entries@.len(),
                forall|j: int| 0 <= j < i ==> self@[j].0 != key@,
            decreases self.entries@.len() - i,
        {
            if bytes_eq(self.entries[i].0.as_slice(), key) {
                proof {
                    lemma_view_entries_len(self.entries@);
                    lemma_view_entries_index(self.entries@, i as int);
                    lemma_dict_get_skip(self@, key@, i as int);
                    assert(self@.skip(i as int)[0] == self@[i as int]);
                }
                return Some(&self.entries[i].1);
            }
            proof {
                lemma_view_entries_len(self.entries@);
                lemma_view_entries_index(self.entries@, i as int);
                assert(self@[i as int].0 == self.entries@[i as int].0@);
            }
            i = i + 1;
        }
        proof {
            lemma_dict_get_skip(self@, key@, self@.len() as int);
            assert(self@.skip(self@.len() as int) =~= Seq::<(Seq<u8>, ObjV)>::empty());
        }
        None
    }

    /// Set the entry for `key` to `val`: replaced in place when present,
    /// appended otherwise.
    pub fn set_entry(&mut self, key: Vec<u8>, val: PdfObject)
        ensures
            final(self)@ == dict_set_v(old(self)@, key@, val@),
    {
        let ghost old_es = self@;
        proof {
            lemma_view_entries_len(self.entries@);
        }
        let mut i: usize = 0;
        while i < self.entries.len()
            invariant
                0 <= i <= self.entries@.len(),
                *self == *old(self),
                old_es == self@,
                old_es.len() == self.entries@.len(),
                forall|j: int| 0 <= j < i ==> old_es[j].0 != key@,
            decreases self.entries@.len() - i,
        {
            proof {
                lemma_view_entries_len(self.entries@);
                lemma_view_entries_index(self.entries@, i as int);
            }
            if bytes_eq(self.entries[i].0.as_slice(), key.as_slice()) {
                proof {
                    assert(old_es[i as int].0 == key@);
                }
                let ghost gi = i as int;
                let ghost pre = self.entries@;
                self.entries.set(i, (key, val));
                proof {
                    lemma_dict_set_prefix(old_es, key@, val@, gi);
                    lemma_view_entries_len(self.entries@);
                    assert forall|j: int| 0 <= j < self.entries@.len() implies view_entries(
                        self.entries@,
                    )[j] == (old_es.take(gi) + seq![(key@, val@)] + old_es.skip(gi + 1))[j] by {
                        lemma_view_entries_index(self.entries@, j);
                        if j != gi {
                            lemma_view_entries_index(pre, j);
                        }
                    }
                    assert(view_entries(self.entries@) =~= old_es.take(gi) + seq![(key@, val@)]
                        + old_es.skip(gi + 1));
                }
                return ;
            }
            proof {
                assert(old_es[i as int].0 == self.entries@[i as int].0@);
            }
            i = i + 1;
        }
        let ghost pre = self.entries@;
        self.entries.push((key, val));
        proof {
            lemma_dict_set_append(old_es, key@, val@);
            lemma_view_entries_len(self.entries@);
            assert forall|j: int| 0 <= j < self.entries@.len() implies view_entries(
                self.entries@,
            )[j] == (old_es + seq![(key@, val@)])[j] by {
                lemma_view_entries_index(self.entries@, j);
                if j < pre.len() {
                    lemma_view_entries_index(pre, j);
                }
            }
            assert(view_entries(self.entries@) =~= old_es + seq![(key@, val@)]);
        }
    }
}

/// Setting a name that occurs first at position `n` rewrites exactly that
/// entry.
pub proof fn lemma_dict_set_prefix(es: Seq<(Seq<u8>, ObjV)>, key: Seq<u8>, val: ObjV, n: int)
    requires
        0 <= n < es.len(),
        forall|j: int| 0 <= j < n ==> es[j].0 != key,
        es[n].0 == key,
    ensures
        dict_set_v(es, key, val) == es.take(n) + seq![(key, val)] + es.skip(n + 1),
    decreases n,
{
    if n == 0 {
        assert(dict_set_v(es, key, val) == seq![(key, val)] + es.drop_first());
        assert(seq![(key, val)] + es.drop_first() =~= es.take(0) + seq![(key, val)] + es.skip(1));
    } else {
        lemma_dict_set_prefix(es.drop_first(), key, val, n - 1);
        assert(es.drop_first().take(n - 1) =~= es.take(n).drop_first());
        assert(es.drop_first().skip(n) =~= es.skip(n + 1));
        assert(dict_set_v(es, key, val) == seq![es[0]] + dict_set_v(es.drop_first(), key, val));
        assert(seq![es[0]] + (es.drop_first().take(n - 1) + seq![(key, val)] + es.drop_first().skip(
            n,
        )) =~= es.take(n) + seq![(key, val)] + es.skip(n + 1));
    }
}

/// Setting a name that no entry has appends a new entry.
pub proof fn lemma_dict_set_append(es: Seq<(Seq<u8>, ObjV)>, key: Seq<u8>, val: ObjV)
    requires
        forall|j: int| 0 <= j < es.len() ==> es[j].0 != key,
    ensures
        dict_set_v(es, key, val) == es + seq![(key, val)],
    decreases es.len(),
{
    if es.len() == 0 {
        assert(dict_set_v(es, key, val) =~= es + seq![(key, val)]);
    } else {
        lemma_dict_set_append(es.drop_first(), key, val);
        assert(seq![es[0]] + (es.drop_first() + seq![(key, val)]) =~= es + seq![(key, val)]);
    }
}


} // verus!
