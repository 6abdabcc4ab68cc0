//! The trusted boundary to the PDF file format: parsing bytes into the
//! model and serializing the model back to bytes, through the lopdf crate.
//! Everything else in this crate is verified against the two names
//! `pdf_parse` and `pdf_render` given to those operations here.
use vstd::prelude::*;

use crate::merge::{merge_documents, merge_outcome, merged_doc, view_docs, MergeError, OutcomeV};
use crate::object::{doc_closed, doc_wf, DocV, ObjectId, PdfDict, PdfDocument, PdfObject, TextFormat};
use crate::validate::check_document;

verus! {

broadcast use vstd::std_specs::vec::group_vec_axioms;

/// The document that the given bytes parse to, if they parse: the result of
/// lopdf's parser, read into the model.  A function of the bytes alone.
pub uninterp spec fn pdf_parse(bytes: Seq<u8>) -> Option<DocV>;

/// The bytes that the given document serializes to, if it serializes: the
/// result of lopdf's writer on the model.  A function of the document alone.
pub uninterp spec fn pdf_render(d: DocV) -> Option<Seq<u8>>;

#[verifier::external_type_specification]
#[verifier::external_body]
pub struct ExLopdfDocument(lopdf::Document);

#[verifier::external_type_specification]
#[verifier::external_body]
pub struct ExLopdfObject(lopdf::Object);

#[verifier::external_type_specification]
#[verifier::external_body]
pub struct ExLopdfDictionary(lopdf::Dictionary);

#[verifier::external_type_specification]
#[verifier::external_body]
pub struct ExLopdfStringFormat(lopdf::StringFormat);

/// Relies on lopdf::StringFormat: its two forms, read into the model.
#[verifier::external_body]
fn fmt_from_lopdf(f: &lopdf::StringFormat) -> TextFormat {
    match f {
        lopdf::StringFormat::Literal => TextFormat::Literal,
        lopdf::StringFormat::Hexadecimal => TextFormat::Hexadecimal,
    }
}

/// Relies on lopdf::StringFormat: the model's two forms, written back.
#[verifier::external_body]
fn fmt_to_lopdf(f: &TextFormat) -> lopdf::StringFormat {
    match f {
        TextFormat::Literal => lopdf::StringFormat::Literal,
        TextFormat::Hexadecimal => lopdf::StringFormat::Hexadecimal,
    }
}

/// Relies on lopdf::Object: each leaf variant moved into the model variant
/// of the same meaning; a real number is kept as its decimal text.
#[verifier::external_body]
fn leaf_from_lopdf(o: &lopdf::Object) -> PdfObject {
    match o {
        lopdf::Object::Boolean(b) => PdfObject::Boolean(*b),
        lopdf::Object::Integer(i) => PdfObject::Integer(*i),
        lopdf::Object::Real(f) => PdfObject::Real(format!("{}", f).into_bytes()),
        lopdf::Object::Name(n) => PdfObject::Name(n.clone()),
        lopdf::Object::String(s, f) => PdfObject::Text(s.clone(), fmt_from_lopdf(f)),
        lopdf::Object::Reference(id) => PdfObject::Ref(ObjectId { num: id.0, gen: id.1 }),
        _ => PdfObject::Null,
    }
}

/// Relies on lopdf::Object: each nested variant moved into the model,
/// element by element; leaves go through `leaf_from_lopdf`.
#[verifier::external_body]
fn obj_from_lopdf(o: &lopdf::Object) -> PdfObject {
    match o {
        lopdf::Object::Array(v) => PdfObject::Array(v.iter().map(obj_from_lopdf).collect()),
        lopdf::Object::Dictionary(d) => PdfObject::Dict(dict_from_lopdf(d)),
        lopdf::Object::Stream(s) => PdfObject::Stream(dict_from_lopdf(&s.dict), s.content.clone()),
        other => leaf_from_lopdf(other),
    }
}

/// Relies on lopdf::Dictionary::iter: each entry moved into the model.
#[verifier::external_body]
fn dict_from_lopdf(d: &lopdf::Dictionary) -> PdfDict {
    let mut entries: Vec<(Vec<u8>, PdfObject)> = Vec::new();
    for (k, v) in d.iter() {
        entries.push((k.clone(), obj_from_lopdf(v)));
    }
    PdfDict { entries }
}

/// Relies on lopdf::Document: the parsed objects and trailer moved into the
/// model, object by object.
#[verifier::external_body]
fn doc_from_lopdf(d: &lopdf::Document) -> PdfDocument {
    let mut objects: Vec<(ObjectId, PdfObject)> = Vec::new();
    for (id, o) in d.objects.iter() {
        objects.push((ObjectId { num: id.0, gen: id.1 }, obj_from_lopdf(o)));
    }
    PdfDocument { objects, trailer: dict_from_lopdf(&d.trailer) }
}

/// Relies on lopdf::Object: each model leaf written back; the decimal text
/// of a real number is parsed again, zero when unreadable.
#[verifier::external_body]
fn leaf_to_lopdf(o: &PdfObject) -> lopdf::Object {
    match o {
        PdfObject::Boolean(b) => lopdf::Object::Boolean(*b),
        PdfObject::Integer(i) => lopdf::Object::Integer(*i),
        PdfObject::Real(t) => lopdf::Object::Real(
            std::str::from_utf8(t).ok().and_then(|s| s.parse().ok()).unwrap_or_default(),
        ),
        PdfObject::Name(n) => lopdf::Object::Name(n.clone()),
        PdfObject::Text(t, f) => lopdf::Object::String(t.clone(), fmt_to_lopdf(f)),
        PdfObject::Ref(id) => lopdf::Object::Reference((id.num, id.gen)),
        _ => lopdf::Object::Null,
    }
}

/// Relies on lopdf::Object: each nested model variant written back, element
/// by element; leaves go through `leaf_to_lopdf`.
#[verifier::external_body]
fn obj_to_lopdf(o: &PdfObject) -> lopdf::Object {
    match o {
        PdfObject::Array(v) => lopdf::Object::Array(v.iter().map(obj_to_lopdf).collect()),
        PdfObject::Dict(d) => lopdf::Object::Dictionary(dict_to_lopdf(d)),
        PdfObject::Stream(d, c) => lopdf::Object::Stream(lopdf::Stream::new(dict_to_lopdf(d), c.clone())),
        other => leaf_to_lopdf(other),
    }
}

/// Relies on lopdf::Dictionary::set: each model entry written back in order.
#[verifier::external_body]
fn dict_to_lopdf(d: &PdfDict) -> lopdf::Dictionary {
    let mut out = lopdf::Dictionary::new();
    for (k, v) in d.entries.iter() {
        out.set(k.clone(), obj_to_lopdf(v));
    }
    out
}

/// Relies on lopdf::Document::with_version: the model written back as a
/// fresh document, with `max_id` the largest object number used.
#[verifier::external_body]
fn doc_to_lopdf(d: &PdfDocument) -> lopdf::Document {
    let mut out = lopdf::Document::with_version("1.5");
    for (id, o) in d.objects.iter() {
        out.objects.insert((id.num, id.gen), obj_to_lopdf(o));
        out.max_id = out.max_id.max(id.num);
    }
    out.trailer = dict_to_lopdf(&d.trailer);
    out
}

/// Relies on lopdf::Document::load_mem: bytes parse to a document exactly
/// when lopdf accepts them, and deterministically so; the parsed graph is
/// read into the model by the conversions above.
#[verifier::external_body]
pub fn load_document(bytes: &Vec<u8>) -> (r: Result<PdfDocument, String>)
    ensures
        r is Ok <==> pdf_parse(bytes@) is Some,
        r is Ok ==> r->Ok_0@ == pdf_parse(bytes@)->Some_0,
{
    match lopdf::Document::load_mem(bytes.as_slice()) {
        Ok(d) => Ok(doc_from_lopdf(&d)),
        Err(e) => Err(format!("{}", e)),
    }
}

/// Relies on lopdf::Document::save_to: the model, written back by the
/// conversions above, serializes to bytes deterministically when lopdf's
/// writer succeeds.  The writer computes `max_id + 1`, so the largest
/// object number an admitted document may carry is one below the limit.
#[verifier::external_body]
pub fn save_document(doc: &PdfDocument) -> (r: Result<Vec<u8>, String>)
    requires
        forall|j: int|
            0 <= j < doc@.objects.len() ==> (#[trigger] doc@.objects[j]).0.num <= u32::MAX - 1,
    ensures
        r is Ok <==> pdf_render(doc@) is Some,
        r is Ok ==> r->Ok_0@ == pdf_render(doc@)->Some_0,
{
    let mut d = doc_to_lopdf(doc);
    let mut buf: Vec<u8> = Vec::new();
    match d.save_to(&mut buf) {
        Ok(()) => Ok(buf),
        Err(e) => Err(format!("{}", e)),
    }
}

/// The views of a list of byte sources.
pub open spec fn view_sources(srcs: Seq<Vec<u8>>) -> Seq<Seq<u8>> {
    Seq::new(srcs.len(), |i: int| srcs[i]@)
}

/// Whether one source parses to a document that satisfies the model's
/// invariants.
pub open spec fn load_ok(src: Seq<u8>) -> bool {
    &&& pdf_parse(src) is Some
    &&& doc_wf(pdf_parse(src)->Some_0)
    &&& doc_closed(pdf_parse(src)->Some_0)
}

/// The documents the sources parse to; meaningful when all of them parse.
pub open spec fn parsed_docs(srcs: Seq<Seq<u8>>) -> Seq<DocV> {
    Seq::new(srcs.len(), |i: int| pdf_parse(srcs[i])->Some_0)
}

/// Merge the given PDF byte streams into one PDF: parse each source, refuse
/// an empty list or an unusable source, merge the object graphs, and
/// serialize the result.  No output is produced on any failure.
#[verifier::loop_isolation(false)]
pub fn merge_pdfs(sources: &Vec<Vec<u8>>) -> (r: Result<Vec<u8>, MergeError>)
    ensures
        ({
            let srcs = view_sources(sources@);
            let pd = parsed_docs(srcs);
            match r {
                Ok(out) => {
                    &&& srcs.len() > 0
                    &&& forall|j: int| 0 <= j < srcs.len() ==> load_ok(#[trigger] srcs[j])
                    &&& merge_outcome(pd) is Good
                    &&& pdf_render(merged_doc(pd)) == Some(out@)
                },
                Err(e) => match e {
                    MergeError::EmptyInput => srcs.len() == 0,
                    MergeError::LoadError { index, cause: _ } => {
                        &&& 0 <= index < srcs.len()
                        &&& forall|j: int| 0 <= j < index ==> load_ok(#[trigger] srcs[j])
                        &&& (!load_ok(srcs[index as int]) || ((forall|j: int|
                            0 <= j < srcs.len() ==> load_ok(#[trigger] srcs[j]))
                            && merge_outcome(pd) == (OutcomeV::BadDoc { k: index as int })))
                    },
                    MergeError::SaveError { cause: _ } => {
                        &&& (forall|j: int| 0 <= j < srcs.len() ==> load_ok(#[trigger] srcs[j]))
                        &&& (merge_outcome(pd) is TooBig || (merge_outcome(pd) is Good
                            && pdf_render(merged_doc(pd)) is None))
                    },
                },
            }
        }),
{
    let ghost srcs = view_sources(sources@);
    let ghost pd = parsed_docs(srcs);
    if sources.len() == 0 {
        return Err(MergeError::EmptyInput);
    }
    let mut docs: Vec<PdfDocument> = Vec::new();
    let mut i: usize = 0;
    while i < sources.len()
        invariant
            0 <= i <= sources@.len(),
            docs@.len() == i,
            forall|j: int| 0 <= j < i ==> load_ok(#[trigger] srcs[j]),
            forall|j: int| 0 <= j < i ==> (#[trigger] docs@[j])@ == pd[j],
        decreases sources@.len() - i,
    {
        let doc = match load_document(&sources[i]) {
            Ok(doc) => doc,
            Err(cause) => {
                return Err(MergeError::LoadError { index: i, cause });
            },
        };
        if !check_document(&doc) {
            return Err(MergeError::LoadError {
                index: i,
                cause: "the document breaks the object-graph invariants".to_owned(),
            });
        }
        docs.push(doc);
        i = i + 1;
    }
    proof {
        assert(view_docs(docs@) =~= pd);
        assert forall|k: int| 0 <= k < docs@.len() implies doc_wf((#[trigger] docs@[k])@)
            && doc_closed(docs@[k]@) by {
            assert(docs@[k]@ == pd[k]);
            assert(load_ok(srcs[k]));
        }
    }
    let merged = match merge_documents(&docs) {
        Ok(m) => m,
        Err(e) => {
            match e {
                MergeError::EmptyInput => {
                    proof {
                        assert(merge_outcome(view_docs(docs@)) is Empty);
                        assert(view_docs(docs@).len() == docs@.len());
                        crate::merge::lemma_scan_not_empty(view_docs(docs@), 0);
                        assert(false);
                    }
                    return Err(MergeError::EmptyInput);
                },
                MergeError::LoadError { index, cause } => {
                    proof {
                        assert(view_docs(docs@) == pd);
                        assert(merge_outcome(pd) == (OutcomeV::BadDoc { k: index as int }));
                    }
                    return Err(MergeError::LoadError { index, cause });
                },
                MergeError::SaveError { cause } => {
                    proof {
                        assert(view_docs(docs@) == pd);
                        assert(merge_outcome(pd) is TooBig);
                    }
                    return Err(MergeError::SaveError { cause });
                },
            }
        },
    };
    proof {
        assert(view_docs(docs@) == pd);
        assert(merged@ == merged_doc(pd));
        assert(merge_outcome(pd) is Good);
        assert(pd.take(0) =~= Seq::<DocV>::empty());
        crate::merge::lemma_good_bound(pd, 0);
        assert(forall|k: int| 0 <= k < pd.len() ==> crate::object::doc_wf(#[trigger] pd[k])) by {
            assert forall|k: int| 0 <= k < pd.len() implies crate::object::doc_wf(
                #[trigger] pd[k],
            ) by {
                assert(load_ok(srcs[k]));
            }
        }
        crate::laws::lemma_merged_objs_unique(pd);
        crate::laws::lemma_patch_ids(
            crate::merge::merged_objs(pd),
            crate::merge::all_pages(pd),
            crate::merge::pages_id(pd),
        );
        assert forall|j: int| 0 <= j < merged@.objects.len() implies (
        #[trigger] merged@.objects[j]).0.num <= u32::MAX - 1 by {
            let body = crate::merge::patch_all(
                crate::merge::merged_objs(pd),
                crate::merge::all_pages(pd),
                crate::merge::pages_id(pd),
            );
            let bl = body.len() as int;
            if j < bl {
                assert(merged@.objects[j] == body[j]);
                assert(body[j].0 == crate::merge::merged_objs(pd)[j].0);
            } else if j == bl {
                assert(merged@.objects[j].0 == crate::merge::pages_id(pd));
            } else {
                assert(merged@.objects[j].0 == crate::merge::catalog_id(pd));
            }
        }
    }
    match save_document(&merged) {
        Ok(out) => Ok(out),
        Err(cause) => Err(MergeError::SaveError { cause }),
    }
}

} // verus!
