use pdfmerge::merge::{merge_documents, MergeError};
use pdfmerge::object::{ObjectId, PdfDict, PdfDocument, PdfObject};
use pdfmerge::pages::{collect_pages, map_get};
use pdfmerge::pdfio::{load_document, merge_pdfs, save_document};
use pdfmerge::validate::check_document;

fn oid(num: u32) -> ObjectId {
    ObjectId { num, gen: 0 }
}

fn name(s: &str) -> PdfObject {
    PdfObject::Name(s.as_bytes().to_vec())
}

fn dict(entries: Vec<(&str, PdfObject)>) -> PdfDict {
    PdfDict {
        entries: entries.into_iter().map(|(k, v)| (k.as_bytes().to_vec(), v)).collect(),
    }
}

/// A document with objects numbered 1 to 5: a catalog, a one-page tree, the
/// page, and two unreferenced-by-the-tree extras that still resolve.
fn five_object_doc() -> PdfDocument {
    let catalog = dict(vec![("Type", name("Catalog")), ("Pages", PdfObject::Ref(oid(2)))]);
    let pages = dict(vec![
        ("Type", name("Pages")),
        ("Count", PdfObject::Integer(1)),
        ("Kids", PdfObject::Array(vec![PdfObject::Ref(oid(3))])),
    ]);
    let page = dict(vec![("Type", name("Page")), ("Parent", PdfObject::Ref(oid(2)))]);
    let objects = vec![
        (oid(1), PdfObject::Dict(catalog)),
        (oid(2), PdfObject::Dict(pages)),
        (oid(3), PdfObject::Dict(page)),
        (oid(4), PdfObject::Integer(7)),
        (oid(5), PdfObject::Ref(oid(4))),
    ];
    let trailer = dict(vec![("Root", PdfObject::Ref(oid(1)))]);
    PdfDocument { objects, trailer }
}

fn get_dict<'a>(doc: &'a PdfDocument, id: ObjectId) -> &'a PdfDict {
    match map_get(&doc.objects, id) {
        Some(PdfObject::Dict(d)) => d,
        _ => panic!("expected a dictionary at {:?}", id),
    }
}

#[test]
fn merge_two_five_object_docs() {
    let docs = vec![five_object_doc(), five_object_doc()];
    assert!(check_document(&docs[0]));
    let merged = merge_documents(&docs).expect("merge should succeed");
    // ten retained objects plus the fresh Pages and Catalog
    assert_eq!(merged.objects.len(), 12);
    // identifiers 1..=10 for the two renumbered blocks, 11 and 12 fresh
    let mut nums: Vec<u32> = merged.objects.iter().map(|(id, _)| id.num).collect();
    nums.sort();
    assert_eq!(nums, (1..=12).collect::<Vec<u32>>());
    // exactly two pages, in input order
    let pages = collect_pages(&merged).expect("merged page tree must resolve");
    assert_eq!(pages.len(), 2);
    assert_eq!(pages[0], oid(3));
    assert_eq!(pages[1], oid(8));
    // the fresh Pages node lists both pages and counts them
    let pd = get_dict(&merged, oid(11));
    match pd.get(b"Count") {
        Some(PdfObject::Integer(n)) => assert_eq!(*n, 2),
        other => panic!("bad Count: {:?}", other),
    }
    match pd.get(b"Kids") {
        Some(PdfObject::Array(kids)) => assert_eq!(kids.len(), 2),
        other => panic!("bad Kids: {:?}", other),
    }
    // each page was re-parented to the fresh Pages node
    for pid in [oid(3), oid(8)] {
        let page = get_dict(&merged, pid);
        match page.get(b"Parent") {
            Some(PdfObject::Ref(parent)) => assert_eq!(*parent, oid(11)),
            other => panic!("bad Parent: {:?}", other),
        }
    }
    // the trailer's Root is the fresh catalog
    match merged.trailer.get(b"Root") {
        Some(PdfObject::Ref(root)) => assert_eq!(*root, oid(12)),
        other => panic!("bad Root: {:?}", other),
    }
    let cat = get_dict(&merged, oid(12));
    match cat.get(b"Pages") {
        Some(PdfObject::Ref(p)) => assert_eq!(*p, oid(11)),
        other => panic!("bad Pages: {:?}", other),
    }
    // the merged graph still satisfies the invariants: unique identifiers
    // and no dangling references
    assert!(check_document(&merged));
}

#[test]
fn merge_empty_input_is_refused() {
    match merge_documents(&vec![]) {
        Err(MergeError::EmptyInput) => {},
        other => panic!("expected EmptyInput, got {:?}", other.map(|_| ())),
    }
    match merge_pdfs(&vec![]) {
        Err(MergeError::EmptyInput) => {},
        other => panic!("expected EmptyInput, got {:?}", other.map(|_| ())),
    }
}

#[test]
fn merge_single_document_keeps_its_page() {
    let docs = vec![five_object_doc()];
    let merged = merge_documents(&docs).expect("merge should succeed");
    assert_eq!(merged.objects.len(), 7);
    let pages = collect_pages(&merged).expect("page tree must resolve");
    assert_eq!(pages.len(), 1);
    assert_eq!(pages[0], oid(3));
    // the page object's content is that of the input page, re-parented
    let page = get_dict(&merged, oid(3));
    match page.get(b"Type") {
        Some(PdfObject::Name(n)) => assert_eq!(n.as_slice(), b"Page"),
        other => panic!("bad Type: {:?}", other),
    }
}

#[test]
fn merge_document_without_page_tree_is_refused() {
    let bad = PdfDocument {
        objects: vec![(oid(1), PdfObject::Integer(1))],
        trailer: dict(vec![]),
    };
    let docs = vec![five_object_doc(), bad];
    match merge_documents(&docs) {
        Err(MergeError::LoadError { index, .. }) => assert_eq!(index, 1),
        other => panic!("expected LoadError, got {:?}", other.map(|_| ())),
    }
}

#[test]
fn dangling_reference_fails_the_check() {
    let mut doc = five_object_doc();
    doc.objects.push((oid(6), PdfObject::Ref(oid(9))));
    assert!(!check_document(&doc));
}

#[test]
fn duplicate_identifier_fails_the_check() {
    let mut doc = five_object_doc();
    doc.objects.push((oid(4), PdfObject::Null));
    assert!(!check_document(&doc));
}

#[test]
fn merge_pdfs_round_trips_through_bytes() {
    let a = save_document(&five_object_doc()).expect("save a");
    let b = save_document(&five_object_doc()).expect("save b");
    let out = merge_pdfs(&vec![a, b]).expect("merge should succeed");
    let merged = load_document(&out).expect("merged bytes must parse");
    let pages = collect_pages(&merged).expect("merged page tree must resolve");
    assert_eq!(pages.len(), 2);
}

#[test]
fn merge_pdfs_rejects_garbage_bytes() {
    let a = save_document(&five_object_doc()).expect("save a");
    let garbage = b"not a pdf at all".to_vec();
    match merge_pdfs(&vec![a, garbage]) {
        Err(MergeError::LoadError { index, .. }) => assert_eq!(index, 1),
        other => panic!("expected LoadError, got {:?}", other.map(|_| ())),
    }
}
