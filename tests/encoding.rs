use sigillum::document::{Dictionary, Document, PdfObject};
use sigillum::encoder::{add_watermark_to_pdf, page_height, whole_top_label, PageHeight};
use sigillum::extract::extract_signature_info;
use sigillum::records::sign_document;
use sigillum::watermark::{compute_signature_hash, content_program};

fn name(x: &str) -> PdfObject {
    PdfObject::Name(x.as_bytes().to_vec())
}

fn dict(entries: Vec<(&str, PdfObject)>) -> Dictionary {
    Dictionary { entries: entries.into_iter().map(|(k, v)| (k.as_bytes().to_vec(), v)).collect() }
}

fn get<'a>(d: &'a Dictionary, k: &str) -> Option<&'a PdfObject> {
    d.get(k.as_bytes())
}

fn page_dict(doc: &Document, id: (u32, u16)) -> &Dictionary {
    match doc.get_object(id) {
        Some(PdfObject::Dictionary(d)) => d,
        _ => panic!("page is not a dictionary"),
    }
}

fn two_page_doc() -> Document {
    let p1 = dict(vec![
        ("Type", name("Page")),
        (
            "MediaBox",
            PdfObject::Array(vec![
                PdfObject::Integer(0),
                PdfObject::Integer(0),
                PdfObject::Integer(612),
                PdfObject::Integer(792),
            ]),
        ),
        ("Contents", PdfObject::Reference((3, 0))),
        ("Resources", PdfObject::Dictionary(dict(vec![("ProcSet", name("PDF"))]))),
    ]);
    let p2 = dict(vec![
        ("Type", name("Page")),
        ("Contents", PdfObject::Array(vec![PdfObject::Reference((4, 0))])),
    ]);
    Document {
        objects: vec![
            ((1, 0), PdfObject::Dictionary(dict(vec![("Type", name("Catalog"))]))),
            ((2, 0), PdfObject::Dictionary(p1)),
            ((3, 0), PdfObject::Stream(Dictionary::new(), b"0 0 m".to_vec())),
            ((4, 0), PdfObject::Stream(Dictionary::new(), b"1 1 m".to_vec())),
            ((5, 0), PdfObject::Dictionary(p2)),
        ],
        max_id: 5,
        pages: vec![(2, 0), (5, 0)],
    }
}

fn stream_text(doc: &Document, id: (u32, u16)) -> String {
    match doc.get_object(id) {
        Some(PdfObject::Stream(d, c)) => {
            assert!(d.entries.is_empty());
            String::from_utf8(c.clone()).unwrap()
        }
        _ => panic!("not a stream"),
    }
}

#[test]
fn every_page_gets_its_own_stream_and_one_font() {
    let mut doc = two_page_doc();
    let text = "Digitally signed by Alice\n2024-01-01 00:00:00 UTC\nHash:SHA256: abcd";
    let tops = vec!["777".to_string(), "777".to_string()];
    assert_eq!(add_watermark_to_pdf(&mut doc, text, &tops), Ok(()));
    assert_eq!(doc.max_id, 8);
    assert_eq!(doc.objects.len(), 8);
    match doc.get_object((6, 0)) {
        Some(PdfObject::Dictionary(f)) => {
            assert!(matches!(get(f, "BaseFont"), Some(PdfObject::Name(n)) if n == b"Helvetica"));
            assert!(matches!(get(f, "Subtype"), Some(PdfObject::Name(n)) if n == b"Type1"));
        }
        _ => panic!("no font"),
    }
    let p1 = page_dict(&doc, (2, 0));
    assert!(matches!(get(p1, "Contents"), Some(PdfObject::Array(a)) if a.len() == 2
        && matches!(a[0], PdfObject::Reference((3, 0))) && matches!(a[1], PdfObject::Reference((7, 0)))));
    let p2 = page_dict(&doc, (5, 0));
    assert!(matches!(get(p2, "Contents"), Some(PdfObject::Array(a)) if a.len() == 2
        && matches!(a[0], PdfObject::Reference((4, 0))) && matches!(a[1], PdfObject::Reference((8, 0)))));
    for p in [p1, p2] {
        match get(p, "Resources") {
            Some(PdfObject::Dictionary(r)) => match get(r, "Font") {
                Some(PdfObject::Dictionary(f)) => {
                    assert!(matches!(get(f, "FWM"), Some(PdfObject::Reference((6, 0)))))
                }
                _ => panic!("no Font map"),
            },
            _ => panic!("no Resources"),
        }
    }
    let p1 = page_dict(&doc, (2, 0));
    match get(p1, "Resources") {
        Some(PdfObject::Dictionary(r)) => assert!(matches!(get(r, "ProcSet"), Some(PdfObject::Name(n)) if n == b"PDF")),
        _ => panic!("no Resources"),
    }
    let want = "q\nBT\n/FWM 8 Tf\n10 777 Td (Digitally signed by Alice) Tj\n0 -10 Td (2024-01-01 00:00:00 UTC) Tj\n0 500 Td (Hash:SHA256: abcd) Tj\nET\nQ";
    assert_eq!(stream_text(&doc, (7, 0)), want);
    assert_eq!(stream_text(&doc, (8, 0)), want);
    let bytes = stream_text(&doc, (8, 0)).into_bytes();
    assert_eq!(
        extract_signature_info(&bytes),
        Some((
            "Alice".to_string(),
            "2024-01-01 00:00:00 UTC".to_string(),
            "(none)".to_string(),
            "SHA256: abcd".to_string()
        ))
    );
}

#[test]
fn missing_page_object_is_an_error() {
    let mut doc = two_page_doc();
    doc.pages.push((1, 3));
    let tops = vec!["777".to_string(); 3];
    assert_eq!(
        add_watermark_to_pdf(&mut doc, "Digitally signed by A\nB\nHash:C", &tops),
        Err("Failed to get page: object not found".to_string())
    );
}

#[test]
fn page_that_is_not_a_dictionary_is_skipped() {
    let mut doc = two_page_doc();
    doc.pages = vec![(3, 0), (5, 0)];
    let tops = vec!["777".to_string(); 2];
    assert_eq!(add_watermark_to_pdf(&mut doc, "Digitally signed by A\nB\nHash:C", &tops), Ok(()));
    assert_eq!(doc.max_id, 7);
    assert!(matches!(doc.get_object((3, 0)), Some(PdfObject::Stream(_, c)) if c == b"0 0 m"));
    assert_eq!(stream_text(&doc, (7, 0)).lines().count(), 8);
}

#[test]
fn content_program_moves() {
    let p = content_program("826.89", "one\ntwo\nthree\nfour");
    assert_eq!(
        p,
        "q\nBT\n/FWM 8 Tf\n10 826.89 Td (one) Tj\n0 -10 Td (two) Tj\n0 -10 Td (three) Tj\n0 500 Td (four) Tj\nET\nQ"
    );
    let single = content_program("777", "only");
    assert_eq!(single, "q\nBT\n/FWM 8 Tf\n10 777 Td (only) Tj\nET\nQ");
}

#[test]
fn media_box_heights() {
    let absent = dict(vec![("Type", name("Page"))]);
    assert!(matches!(page_height(&absent), PageHeight::Letter));
    let short = dict(vec![(
        "MediaBox",
        PdfObject::Array(vec![PdfObject::Integer(0), PdfObject::Integer(0), PdfObject::Integer(612)]),
    )]);
    assert!(matches!(page_height(&short), PageHeight::Letter));
    let words = dict(vec![(
        "MediaBox",
        PdfObject::Array(vec![name("a"), name("b"), name("c"), name("d")]),
    )]);
    assert!(matches!(page_height(&words), PageHeight::Letter));
    let not_array = dict(vec![("MediaBox", PdfObject::Reference((9, 0)))]);
    assert!(matches!(page_height(&not_array), PageHeight::Letter));
    let ints = dict(vec![(
        "MediaBox",
        PdfObject::Array(vec![
            PdfObject::Integer(0),
            PdfObject::Integer(0),
            PdfObject::Integer(595),
            PdfObject::Integer(842),
        ]),
    )]);
    assert!(matches!(page_height(&ints), PageHeight::Integer(842)));
    let reals = dict(vec![(
        "MediaBox",
        PdfObject::Array(vec![
            PdfObject::Real(0),
            PdfObject::Real(0),
            PdfObject::Real(595.0f32.to_bits()),
            PdfObject::Real(841.89f32.to_bits()),
        ]),
    )]);
    assert!(matches!(page_height(&reals), PageHeight::Real(b) if b == 841.89f32.to_bits()));
}

#[test]
fn signature_hash_of_empty_input() {
    assert_eq!(
        compute_signature_hash(b"", "", "", ""),
        "SHA256: e3b0c44298fc1c149afbf4c8996fb92427ae41e4649b934ca495991b7852b855"
    );
    assert_eq!(compute_signature_hash(b"x", "y", "z", "w").len(), 72);
}

#[test]
fn signature_hash_covers_all_parts_in_order() {
    assert_eq!(
        compute_signature_hash(b"a", "b", "c", ""),
        "SHA256: ba7816bf8f01cfea414140de5dae2223b00361a396177a9cb410ff61f20015ad"
    );
    assert_ne!(compute_signature_hash(b"a", "b", "c", ""), compute_signature_hash(b"a", "c", "b", ""));
}

#[test]
fn signing_a_document_end_to_end() {
    let mut doc = two_page_doc();
    let tops = vec!["777".to_string(); 2];
    let info = sign_document(&mut doc, b"%PDF", "Bob", "2024-01-01 00:00:00 UTC", "dept:legal", &tops).unwrap();
    assert_eq!(info.signer_name, "Bob");
    assert_eq!(info.extra, "dept:legal");
    assert_eq!(info.signature, compute_signature_hash(b"%PDF", "Bob", "2024-01-01 00:00:00 UTC", "dept:legal"));
    let bytes = stream_text(&doc, (7, 0)).into_bytes();
    let got = extract_signature_info(&bytes).unwrap();
    assert_eq!(got.0, "Bob");
    assert_eq!(got.1, "2024-01-01 00:00:00 UTC");
    assert_eq!(got.2, "dept:legal");
    assert_eq!(got.3, info.signature);
}

#[test]
fn referenced_resources_get_the_font() {
    let mut doc = two_page_doc();
    doc.objects.push(((9, 0), PdfObject::Dictionary(dict(vec![("ProcSet", name("PDF"))]))));
    doc.objects.push(((10, 0), PdfObject::Dictionary(dict(vec![
        ("Type", name("Page")),
        ("Resources", PdfObject::Reference((9, 0))),
    ]))));
    doc.max_id = 10;
    doc.pages.push((10, 0));
    let tops = vec!["777".to_string(); 3];
    assert_eq!(add_watermark_to_pdf(&mut doc, "Digitally signed by A\nB\nHash:C", &tops), Ok(()));
    let page = page_dict(&doc, (10, 0));
    assert!(matches!(get(page, "Resources"), Some(PdfObject::Reference((9, 0)))));
    assert!(matches!(get(page, "Contents"), Some(PdfObject::Array(a)) if a.len() == 1 && matches!(a[0], PdfObject::Reference((14, 0)))));
    match doc.get_object((9, 0)) {
        Some(PdfObject::Dictionary(r)) => {
            assert!(matches!(get(r, "ProcSet"), Some(PdfObject::Name(n)) if n == b"PDF"));
            match get(r, "Font") {
                Some(PdfObject::Dictionary(f)) => {
                    assert_eq!(f.entries.len(), 1);
                    assert!(matches!(get(f, "FWM"), Some(PdfObject::Reference((11, 0)))))
                }
                _ => panic!("no Font map in the shared resources"),
            }
        }
        _ => panic!("resources object lost"),
    }
    assert_eq!(doc.objects.len(), 7 + 1 + 3);
}

#[test]
fn existing_font_map_gains_fwm() {
    let mut doc = two_page_doc();
    doc.pages = vec![(2, 0)];
    if let Some((_, PdfObject::Dictionary(p))) = doc.objects.iter_mut().find(|(id, _)| *id == (2, 0)) {
        p.set(
            b"Resources".to_vec(),
            PdfObject::Dictionary(dict(vec![("Font", PdfObject::Dictionary(dict(vec![("F1", PdfObject::Reference((3, 0)))])))])),
        );
    }
    let tops = vec!["777".to_string()];
    assert_eq!(add_watermark_to_pdf(&mut doc, "Digitally signed by A\nB\nHash:C", &tops), Ok(()));
    match get(page_dict(&doc, (2, 0)), "Resources") {
        Some(PdfObject::Dictionary(r)) => match get(r, "Font") {
            Some(PdfObject::Dictionary(f)) => {
                assert!(matches!(get(f, "F1"), Some(PdfObject::Reference((3, 0)))));
                assert!(matches!(get(f, "FWM"), Some(PdfObject::Reference((6, 0)))));
            }
            _ => panic!("no Font map"),
        },
        _ => panic!("no Resources"),
    }
}

#[test]
fn whole_height_labels() {
    assert_eq!(whole_top_label(&PageHeight::Letter), Some("777".to_string()));
    assert_eq!(whole_top_label(&PageHeight::Integer(842)), Some("827".to_string()));
    assert_eq!(whole_top_label(&PageHeight::Integer(10)), Some("-5".to_string()));
    assert_eq!(whole_top_label(&PageHeight::Integer(15)), Some("0".to_string()));
    assert_eq!(whole_top_label(&PageHeight::Real(841.89f32.to_bits())), None);
    let absent = dict(vec![("Type", name("Page"))]);
    assert_eq!(whole_top_label(&page_height(&absent)), Some("777".to_string()));
}
