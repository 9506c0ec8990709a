//! The watermark encoder: draws a text block on every page of a document
//! through one new content stream per page and one shared font.
use vstd::prelude::*;
use vstd::string::StringSliceAdditionalSpecFns;
use vstd::utf8::encode_utf8;
use crate::document::{dict_get, lemma_lookup_some, lookup, Dictionary, Document, ObjectId, PdfObject};
use crate::watermark::{content_program, program, push_bytes};

verus! {

pub open spec fn contents_key() -> Seq<u8> {
    seq![67u8, 111, 110, 116, 101, 110, 116, 115]
}

pub open spec fn resources_key() -> Seq<u8> {
    seq![82u8, 101, 115, 111, 117, 114, 99, 101, 115]
}

pub open spec fn font_key() -> Seq<u8> {
    seq![70u8, 111, 110, 116]
}

pub open spec fn fwm_key() -> Seq<u8> {
    seq![70u8, 87, 77]
}

pub open spec fn media_box_key() -> Seq<u8> {
    seq![77u8, 101, 100, 105, 97, 66, 111, 120]
}

/// The UTF-8 bytes of the content-stream program for `text` at height `top`.
pub fn program_bytes(top: &str, text: &str) -> (r: Vec<u8>)
    ensures
        r@ == encode_utf8(program(top@, text@)),
{
    let p = content_program(top, text);
    let mut out: Vec<u8> = Vec::new();
    push_bytes(&mut out, p.as_str().as_bytes());
    out
}

fn contents_name() -> (r: Vec<u8>)
    ensures
        r@ == contents_key(),
{
    let mut v: Vec<u8> = Vec::new();
    v.push(67u8); v.push(111u8); v.push(110u8); v.push(116u8);
    v.push(101u8); v.push(110u8); v.push(116u8); v.push(115u8);
    assert(v@ =~= contents_key());
    v
}

fn resources_name() -> (r: Vec<u8>)
    ensures
        r@ == resources_key(),
{
    let mut v: Vec<u8> = Vec::new();
    v.push(82u8); v.push(101u8); v.push(115u8); v.push(111u8); v.push(117u8);
    v.push(114u8); v.push(99u8); v.push(101u8); v.push(115u8);
    assert(v@ =~= resources_key());
    v
}

fn font_name() -> (r: Vec<u8>)
    ensures
        r@ == font_key(),
{
    let mut v: Vec<u8> = Vec::new();
    v.push(70u8); v.push(111u8); v.push(110u8); v.push(116u8);
    assert(v@ =~= font_key());
    v
}

fn fwm_name() -> (r: Vec<u8>)
    ensures
        r@ == fwm_key(),
{
    let mut v: Vec<u8> = Vec::new();
    v.push(70u8); v.push(87u8); v.push(77u8);
    assert(v@ =~= fwm_key());
    v
}

/// How tall a page is, as its `MediaBox` gives it.
pub enum PageHeight {
    /// No usable `MediaBox`: the page is taken to be US Letter, 792 units.
    Letter,
    Integer(i64),
    /// The bits of an `f32` height.
    Real(u32),
}

/// The height that the page dictionary `es` gives: the fourth entry of a
/// `MediaBox` array of at least four, when it is a number.
pub open spec fn height_spec(es: Seq<(Vec<u8>, PdfObject)>) -> PageHeight {
    match dict_get(es, media_box_key()) {
        Some(PdfObject::Array(a)) => if a@.len() >= 4 {
            match a@[3] {
                PdfObject::Integer(h) => PageHeight::Integer(h),
                PdfObject::Real(h) => PageHeight::Real(h),
                _ => PageHeight::Letter,
            }
        } else {
            PageHeight::Letter
        },
        _ => PageHeight::Letter,
    }
}

/// The height of a page; US Letter where the `MediaBox` is absent, has fewer
/// than four entries, or its fourth is not a number.
pub fn page_height(page: &Dictionary) -> (r: PageHeight)
    ensures
        r == height_spec(page.entries@),
{
    let mut v: Vec<u8> = Vec::new();
    v.push(77u8); v.push(101u8); v.push(100u8); v.push(105u8);
    v.push(97u8); v.push(66u8); v.push(111u8); v.push(120u8);
    assert(v@ =~= media_box_key());
    match page.get(v.as_slice()) {
        Some(PdfObject::Array(a)) => {
            if a.len() >= 4 {
                match &a[3] {
                    PdfObject::Integer(h) => PageHeight::Integer(*h),
                    PdfObject::Real(h) => PageHeight::Real(*h),
                    _ => PageHeight::Letter,
                }
            } else {
                PageHeight::Letter
            }
        },
        _ => PageHeight::Letter,
    }
}

/// The decimal digit `d`, below ten.
pub open spec fn digit(d: int) -> char {
    seq!['0', '1', '2', '3', '4', '5', '6', '7', '8', '9'][d]
}

/// The decimal digits of `n`, without leading zeros.
pub open spec fn decimal(n: nat) -> Seq<char>
    decreases n,
{
    if n < 10 {
        seq![digit(n as int)]
    } else {
        decimal(n / 10).push(digit((n % 10) as int))
    }
}

/// The decimal text of `x`, with a minus sign where it is negative.
pub open spec fn signed_decimal(x: int) -> Seq<char> {
    if x < 0 {
        seq!['-'] + decimal((-x) as nat)
    } else {
        decimal(x as nat)
    }
}

fn digit_char(d: u128) -> (c: char)
    requires
        d < 10,
    ensures
        c == digit(d as int),
{
    if d == 0 { '0' } else if d == 1 { '1' } else if d == 2 { '2' } else if d == 3 { '3' }
    else if d == 4 { '4' } else if d == 5 { '5' } else if d == 6 { '6' } else if d == 7 { '7' }
    else if d == 8 { '8' } else { '9' }
}

fn decimal_exec(n: u128) -> (r: Vec<char>)
    ensures
        r@ == decimal(n as nat),
    decreases n,
{
    if n < 10 {
        let mut v: Vec<char> = Vec::new();
        v.push(digit_char(n));
        v
    } else {
        let mut v = decimal_exec(n / 10);
        v.push(digit_char(n % 10));
        v
    }
}

/// The height label of the first line, fifteen units below the page's top,
/// where the height is a whole number (`777` for US Letter); `None` for a
/// real height, whose label is `f32` arithmetic.
pub fn whole_top_label(h: &PageHeight) -> (r: Option<String>)
    ensures
        match *h {
            PageHeight::Letter => r matches Some(s) && s@ == "777"@,
            PageHeight::Integer(i) => r matches Some(s) && s@ == signed_decimal(i - 15),
            PageHeight::Real(_) => r is None,
        },
{
    let x: i128 = match h {
        PageHeight::Letter => 777,
        PageHeight::Integer(i) => (*i as i128) - 15,
        PageHeight::Real(_) => {
            return None;
        },
    };
    let out = if x < 0 {
        let mut v: Vec<char> = Vec::new();
        v.push('-');
        let m = decimal_exec((-x) as u128);
        crate::watermark::push_all(&mut v, &m);
        v
    } else {
        decimal_exec(x as u128)
    };
    proof {
        reveal_strlit("777");
        if *h is Letter {
            assert(decimal(777) =~= "777"@) by {
                assert(decimal(7) == seq!['7']);
                assert(decimal(77) == seq!['7', '7']);
            }
        }
    }
    Some(crate::text::string_of(&out))
}

/// A font map that holds `FWM` alone, pointing at `fid`.
pub open spec fn fresh_font_map(o: PdfObject, fid: ObjectId) -> bool {
    o matches PdfObject::Dictionary(d) && d.entries@.len() == 1 && dict_get(d.entries@, fwm_key())
        == Some(PdfObject::Reference(fid))
}

/// A present font map that holds `FWM` alone, pointing at `fid`.
pub open spec fn fresh_font_entry(o: Option<PdfObject>, fid: ObjectId) -> bool {
    o matches Some(f) && fresh_font_map(f, fid)
}

/// A page's `Contents` after its watermark stream `sid` is added: the old
/// array, a single old reference as a one-element list, or nothing otherwise,
/// followed by a reference to the new stream.
pub open spec fn contents_ok(old: Option<PdfObject>, new: Option<PdfObject>, sid: ObjectId) -> bool {
    new matches Some(PdfObject::Array(b)) && b@ == (match old {
        Some(PdfObject::Array(a)) => a@,
        Some(PdfObject::Reference(r)) => seq![PdfObject::Reference(r)],
        _ => seq![],
    }).push(PdfObject::Reference(sid))
}

/// A `Font` map after `FWM` is ensured in it.
pub open spec fn font_ok(old: Option<PdfObject>, new: Option<PdfObject>, fid: ObjectId) -> bool {
    match old {
        None => fresh_font_entry(new, fid),
        Some(PdfObject::Dictionary(ofd)) => new matches Some(PdfObject::Dictionary(nfd))
            && dict_get(nfd.entries@, fwm_key()) == Some(PdfObject::Reference(fid))
            && nfd.entries@.len() == ofd.entries@.len() + (if dict_get(ofd.entries@, fwm_key()) is None {
            1int
        } else {
            0int
        }) && forall|
            k: Seq<u8>,
        |
            k != fwm_key() ==> #[trigger] dict_get(nfd.entries@, k) == dict_get(ofd.entries@, k),
        Some(_) => new == old,
    }
}

/// A page's `Resources` after `Font`/`FWM` is ensured in it; a value that is
/// not a dictionary is left as it is.
pub open spec fn resources_ok(old: Option<PdfObject>, new: Option<PdfObject>, fid: ObjectId) -> bool {
    match old {
        None => new matches Some(PdfObject::Dictionary(rd)) && rd.entries@.len() == 1
            && fresh_font_entry(dict_get(rd.entries@, font_key()), fid),
        Some(PdfObject::Dictionary(ord)) => new matches Some(PdfObject::Dictionary(nrd))
            && res_dict_ok(ord.entries@, nrd.entries@, fid),
        Some(_) => new == old,
    }
}

/// The resources dictionary `nrd` is `ord` with `FWM` ensured in its `Font`
/// map and every other entry unchanged.
pub open spec fn res_dict_ok(
    ord: Seq<(Vec<u8>, PdfObject)>,
    nrd: Seq<(Vec<u8>, PdfObject)>,
    fid: ObjectId,
) -> bool {
    font_ok(dict_get(ord, font_key()), dict_get(nrd, font_key()), fid) && forall|k: Seq<u8>|
        k != font_key() ==> #[trigger] dict_get(nrd, k) == dict_get(ord, k)
}

proof fn lemma_res_dict_trans(
    o: Seq<(Vec<u8>, PdfObject)>,
    a: Seq<(Vec<u8>, PdfObject)>,
    b: Seq<(Vec<u8>, PdfObject)>,
    fid: ObjectId,
)
    requires
        res_dict_ok(o, a, fid),
        res_dict_ok(a, b, fid),
    ensures
        res_dict_ok(o, b, fid),
{
    let fo = dict_get(o, font_key());
    let fa = dict_get(a, font_key());
    let fb = dict_get(b, font_key());
    match fo {
        None => {
            assert(fa matches Some(PdfObject::Dictionary(_)));
        },
        Some(PdfObject::Dictionary(ofd)) => {
            let afd = fa->0->Dictionary_0;
            let bfd = fb->0->Dictionary_0;
            assert forall|k: Seq<u8>| k != fwm_key() implies #[trigger] dict_get(bfd.entries@, k)
                == dict_get(ofd.entries@, k) by {
                assert(dict_get(bfd.entries@, k) == dict_get(afd.entries@, k));
            }
        },
        Some(_) => {},
    }
}

/// Ensures `FWM` pointing at `fid` in the `Font` map of the resources `rd`,
/// creating the map where it is absent; every other entry is kept.
fn ensure_font(rd: &mut Dictionary, fid: ObjectId)
    ensures
        res_dict_ok(old(rd).entries@, final(rd).entries@, fid),
{
    let ghost ord = rd.entries@;
    let of = rd.replace(font_name(), PdfObject::Null);
    match of {
        None => {
            rd.set(font_name(), fresh_font_dict(fid));
        },
        Some(PdfObject::Dictionary(mut fd)) => {
            fd.set(fwm_name(), PdfObject::Reference(fid));
            rd.set(font_name(), PdfObject::Dictionary(fd));
        },
        Some(other) => {
            rd.set(font_name(), other);
        },
    }
    assert(font_ok(dict_get(ord, font_key()), dict_get(rd.entries@, font_key()), fid));
}

/// The page dictionary `nd` is `od` with the watermark stream `sid` added to
/// its contents and the font `fid` ensured in its resources.
pub open spec fn watermarked(
    od: Seq<(Vec<u8>, PdfObject)>,
    nd: Seq<(Vec<u8>, PdfObject)>,
    sid: ObjectId,
    fid: ObjectId,
) -> bool {
    contents_ok(dict_get(od, contents_key()), dict_get(nd, contents_key()), sid) && resources_ok(
        dict_get(od, resources_key()),
        dict_get(nd, resources_key()),
        fid,
    ) && forall|k: Seq<u8>|
        k != contents_key() && k != resources_key() ==> #[trigger] dict_get(nd, k) == dict_get(
            od,
            k,
        )
}

fn fresh_font_dict(fid: ObjectId) -> (r: PdfObject)
    ensures
        fresh_font_map(r, fid),
{
    let mut d = Dictionary::new();
    d.set(fwm_name(), PdfObject::Reference(fid));
    PdfObject::Dictionary(d)
}

/// Adds the stream `sid` to the page's contents and ensures `Font`/`FWM`
/// pointing at `fid` in its resources.
pub fn watermark_page(d: &mut Dictionary, sid: ObjectId, fid: ObjectId)
    ensures
        watermarked(old(d).entries@, final(d).entries@, sid, fid),
{
    let ghost od = d.entries@;
    assert(contents_key()[0] != resources_key()[0]);
    let oc = d.replace(contents_name(), PdfObject::Null);
    match oc {
        Some(PdfObject::Array(mut a)) => {
            a.push(PdfObject::Reference(sid));
            d.set(contents_name(), PdfObject::Array(a));
        },
        Some(PdfObject::Reference(r)) => {
            let mut a: Vec<PdfObject> = Vec::new();
            a.push(PdfObject::Reference(r));
            a.push(PdfObject::Reference(sid));
            assert(a@ =~= seq![PdfObject::Reference(r)].push(PdfObject::Reference(sid)));
            d.set(contents_name(), PdfObject::Array(a));
        },
        _ => {
            let mut a: Vec<PdfObject> = Vec::new();
            a.push(PdfObject::Reference(sid));
            d.set(contents_name(), PdfObject::Array(a));
        },
    }
    let ghost mid = d.entries@;
    assert(contents_ok(dict_get(od, contents_key()), dict_get(mid, contents_key()), sid));
    assert(forall|k: Seq<u8>| k != contents_key() ==> #[trigger] dict_get(mid, k) == dict_get(od, k));
    let or = d.replace(resources_name(), PdfObject::Null);
    match or {
        None => {
            let mut rd = Dictionary::new();
            rd.set(font_name(), fresh_font_dict(fid));
            assert(fresh_font_entry(dict_get(rd.entries@, font_key()), fid));
            d.set(resources_name(), PdfObject::Dictionary(rd));
            assert(resources_ok(None, dict_get(d.entries@, resources_key()), fid));
        },
        Some(PdfObject::Dictionary(mut rd)) => {
            ensure_font(&mut rd, fid);
            d.set(resources_name(), PdfObject::Dictionary(rd));
        },
        Some(other) => {
            d.set(resources_name(), other);
        },
    }
    assert(resources_ok(dict_get(od, resources_key()), dict_get(d.entries@, resources_key()), fid));
}

/// The UTF-8 bytes of `s`.
pub fn bytes_of(s: &str) -> (r: Vec<u8>)
    ensures
        r@ == encode_utf8(s@),
{
    let mut out: Vec<u8> = Vec::new();
    push_bytes(&mut out, s.as_bytes());
    out
}

/// The entry `key` holds the name `name`.
pub open spec fn name_entry(e: (Vec<u8>, PdfObject), key: Seq<char>, name: Seq<char>) -> bool {
    e.0@ == encode_utf8(key) && (e.1 matches PdfObject::Name(n) && n@ == encode_utf8(name))
}

/// The shared font: a Type1 Helvetica font dictionary named `FWM`.
pub open spec fn is_font_object(o: Option<PdfObject>) -> bool {
    o matches Some(PdfObject::Dictionary(d)) && d.entries@.len() == 4 && name_entry(
        d.entries@[0],
        "Type"@,
        "Font"@,
    ) && name_entry(d.entries@[1], "Subtype"@, "Type1"@) && name_entry(
        d.entries@[2],
        "BaseFont"@,
        "Helvetica"@,
    ) && name_entry(d.entries@[3], "Name"@, "FWM"@)
}

fn font_object() -> (r: PdfObject)
    ensures
        is_font_object(Some(r)),
{
    let mut es: Vec<(Vec<u8>, PdfObject)> = Vec::new();
    es.push((bytes_of("Type"), PdfObject::Name(bytes_of("Font"))));
    es.push((bytes_of("Subtype"), PdfObject::Name(bytes_of("Type1"))));
    es.push((bytes_of("BaseFont"), PdfObject::Name(bytes_of("Helvetica"))));
    es.push((bytes_of("Name"), PdfObject::Name(bytes_of("FWM"))));
    PdfObject::Dictionary(Dictionary { entries: es })
}

/// How many of the first `i` pages are dictionaries in `os`.
pub open spec fn dict_pages_before(os: Seq<(ObjectId, PdfObject)>, pages: Seq<ObjectId>, i: int) -> int
    decreases i,
{
    if i <= 0 || i > pages.len() {
        0
    } else {
        dict_pages_before(os, pages, i - 1) + if lookup(os, pages[i - 1]) matches Some(
            PdfObject::Dictionary(_),
        ) {
            1int
        } else {
            0int
        }
    }
}

pub proof fn lemma_dict_pages_bounds(os: Seq<(ObjectId, PdfObject)>, pages: Seq<ObjectId>, i: int, j: int)
    requires
        0 <= j <= i <= pages.len(),
    ensures
        0 <= dict_pages_before(os, pages, j) <= dict_pages_before(os, pages, i),
        dict_pages_before(os, pages, i) - dict_pages_before(os, pages, j) <= i - j,
    decreases i,
{
    if i > j {
        lemma_dict_pages_bounds(os, pages, i - 1, j);
    } else if j > 0 {
        lemma_dict_pages_bounds(os, pages, j - 1, j - 1);
    }
}

/// The id of the shared font that the encoder adds to `d`.
pub open spec fn font_id(d: Document) -> ObjectId {
    ((d.max_id + 1) as u32, 0u16)
}

/// The id of the stream that the encoder adds to `d` for its `i`-th page.
pub open spec fn stream_id(d: Document, i: int) -> ObjectId {
    ((d.max_id + 2 + dict_pages_before(d.objects@, d.pages@, i)) as u32, 0u16)
}

/// The object `x` is a stream with no dictionary entries holding `content`.
pub open spec fn stream_is(x: Option<PdfObject>, content: Seq<u8>) -> bool {
    x matches Some(PdfObject::Stream(sd, c)) && sd.entries@.len() == 0 && c@ == content
}

/// The object `x` is the page dictionary `od` after its watermark.
pub open spec fn page_is(x: Option<PdfObject>, od: Dictionary, sid: ObjectId, fid: ObjectId) -> bool {
    x matches Some(PdfObject::Dictionary(nd)) && watermarked(od.entries@, nd.entries@, sid, fid)
}

/// The page `pid`, a dictionary in `o0`, is watermarked in `o` with the stream
/// `sid` holding `content`; any other page is as it was.
pub open spec fn page_done(
    o0: Seq<(ObjectId, PdfObject)>,
    o: Seq<(ObjectId, PdfObject)>,
    pid: ObjectId,
    sid: ObjectId,
    fid: ObjectId,
    content: Seq<u8>,
) -> bool {
    match lookup(o0, pid) {
        Some(PdfObject::Dictionary(od)) => page_is(lookup(o, pid), od, sid, fid) && stream_is(
            lookup(o, sid),
            content,
        ),
        _ => lookup(o, pid) == lookup(o0, pid),
    }
}

/// `a` is a resources dictionary and `b` is it with `FWM` ensured.
pub open spec fn fonted(a: Option<PdfObject>, b: Option<PdfObject>, fid: ObjectId) -> bool {
    a matches Some(PdfObject::Dictionary(ord)) && (b matches Some(PdfObject::Dictionary(nrd))
        && res_dict_ok(ord.entries@, nrd.entries@, fid))
}

/// The resources object that the page `pid` of `o0` refers to, where it is a
/// dictionary with a number at most `m0` and is not itself a page.
pub open spec fn shared_resources(
    o0: Seq<(ObjectId, PdfObject)>,
    pages: Seq<ObjectId>,
    m0: int,
    pid: ObjectId,
) -> Option<ObjectId> {
    match lookup(o0, pid) {
        Some(PdfObject::Dictionary(od)) => match dict_get(od.entries@, resources_key()) {
            Some(PdfObject::Reference(rid)) => if rid.0 <= m0 && !pages.contains(rid) && (lookup(
                o0,
                rid,
            ) matches Some(PdfObject::Dictionary(_))) {
                Some(rid)
            } else {
                None
            },
            _ => None,
        },
        _ => None,
    }
}

/// Where the page `pid` refers to a resources object, `FWM` is ensured in it.
pub open spec fn shared_res_done(
    o0: Seq<(ObjectId, PdfObject)>,
    o: Seq<(ObjectId, PdfObject)>,
    pages: Seq<ObjectId>,
    m0: int,
    pid: ObjectId,
    fid: ObjectId,
) -> bool {
    match shared_resources(o0, pages, m0, pid) {
        Some(rid) => fonted(lookup(o0, rid), lookup(o, rid), fid),
        None => true,
    }
}

fn contains_id(ids: &Vec<ObjectId>, id: ObjectId) -> (r: bool)
    ensures
        r == ids@.contains(id),
{
    let mut i: usize = 0;
    while i < ids.len()
        invariant
            i <= ids@.len(),
            forall|j: int| 0 <= j < i ==> ids@[j] != id,
        decreases ids@.len() - i,
    {
        if ids[i].0 == id.0 && ids[i].1 == id.1 {
            assert(ids@[i as int] == id);
            return true;
        }
        i = i + 1;
    }
    false
}

/// Draws `text` on every page of `doc`: one shared font object is added, and
/// each page that is a dictionary gets a new content stream (its first line at
/// height `tops[i]` on the `i`-th page) appended to its `Contents`, with `FWM`
/// ensured in its `Resources` (in the resources object it refers to, where it
/// refers to one; a `Font` entry that is itself a reference is kept as it
/// is). A page id with no object is an error; the
/// document is then partly changed and is to be discarded.
pub fn add_watermark_to_pdf(doc: &mut Document, text: &str, tops: &Vec<String>) -> (r: Result<(), String>)
    requires
        old(doc).wf(),
        tops@.len() == old(doc).pages@.len(),
        old(doc).max_id + old(doc).pages@.len() + 1 <= u32::MAX,
    ensures
        final(doc).pages == old(doc).pages,
        r matches Err(e) ==> e@ == "Failed to get page: object not found"@,
        forall|k: ObjectId|
            k.0 <= old(doc).max_id && !old(doc).pages@.contains(k) ==> #[trigger] lookup(
                final(doc).objects@,
                k,
            ) == lookup(old(doc).objects@, k) || (fonted(
                lookup(old(doc).objects@, k),
                lookup(final(doc).objects@, k),
                font_id(*old(doc)),
            ) && exists|i: int|
                0 <= i < old(doc).pages@.len() && #[trigger] shared_resources(
                    old(doc).objects@,
                    old(doc).pages@,
                    old(doc).max_id as int,
                    old(doc).pages@[i],
                ) == Some(k)),
        r is Ok ==> forall|i: int|
            0 <= i < old(doc).pages@.len() ==> #[trigger] shared_res_done(
                old(doc).objects@,
                final(doc).objects@,
                old(doc).pages@,
                old(doc).max_id as int,
                old(doc).pages@[i],
                font_id(*old(doc)),
            ),
        forall|k: ObjectId|
            (k.0 > final(doc).max_id || (k.0 > old(doc).max_id && k.1 != 0)) ==> #[trigger] lookup(
                final(doc).objects@,
                k,
            ) is None,
        r is Ok <==> forall|i: int|
            0 <= i < old(doc).pages@.len() ==> #[trigger] lookup(old(doc).objects@, old(doc).pages@[i]) is Some,
        r is Ok ==> final(doc).max_id == old(doc).max_id + 1 + dict_pages_before(
            old(doc).objects@,
            old(doc).pages@,
            old(doc).pages@.len() as int,
        ),
        r is Ok ==> is_font_object(lookup(final(doc).objects@, font_id(*old(doc)))),
        r is Ok ==> forall|i: int|
            0 <= i < old(doc).pages@.len() ==> #[trigger] page_done(
                old(doc).objects@,
                final(doc).objects@,
                old(doc).pages@[i],
                stream_id(*old(doc), i),
                font_id(*old(doc)),
                encode_utf8(program(tops@[i]@, text@)),
            ),
{
    let ghost d0 = *old(doc);
    let ghost o0 = old(doc).objects@;
    let ghost pg = old(doc).pages@;
    let ghost m0 = old(doc).max_id as int;
    let m0x = doc.max_id;
    proof {
        assert forall|k: ObjectId| k.0 > m0 implies #[trigger] lookup(o0, k) is None by {
            if lookup(o0, k) is Some {
                lemma_lookup_some(o0, k);
            }
        }
    }
    let fid = doc.add_object(font_object());
    let n = doc.pages.len();
    let mut i: usize = 0;
    while i < n
        invariant
            n == pg.len() == tops@.len(),
            d0.wf(),
            *old(doc) == d0,
            d0.objects@ == o0,
            d0.pages@ == pg,
            d0.max_id == m0,
            m0x == m0,
            m0 + n + 1 <= u32::MAX,
            fid == font_id(d0),
            doc.pages == d0.pages,
            i <= n,
            doc.max_id == m0 + 1 + dict_pages_before(o0, pg, i as int),
            is_font_object(lookup(doc.objects@, fid)),
            forall|k: ObjectId| k.0 > m0 ==> #[trigger] lookup(o0, k) is None,
            forall|k: ObjectId|
                k.0 <= m0 && !pg.contains(k) ==> #[trigger] lookup(doc.objects@, k) == lookup(o0, k)
                    || (fonted(lookup(o0, k), lookup(doc.objects@, k), fid) && exists|j: int|
                    0 <= j < i && #[trigger] shared_resources(o0, pg, m0, pg[j]) == Some(k)),
            forall|j: int|
                0 <= j < i ==> #[trigger] shared_res_done(o0, doc.objects@, pg, m0, pg[j], fid),
            forall|k: ObjectId|
                (k.0 > doc.max_id || (k.0 > m0 && k.1 != 0)) ==> #[trigger] lookup(doc.objects@, k) is None,
            forall|j: int| i <= j < n ==> #[trigger] lookup(doc.objects@, pg[j]) == lookup(o0, pg[j]),
            forall|j: int| 0 <= j < i ==> #[trigger] lookup(o0, pg[j]) is Some,
            forall|j: int|
                0 <= j < i ==> #[trigger] page_done(
                    o0,
                    doc.objects@,
                    pg[j],
                    stream_id(d0, j),
                    fid,
                    encode_utf8(program(tops@[j]@, text@)),
                ),
        decreases n - i,
    {
        proof {
            lemma_dict_pages_bounds(o0, pg, i as int, 0);
        }
        let pid = doc.pages[i];
        let is_dict = match doc.get_object(pid) {
            None => {
                assert(lookup(o0, pg[i as int]) is None);
                return Err("Failed to get page: object not found".to_owned());
            },
            Some(PdfObject::Dictionary(_)) => true,
            Some(_) => false,
        };
        let ghost before = doc.objects@;
        if !is_dict {
            assert(dict_pages_before(o0, pg, i + 1) == dict_pages_before(o0, pg, i as int));
            assert(page_done(o0, doc.objects@, pg[i as int], stream_id(d0, i as int), fid, encode_utf8(program(tops@[i as int]@, text@))));
        } else {
            let taken = doc.replace_object(pid, PdfObject::Null);
            let mut page = match taken {
                Some(PdfObject::Dictionary(d)) => d,
                _ => Dictionary::new(),
            };
            let ghost od = page;
            let rref: Option<ObjectId> = match page.get(resources_name().as_slice()) {
                Some(PdfObject::Reference(r)) => Some(*r),
                _ => None,
            };
            let content = program_bytes(tops[i].as_str(), text);
            let sid = doc.add_object(PdfObject::Stream(Dictionary::new(), content));
            assert(sid == stream_id(d0, i as int));
            watermark_page(&mut page, sid, fid);
            doc.replace_object(pid, PdfObject::Dictionary(page));
            let ghost mid = doc.objects@;
            proof {
                assert(dict_pages_before(o0, pg, i + 1) == dict_pages_before(o0, pg, i as int) + 1);
                assert(pid.0 <= m0);
                assert forall|j: int| 0 <= j < i implies #[trigger] page_done(
                    o0,
                    doc.objects@,
                    pg[j],
                    stream_id(d0, j),
                    fid,
                    encode_utf8(program(tops@[j]@, text@)),
                ) by {
                    lemma_dict_pages_bounds(o0, pg, i as int, j + 1);
                    lemma_dict_pages_bounds(o0, pg, j + 1, j);
                    assert(pg[j] != pid);
                    assert(pg[j].0 <= m0);
                    assert(page_done(o0, before, pg[j], stream_id(d0, j), fid, encode_utf8(program(tops@[j]@, text@))));
                }
                assert forall|k: ObjectId| k.0 <= m0 && !pg.contains(k) implies #[trigger] lookup(
                    doc.objects@,
                    k,
                ) == lookup(before, k) by {
                    if k == pid {
                        assert(pg.contains(k));
                    }
                }
                assert forall|k: ObjectId|
                    (k.0 > doc.max_id || (k.0 > m0 && k.1 != 0)) implies #[trigger] lookup(
                    doc.objects@,
                    k,
                ) is None by {
                    assert(k != pid);
                    assert(k != sid);
                    assert(lookup(before, k) is None);
                }
                assert forall|j: int| i < j < n implies #[trigger] lookup(doc.objects@, pg[j]) == lookup(o0, pg[j]) by {
                    assert(pg[j] != pid);
                    assert(pg[j].0 <= m0);
                    assert(lookup(before, pg[j]) == lookup(o0, pg[j]));
                }
                assert forall|j: int| 0 <= j < i implies #[trigger] shared_res_done(
                    o0,
                    doc.objects@,
                    pg,
                    m0,
                    pg[j],
                    fid,
                ) by {
                    assert(shared_res_done(o0, before, pg, m0, pg[j], fid));
                    if let Some(r) = shared_resources(o0, pg, m0, pg[j]) {
                        if r == pid {
                            assert(pg.contains(r));
                        }
                        assert(lookup(doc.objects@, r) == lookup(before, r));
                    }
                }
            }
            assert(page_done(o0, mid, pg[i as int], stream_id(d0, i as int), fid, encode_utf8(program(tops@[i as int]@, text@))));
            let mut edit = false;
            match rref {
                Some(rid) => {
                    if rid.0 <= m0x && !contains_id(&doc.pages, rid) {
                        edit = match doc.get_object(rid) {
                            Some(PdfObject::Dictionary(_)) => true,
                            _ => false,
                        };
                    }
                    if edit {
                        let ghost cur = lookup(doc.objects@, rid);
                        let taken_res = doc.replace_object(rid, PdfObject::Null);
                        let mut rd = match taken_res {
                            Some(PdfObject::Dictionary(d)) => d,
                            _ => Dictionary::new(),
                        };
                        let ghost crd = rd;
                        ensure_font(&mut rd, fid);
                        let ghost nrd = rd;
                        doc.replace_object(rid, PdfObject::Dictionary(rd));
                        proof {
                            assert(shared_resources(o0, pg, m0, pg[i as int]) == Some(rid));
                            if cur != lookup(o0, rid) {
                                lemma_res_dict_trans(
                                    lookup(o0, rid)->0->Dictionary_0.entries@,
                                    crd.entries@,
                                    nrd.entries@,
                                    fid,
                                );
                            }
                            assert(fonted(lookup(o0, rid), lookup(doc.objects@, rid), fid));
                            assert forall|k: ObjectId| k != rid implies #[trigger] lookup(doc.objects@, k)
                                == lookup(mid, k) by {}
                            assert forall|j: int| 0 <= j <= i implies #[trigger] page_done(
                                o0,
                                doc.objects@,
                                pg[j],
                                stream_id(d0, j),
                                fid,
                                encode_utf8(program(tops@[j]@, text@)),
                            ) by {
                                lemma_dict_pages_bounds(o0, pg, j, 0);
                                assert(pg[j] != rid) by {
                                    if pg[j] == rid {
                                        assert(pg.contains(rid));
                                    }
                                }
                                assert(page_done(o0, mid, pg[j], stream_id(d0, j), fid, encode_utf8(program(tops@[j]@, text@))));
                            }
                            assert forall|j: int| 0 <= j < i implies #[trigger] shared_res_done(
                                o0,
                                doc.objects@,
                                pg,
                                m0,
                                pg[j],
                                fid,
                            ) by {
                                assert(shared_res_done(o0, mid, pg, m0, pg[j], fid));
                                if shared_resources(o0, pg, m0, pg[j]) == Some(rid) {
                                    lemma_res_dict_trans(
                                        lookup(o0, rid)->0->Dictionary_0.entries@,
                                        crd.entries@,
                                        nrd.entries@,
                                        fid,
                                    );
                                }
                            }
                            assert forall|k: ObjectId| k.0 <= m0 && !pg.contains(k) implies #[trigger] lookup(
                                doc.objects@,
                                k,
                            ) == lookup(o0, k) || (fonted(lookup(o0, k), lookup(doc.objects@, k), fid)
                                && exists|j: int|
                                0 <= j < i + 1 && #[trigger] shared_resources(o0, pg, m0, pg[j])
                                == Some(k)) by {
                                if k == rid {
                                    assert(shared_resources(o0, pg, m0, pg[i as int]) == Some(k));
                                }
                            }
                        }
                    }
                },
                None => {},
            }
            proof {
                if !edit {
                    assert(shared_res_done(o0, doc.objects@, pg, m0, pg[i as int], fid));
                }
            }
        }
        i = i + 1;
    }
    Ok(())
}

} // verus!
