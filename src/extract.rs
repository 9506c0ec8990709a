//! Recovery of the watermark's fields from the text of a document: a scan for
//! literal strings shown with `Tj`, a line-oriented fallback, a cleaning pass
//! and the mapping of the cleaned lines onto the four fields.
use vstd::prelude::*;
use crate::text::{
    chars_of, find, find_spec, first_lines, first_n, lemma_find_from_bounds, lines_of,
    occurs_at, remove_all, same_chars, remove_all_exec, slice, starts_with, starts_with_exec, string_of,
    strip_prefixes, strip_prefixes_exec, trim, trim_slice, views,
};

verus! {

pub open spec fn marker() -> Seq<char> {
    "Digitally signed by "@
}

pub open spec fn show_op() -> Seq<char> {
    ") Tj"@
}

pub open spec fn step_down() -> Seq<char> {
    "0 -10 Td ("@
}

pub open spec fn step_up() -> Seq<char> {
    "0 500 Td ("@
}

pub open spec fn begin_text() -> Seq<char> {
    "BT"@
}

pub open spec fn end_text() -> Seq<char> {
    "ET"@
}

pub open spec fn hash_tag() -> Seq<char> {
    "Hash:"@
}

pub open spec fn no_extra() -> Seq<char> {
    "(none)"@
}

pub open spec fn no_hash() -> Seq<char> {
    "SHA256: (hash not found)"@
}

/// The cleaning pass applied to every recovered line: operator noise removed,
/// then whitespace trimmed.
pub open spec fn clean(l: Seq<char>) -> Seq<char> {
    trim(
        remove_all(
            remove_all(
                remove_all(remove_all(remove_all(l, show_op()), step_down()), step_up()),
                begin_text(),
            ),
            end_text(),
        ),
    )
}

/// The lighter cleaning of a physical line in the line-oriented fallback.
pub open spec fn clean_light(l: Seq<char>) -> Seq<char> {
    trim(remove_all(remove_all(l, show_op()), step_down()))
}

/// The non-empty elements of `s`, in order.
pub open spec fn keep_nonempty(s: Seq<Seq<char>>) -> Seq<Seq<char>>
    decreases s.len(),
{
    if s.len() == 0 {
        seq![]
    } else if s.last().len() > 0 {
        keep_nonempty(s.drop_last()).push(s.last())
    } else {
        keep_nonempty(s.drop_last())
    }
}

/// What the structured scan recovers from `rem`, having recovered `acc` so far:
/// an optional `0 ... Td (` prefix is skipped, then the body of the next
/// `( ... ) Tj` is taken, trimmed, and kept when non-empty; at most four lines.
pub open spec fn scan(rem: Seq<char>, acc: Seq<Seq<char>>) -> Seq<Seq<char>>
    decreases rem.len(),
{
    if acc.len() >= 4 {
        acc
    } else {
        let skipped: Option<Seq<char>> = match find_spec(rem, "0 "@) {
            Some(tp) => match find_spec(rem.subrange(tp, rem.len() as int), " Td ("@) {
                Some(te) => if 0 <= tp + te + 5 <= rem.len() {
                    Some(rem.subrange(tp + te + 5, rem.len() as int))
                } else {
                    None
                },
                None => None,
            },
            None => Some(rem),
        };
        match skipped {
            None => acc,
            Some(r) => if r.len() > rem.len() {
                acc
            } else {
                match find_spec(r, "("@) {
                    None => acc,
                    Some(op) => match find_spec(r.subrange(op, r.len() as int), show_op()) {
                        None => acc,
                        Some(cp) => if 0 <= op && 1 <= cp && op + cp + 4 <= r.len() {
                            let t = trim(r.subrange(op + 1, op + cp));
                            scan(
                                r.subrange(op + cp + 4, r.len() as int),
                                if t.len() > 0 {
                                    acc.push(t)
                                } else {
                                    acc
                                },
                            )
                        } else {
                            acc
                        },
                    },
                }
            },
        }
    }
}

/// What the line-oriented fallback recovers from the text after the marker:
/// the rest of the marker's line as the signer, then up to four lines.
pub open spec fn fallback(a: Seq<char>) -> Seq<Seq<char>> {
    match find_spec(a, "\n"@) {
        None => seq![],
        Some(nl) => {
            let name = trim(a.subrange(0, nl));
            let first: Seq<Seq<char>> = if name.len() > 0 && name != show_op() {
                seq![name]
            } else {
                seq![]
            };
            first + keep_nonempty(
                first_n(lines_of(a.subrange(nl + 1, a.len() as int)), 4).map_values(
                    |l: Seq<char>| clean_light(l),
                ),
            )
        },
    }
}

/// The cleaned lines recovered from text that starts at the marker, or `None`
/// where none is left.
pub open spec fn parse_spec(am: Seq<char>) -> Option<Seq<Seq<char>>> {
    let a: Option<Seq<char>> = match find_spec(am, marker()) {
        Some(ds) => Some(am.subrange(ds + 20, am.len() as int)),
        None => None,
    };
    let structured: Seq<Seq<char>> = match a {
        Some(t) => scan(t, seq![]),
        None => seq![],
    };
    let pre: Seq<Seq<char>> = if structured.len() >= 2 {
        structured
    } else {
        match a {
            Some(t) => fallback(t),
            None => seq![],
        }
    };
    let fin = keep_nonempty(pre.map_values(|l: Seq<char>| clean(l)));
    if fin.len() == 0 {
        None
    } else {
        Some(fin)
    }
}

/// The cleaning pass on one line.
pub fn clean_line(l: &str) -> (r: String)
    ensures
        r@ == clean(l@),
{
    string_of(&clean_chars(&chars_of(l)))
}

fn clean_chars(l: &Vec<char>) -> (r: Vec<char>)
    ensures
        r@ == clean(l@),
{
    proof {
        reveal_strlit(") Tj");
        reveal_strlit("0 -10 Td (");
        reveal_strlit("0 500 Td (");
        reveal_strlit("BT");
        reveal_strlit("ET");
    }
    let a = remove_all_exec(l, &chars_of(") Tj"));
    let b = remove_all_exec(&a, &chars_of("0 -10 Td ("));
    let c = remove_all_exec(&b, &chars_of("0 500 Td ("));
    let d = remove_all_exec(&c, &chars_of("BT"));
    let e = remove_all_exec(&d, &chars_of("ET"));
    proof {
        assert(e@.subrange(0, e@.len() as int) =~= e@);
    }
    trim_slice(&e, 0, e.len())
}

/// The lighter cleaning of a physical line in the line-oriented fallback.
fn clean_line_light(l: &Vec<char>) -> (r: Vec<char>)
    ensures
        r@ == clean_light(l@),
{
    proof {
        reveal_strlit(") Tj");
        reveal_strlit("0 -10 Td (");
    }
    let a = remove_all_exec(l, &chars_of(") Tj"));
    let b = remove_all_exec(&a, &chars_of("0 -10 Td ("));
    proof {
        assert(b@.subrange(0, b@.len() as int) =~= b@);
    }
    trim_slice(&b, 0, b.len())
}

proof fn lemma_keep_step(s: Seq<Seq<char>>, i: int, f: spec_fn(Seq<char>) -> Seq<char>)
    requires
        0 <= i < s.len(),
    ensures
        keep_nonempty(s.take(i + 1).map_values(f)) == if f(s[i]).len() > 0 {
            keep_nonempty(s.take(i).map_values(f)).push(f(s[i]))
        } else {
            keep_nonempty(s.take(i).map_values(f))
        },
{
    assert(s.take(i + 1).map_values(f).drop_last() =~= s.take(i).map_values(f));
}

/// The structured scan for `( ... ) Tj` bodies.
fn scan_exec(a: &Vec<char>) -> (r: Vec<Vec<char>>)
    ensures
        views(r@) == scan(a@, seq![]),
{
    proof {
        reveal_strlit("0 ");
        reveal_strlit(" Td (");
        reveal_strlit("(");
        reveal_strlit(") Tj");
    }
    let pos = chars_of("0 ");
    let td = chars_of(" Td (");
    let open = chars_of("(");
    let tj = chars_of(") Tj");
    let mut rem = slice(a, 0, a.len());
    let mut acc: Vec<Vec<char>> = Vec::new();
    let mut stop = false;
    assert(rem@ =~= a@);
    assert(views(acc@) =~= Seq::<Seq<char>>::empty());
    while !stop && acc.len() < 4
        invariant
            pos@ == "0 "@,
            td@ == " Td ("@,
            open@ == "("@,
            tj@ == show_op(),
            acc@.len() <= 4,
            scan(a@, seq![]) == scan(rem@, views(acc@)),
            stop ==> scan(rem@, views(acc@)) == views(acc@),
        decreases rem@.len() + if stop {
            0int
        } else {
            1int
        },
    {
        proof {
            reveal_strlit("0 ");
            reveal_strlit(" Td (");
            reveal_strlit("(");
            reveal_strlit(") Tj");
        }
        let r: Vec<char>;
        match find(&rem, &pos) {
            Some(tp) => {
                proof {
                    lemma_find_from_bounds(rem@, pos@, 0);
                }
                let tail = slice(&rem, tp, rem.len());
                match find(&tail, &td) {
                    Some(te) => {
                        proof {
                            lemma_find_from_bounds(tail@, td@, 0);
                        }
                        r = slice(&rem, tp + te + 5, rem.len());
                    },
                    None => {
                        stop = true;
                        continue;
                    },
                }
            },
            None => {
                r = slice(&rem, 0, rem.len());
                assert(r@ =~= rem@);
            },
        }
        match find(&r, &open) {
            None => {
                stop = true;
            },
            Some(op) => {
                proof {
                    lemma_find_from_bounds(r@, open@, 0);
                }
                let tail = slice(&r, op, r.len());
                match find(&tail, &tj) {
                    None => {
                        stop = true;
                    },
                    Some(cp) => {
                        proof {
                            lemma_find_from_bounds(tail@, tj@, 0);
                            assert(tail@.subrange(cp as int, cp + 4)[0] == tail@[cp as int]);
                            assert(r@.subrange(op as int, op + 1)[0] == r@[op as int]);
                        }
                        let t = trim_slice(&r, op + 1, op + cp);
                        let ghost acc0 = views(acc@);
                        let ghost rem0 = rem@;
                        if t.len() > 0 {
                            acc.push(t);
                            assert(views(acc@) =~= acc0.push(t@));
                        }
                        rem = slice(&r, op + cp + 4, r.len());
                        assert(scan(rem0, acc0) == scan(rem@, views(acc@)));
                    },
                }
            },
        }
    }
    acc
}

/// The line-oriented fallback.
fn fallback_exec(a: &Vec<char>) -> (r: Vec<Vec<char>>)
    ensures
        views(r@) == fallback(a@),
{
    proof {
        reveal_strlit("\n");
        reveal_strlit(") Tj");
    }
    let mut out: Vec<Vec<char>> = Vec::new();
    let nlp = chars_of("\n");
    assert(nlp@.len() == 1);
    match find(a, &nlp) {
        None => {
            assert(views(out@) =~= Seq::<Seq<char>>::empty());
        },
        Some(nl) => {
            proof {
                lemma_find_from_bounds(a@, nlp@, 0);
                assert(occurs_at(a@, nlp@, nl as int));
            }
            let name = trim_slice(a, 0, nl);
            if name.len() > 0 && !same_chars(&name, &chars_of(") Tj")) {
                out.push(name);
            }
            let ghost first = views(out@);
            let n = a.len();
            let rest = slice(a, nl + 1, n);
            let ls = first_lines(&rest, 4);
            let ghost src = views(ls@);
            let mut i: usize = 0;
            assert(src.take(0).map_values(|l: Seq<char>| clean_light(l)) =~= Seq::<
                Seq<char>,
            >::empty());
            assert(views(out@) =~= first + keep_nonempty(
                src.take(0).map_values(|l: Seq<char>| clean_light(l)),
            ));
            while i < ls.len()
                invariant
                    i <= ls@.len(),
                    src == views(ls@),
                    views(out@) == first + keep_nonempty(
                        src.take(i as int).map_values(|l: Seq<char>| clean_light(l)),
                    ),
                decreases ls@.len() - i,
            {
                let c = clean_line_light(&ls[i]);
                proof {
                    lemma_keep_step(src, i as int, |l: Seq<char>| clean_light(l));
                    assert(src[i as int] == ls@[i as int]@);
                }
                if c.len() > 0 {
                    let ghost before = views(out@);
                    out.push(c);
                    assert(views(out@) =~= before.push(c@));
                }
                i = i + 1;
            }
            assert(src.take(ls@.len() as int) =~= src);
        },
    }
    out
}

fn parse_chars(am: &Vec<char>) -> (r: Option<Vec<Vec<char>>>)
    ensures
        match r {
            Some(v) => parse_spec(am@) == Some(views(v@)),
            None => parse_spec(am@) is None,
        },
{
    proof {
        reveal_strlit("Digitally signed by ");
    }
    let m = chars_of("Digitally signed by ");
    let n = am.len();
    let a_opt: Option<Vec<char>> = match find(am, &m) {
        Some(ds) => {
            proof {
                lemma_find_from_bounds(am@, m@, 0);
                assert(occurs_at(am@, m@, ds as int));
            }
            Some(slice(am, ds + 20, n))
        },
        None => None,
    };
    let pre: Vec<Vec<char>> = match &a_opt {
        Some(a) => {
            let st = scan_exec(a);
            if st.len() >= 2 {
                st
            } else {
                fallback_exec(a)
            }
        },
        None => Vec::new(),
    };
    let ghost src = views(pre@);
    assert(src =~= match find_spec(am@, marker()) {
        Some(ds) => {
            let t = am@.subrange(ds + 20, am@.len() as int);
            if scan(t, seq![]).len() >= 2 {
                scan(t, seq![])
            } else {
                fallback(t)
            }
        },
        None => seq![],
    });
    let mut fin: Vec<Vec<char>> = Vec::new();
    let mut i: usize = 0;
    assert(src.take(0).map_values(|l: Seq<char>| clean(l)) =~= Seq::<Seq<char>>::empty());
    assert(views(fin@) =~= keep_nonempty(src.take(0).map_values(|l: Seq<char>| clean(l))));
    while i < pre.len()
        invariant
            i <= pre@.len(),
            src == views(pre@),
            views(fin@) == keep_nonempty(src.take(i as int).map_values(|l: Seq<char>| clean(l))),
        decreases pre@.len() - i,
    {
        let c = clean_chars(&pre[i]);
        proof {
            lemma_keep_step(src, i as int, |l: Seq<char>| clean(l));
            assert(src[i as int] == pre@[i as int]@);
        }
        if c.len() > 0 {
            let ghost before = views(fin@);
            fin.push(c);
            assert(views(fin@) =~= before.push(c@));
        }
        i = i + 1;
    }
    assert(src.take(pre@.len() as int) =~= src);
    if fin.len() == 0 {
        None
    } else {
        Some(fin)
    }
}

/// The cleaned lines that follow the marker in `after_marker`, or `None` when
/// the marker is absent or no non-empty line is left.
pub fn parse_signature_lines(after_marker: &str) -> (r: Option<Vec<String>>)
    ensures
        match r {
            Some(v) => parse_spec(after_marker@) == Some(v@.map_values(|x: String| x@)),
            None => parse_spec(after_marker@) is None,
        },
{
    let am = chars_of(after_marker);
    match parse_chars(&am) {
        None => None,
        Some(ls) => {
            let mut out: Vec<String> = Vec::new();
            let mut i: usize = 0;
            while i < ls.len()
                invariant
                    i <= ls@.len(),
                    out@.map_values(|x: String| x@) == views(ls@).take(i as int),
                decreases ls@.len() - i,
            {
                let s = string_of(&ls[i]);
                let ghost before = out@;
                out.push(s);
                assert(out@.map_values(|x: String| x@) =~= before.map_values(|x: String| x@).push(
                    s@,
                ));
                assert(views(ls@)[i as int] == ls@[i as int]@);
                assert(out@.map_values(|x: String| x@) =~= views(ls@).take(i + 1));
                i = i + 1;
            }
            assert(views(ls@).take(ls@.len() as int) =~= views(ls@));
            Some(out)
        },
    }
}

/// The hash carried by a `Hash:` line: the prefix removed, then trimmed.
pub open spec fn hash_value(l: Seq<char>) -> Seq<char> {
    trim(strip_prefixes(l, hash_tag()))
}

/// The fields (signer, timestamp, extra, hash) that the cleaned lines `ls`
/// give, by their number; the third line is the hash line when it starts
/// with `Hash:`, and the extra note otherwise.
pub open spec fn classify(ls: Seq<Seq<char>>) -> Option<
    (Seq<char>, Seq<char>, Seq<char>, Seq<char>),
> {
    if ls.len() >= 4 {
        if starts_with(ls[2], hash_tag()) {
            Some((ls[0], ls[1], no_extra(), hash_value(ls[2])))
        } else {
            Some((ls[0], ls[1], ls[2], hash_value(ls[3])))
        }
    } else if ls.len() == 3 {
        if starts_with(ls[2], hash_tag()) {
            Some((ls[0], ls[1], no_extra(), hash_value(ls[2])))
        } else {
            Some((ls[0], ls[1], ls[2], no_hash()))
        }
    } else if ls.len() == 2 {
        Some((ls[0], ls[1], no_extra(), no_hash()))
    } else {
        None
    }
}

/// The fields recovered from the text of a document.
pub open spec fn extract_spec(t: Seq<char>) -> Option<(Seq<char>, Seq<char>, Seq<char>, Seq<char>)> {
    match find_spec(t, marker()) {
        None => None,
        Some(st) => match parse_spec(t.subrange(st, t.len() as int)) {
            None => None,
            Some(ls) => classify(ls),
        },
    }
}

/// The views of four recovered fields.
pub open spec fn fields_view(r: Option<(String, String, String, String)>) -> Option<
    (Seq<char>, Seq<char>, Seq<char>, Seq<char>),
> {
    match r {
        Some(t) => Some((t.0@, t.1@, t.2@, t.3@)),
        None => None,
    }
}

fn hash_of_line(l: &String) -> (r: String)
    ensures
        r@ == hash_value(l@),
{
    proof {
        reveal_strlit("Hash:");
    }
    let c = chars_of(l.as_str());
    let s = strip_prefixes_exec(&c, &chars_of("Hash:"));
    assert(s@.subrange(0, s@.len() as int) =~= s@);
    string_of(&trim_slice(&s, 0, s.len()))
}

fn is_hash_line(l: &String) -> (r: bool)
    ensures
        r == starts_with(l@, hash_tag()),
{
    starts_with_exec(&chars_of(l.as_str()), &chars_of("Hash:"))
}

/// The fields (signer, timestamp, extra, hash) that the cleaned lines give.
pub fn classify_lines(lines: &Vec<String>) -> (r: Option<(String, String, String, String)>)
    ensures
        fields_view(r) == classify(lines@.map_values(|x: String| x@)),
{
    let ghost ls = lines@.map_values(|x: String| x@);
    let n = lines.len();
    if n < 2 {
        return None;
    }
    let signer = lines[0].clone();
    let timestamp = lines[1].clone();
    if n == 2 {
        return Some((signer, timestamp, string_of(&chars_of("(none)")), string_of(&chars_of("SHA256: (hash not found)"))));
    }
    let third_is_hash = is_hash_line(&lines[2]);
    assert(ls[2] == lines@[2]@);
    if third_is_hash {
        Some((signer, timestamp, string_of(&chars_of("(none)")), hash_of_line(&lines[2])))
    } else if n == 3 {
        Some((signer, timestamp, lines[2].clone(), string_of(&chars_of("SHA256: (hash not found)"))))
    } else {
        assert(ls[3] == lines@[3]@);
        Some((signer, timestamp, lines[2].clone(), hash_of_line(&lines[3])))
    }
}

/// The fields recovered from the text of a document, or `None` where it holds
/// no marker or no usable line after it.
pub fn extract_from_text(text: &str) -> (r: Option<(String, String, String, String)>)
    ensures
        fields_view(r) == extract_spec(text@),
{
    proof {
        reveal_strlit("Digitally signed by ");
    }
    let t = chars_of(text);
    let m = chars_of("Digitally signed by ");
    match find(&t, &m) {
        None => None,
        Some(st) => {
            proof {
                lemma_find_from_bounds(t@, m@, 0);
            }
            let am = string_of(&slice(&t, st, t.len()));
            match parse_signature_lines(am.as_str()) {
                None => None,
                Some(ls) => classify_lines(&ls),
            }
        },
    }
}

pub uninterp spec fn lossy_text(b: Seq<u8>) -> Seq<char>;

/// Relies on `String::from_utf8_lossy`: the decoding depends on the bytes
/// alone, and bytes below 128 decode one for one to the same characters.
#[verifier::external_body]
fn decode_lossy(b: &[u8]) -> (r: String)
    ensures
        r@ == lossy_text(b@),
        (forall|i: int| 0 <= i < b@.len() ==> b@[i] < 128) ==> r@ == b@.map_values(
            |x: u8| x as char,
        ),
{
    String::from_utf8_lossy(b).into_owned()
}

/// The watermark's fields (signer, timestamp, extra, hash) recovered from the
/// raw bytes of a document, or `None` where it is not watermarked.
pub fn extract_signature_info(pdf_data: &[u8]) -> (r: Option<(String, String, String, String)>)
    ensures
        fields_view(r) == extract_spec(lossy_text(pdf_data@)),
        (forall|i: int| 0 <= i < pdf_data@.len() ==> pdf_data@[i] < 128) ==> fields_view(r)
            == extract_spec(pdf_data@.map_values(|x: u8| x as char)),
{
    let text = decode_lossy(pdf_data);
    extract_from_text(text.as_str())
}

} // verus!
