//! The watermark's text block, the content-stream program that draws it, and
//! the hash line that it carries.
use vstd::prelude::*;
use vstd::string::StringSliceAdditionalSpecFns;
use crate::text::{chars_of, string_of};
use sha2::Digest;

verus! {

/// `out` extended by the characters of `s`.
pub fn push_all(out: &mut Vec<char>, s: &Vec<char>)
    ensures
        final(out)@ == old(out)@ + s@,
{
    let mut i: usize = 0;
    while i < s.len()
        invariant
            i <= s@.len(),
            out@ == old(out)@ + s@.take(i as int),
        decreases s@.len() - i,
    {
        out.push(s[i]);
        assert(s@.take(i + 1) =~= s@.take(i as int).push(s@[i as int]));
        i = i + 1;
    }
    assert(s@.take(s@.len() as int) =~= s@);
}

/// The watermark text: `Digitally signed by <name>`, the timestamp, the extra
/// note when it is non-empty, and `Hash:<signature>`, one per line.
pub open spec fn watermark_text(
    name: Seq<char>,
    timestamp: Seq<char>,
    extra: Seq<char>,
    signature: Seq<char>,
) -> Seq<char> {
    if extra.len() == 0 {
        "Digitally signed by "@ + name + "\n"@ + timestamp + "\nHash:"@ + signature
    } else {
        "Digitally signed by "@ + name + "\n"@ + timestamp + "\n"@ + extra + "\nHash:"@
            + signature
    }
}

pub fn create_watermark_text(name: &str, timestamp: &str, extra: &str, signature: &str) -> (r:
    String)
    ensures
        r@ == watermark_text(name@, timestamp@, extra@, signature@),
{
    let mut out = chars_of("Digitally signed by ");
    push_all(&mut out, &chars_of(name));
    push_all(&mut out, &chars_of("\n"));
    push_all(&mut out, &chars_of(timestamp));
    let e = chars_of(extra);
    if e.len() > 0 {
        push_all(&mut out, &chars_of("\n"));
        push_all(&mut out, &e);
    }
    push_all(&mut out, &chars_of("\nHash:"));
    push_all(&mut out, &chars_of(signature));
    string_of(&out)
}

/// The segments of `s` between line breaks, where `cur` is the part of the
/// current segment already read, as `str::split('\n')` gives them.
pub open spec fn split_acc(s: Seq<char>, cur: Seq<char>) -> Seq<Seq<char>>
    decreases s.len(),
{
    if s.len() == 0 {
        seq![cur]
    } else if s[0] == '\n' {
        seq![cur] + split_acc(s.drop_first(), seq![])
    } else {
        split_acc(s.drop_first(), cur.push(s[0]))
    }
}

/// The segments of `s` between line breaks.
pub open spec fn split_lines(s: Seq<char>) -> Seq<Seq<char>> {
    split_acc(s, seq![])
}

/// The segments of `s` between line breaks.
pub fn split_lines_exec(s: &Vec<char>) -> (r: Vec<Vec<char>>)
    ensures
        r@.map_values(|x: Vec<char>| x@) == split_lines(s@),
{
    let n = s.len();
    let mut out: Vec<Vec<char>> = Vec::new();
    let mut cur: Vec<char> = Vec::new();
    let mut i: usize = 0;
    assert(s@.subrange(0, n as int) =~= s@);
    assert(out@.map_values(|x: Vec<char>| x@) + split_acc(s@, cur@) =~= split_lines(s@));
    while i < n
        invariant
            n == s@.len(),
            i <= n,
            split_lines(s@) == out@.map_values(|x: Vec<char>| x@) + split_acc(
                s@.subrange(i as int, n as int),
                cur@,
            ),
        decreases n - i,
    {
        let ghost rest = s@.subrange(i as int, n as int);
        assert(rest.drop_first() =~= s@.subrange(i + 1, n as int));
        assert(rest[0] == s@[i as int]);
        if s[i] == '\n' {
            let ghost before = out@.map_values(|x: Vec<char>| x@);
            let ghost c = cur@;
            out.push(cur);
            cur = Vec::new();
            assert(out@.map_values(|x: Vec<char>| x@) =~= before.push(c));
            assert(before + (seq![c] + split_acc(rest.drop_first(), seq![])) =~= before.push(c)
                + split_acc(rest.drop_first(), cur@));
        } else {
            cur.push(s[i]);
        }
        i = i + 1;
    }
    let ghost before = out@.map_values(|x: Vec<char>| x@);
    assert(s@.subrange(n as int, n as int) =~= Seq::<char>::empty());
    let ghost c = cur@;
    out.push(cur);
    assert(out@.map_values(|x: Vec<char>| x@) =~= before + seq![c]);
    out
}

/// The moves and shows of the lines of `ls` from the `i`-th on: ten units down
/// before each, except five hundred up before the last.
pub open spec fn moves(ls: Seq<Seq<char>>, i: int) -> Seq<char>
    decreases ls.len() - i,
{
    if i < 1 || i >= ls.len() {
        seq![]
    } else {
        (if i == ls.len() - 1 {
            "0 500 Td ("@
        } else {
            "0 -10 Td ("@
        }) + ls[i] + ") Tj\n"@ + moves(ls, i + 1)
    }
}

/// The content-stream program that draws the lines of `text` in the shared
/// font at size 8, the first at `(10, top)`.
pub open spec fn program(top: Seq<char>, text: Seq<char>) -> Seq<char> {
    let ls = split_lines(text);
    "q\nBT\n/FWM 8 Tf\n"@ + "10 "@ + top + " Td ("@ + ls[0] + ") Tj\n"@ + moves(ls, 1)
        + "ET\nQ"@
}

proof fn lemma_split_nonempty(s: Seq<char>, cur: Seq<char>)
    ensures
        split_acc(s, cur).len() >= 1,
    decreases s.len(),
{
    if s.len() > 0 {
        if s[0] == '\n' {
            lemma_split_nonempty(s.drop_first(), seq![]);
        } else {
            lemma_split_nonempty(s.drop_first(), cur.push(s[0]));
        }
    }
}

/// The content-stream program for `text`, its first line placed at height
/// `top` (the decimal text of the page's height less fifteen).
pub fn content_program(top: &str, text: &str) -> (r: String)
    ensures
        r@ == program(top@, text@),
{
    let ls = split_lines_exec(&chars_of(text));
    let ghost v = ls@.map_values(|x: Vec<char>| x@);
    proof {
        lemma_split_nonempty(text@, seq![]);
    }
    let mut out = chars_of("q\nBT\n/FWM 8 Tf\n");
    push_all(&mut out, &chars_of("10 "));
    push_all(&mut out, &chars_of(top));
    push_all(&mut out, &chars_of(" Td ("));
    push_all(&mut out, &ls[0]);
    push_all(&mut out, &chars_of(") Tj\n"));
    let n = ls.len();
    let mut i: usize = 1;
    let ghost head = out@;
    assert(v[0] == ls@[0]@);
    while i < n
        invariant
            n == ls@.len() == v.len(),
            1 <= i <= n,
            v == ls@.map_values(|x: Vec<char>| x@),
            out@ + moves(v, i as int) == head + moves(v, 1),
        decreases n - i,
    {
        let ghost before = out@;
        if i == n - 1 {
            push_all(&mut out, &chars_of("0 500 Td ("));
        } else {
            push_all(&mut out, &chars_of("0 -10 Td ("));
        }
        push_all(&mut out, &ls[i]);
        push_all(&mut out, &chars_of(") Tj\n"));
        assert(v[i as int] == ls@[i as int]@);
        assert(before + moves(v, i as int) =~= out@ + moves(v, i + 1));
        i = i + 1;
    }
    assert(moves(v, n as int) =~= Seq::<char>::empty());
    assert(out@ =~= out@ + moves(v, n as int));
    push_all(&mut out, &chars_of("ET\nQ"));
    assert(out@ =~= program(top@, text@));
    string_of(&out)
}

/// The lowercase hexadecimal digit of `n`, which is below sixteen.
pub open spec fn hex_digit(n: u8) -> char {
    if n < 10 {
        seq!['0', '1', '2', '3', '4', '5', '6', '7', '8', '9'][n as int]
    } else {
        seq!['a', 'b', 'c', 'd', 'e', 'f'][n - 10]
    }
}

/// Two lowercase hexadecimal digits for each byte of `b`, high digit first.
pub open spec fn hex_spec(b: Seq<u8>) -> Seq<char>
    decreases b.len(),
{
    if b.len() == 0 {
        seq![]
    } else {
        hex_spec(b.drop_last()) + seq![hex_digit(b.last() / 16), hex_digit(b.last() % 16)]
    }
}

proof fn lemma_hex_len(b: Seq<u8>)
    ensures
        hex_spec(b).len() == 2 * b.len(),
    decreases b.len(),
{
    if b.len() > 0 {
        lemma_hex_len(b.drop_last());
    }
}

/// Relies on `hex::encode`: two lowercase hexadecimal digits for each byte,
/// high digit first.
#[verifier::external_body]
fn hex_encode(b: &Vec<u8>) -> (r: String)
    ensures
        r@ == hex_spec(b@),
{
    hex::encode(b)
}

pub uninterp spec fn sha256_of(b: Seq<u8>) -> Seq<u8>;

/// Relies on `sha2::Sha256::digest`: the SHA-256 digest of the bytes, which
/// depends on them alone and is 32 bytes long.
#[verifier::external_body]
fn sha256(b: &Vec<u8>) -> (r: Vec<u8>)
    ensures
        r@ == sha256_of(b@),
        r@.len() == 32,
{
    sha2::Sha256::digest(b).to_vec()
}

/// The bytes that the signature hash covers: the document, then the UTF-8 of
/// the signer's name, the timestamp and the extra note.
pub open spec fn hashed_bytes(
    pdf_data: Seq<u8>,
    name: &str,
    timestamp: &str,
    extra: &str,
) -> Seq<u8> {
    pdf_data + name.spec_bytes() + timestamp.spec_bytes() + extra.spec_bytes()
}

pub fn push_bytes(out: &mut Vec<u8>, s: &[u8])
    ensures
        final(out)@ == old(out)@ + s@,
{
    let mut i: usize = 0;
    while i < s.len()
        invariant
            i <= s@.len(),
            out@ == old(out)@ + s@.take(i as int),
        decreases s@.len() - i,
    {
        out.push(s[i]);
        assert(s@.take(i + 1) =~= s@.take(i as int).push(s@[i as int]));
        i = i + 1;
    }
    assert(s@.take(s@.len() as int) =~= s@);
}

/// The hash line's value: `SHA256: ` and the hexadecimal SHA-256 digest of the
/// document's bytes followed by the name, the timestamp and the extra note.
pub fn compute_signature_hash(pdf_data: &[u8], name: &str, timestamp: &str, extra: &str) -> (r:
    String)
    ensures
        r@ == "SHA256: "@ + hex_spec(sha256_of(hashed_bytes(pdf_data@, name, timestamp, extra))),
        r@.len() == 72,
{
    proof {
        reveal_strlit("SHA256: ");
    }
    let mut bytes: Vec<u8> = Vec::new();
    push_bytes(&mut bytes, pdf_data);
    push_bytes(&mut bytes, name.as_bytes());
    push_bytes(&mut bytes, timestamp.as_bytes());
    push_bytes(&mut bytes, extra.as_bytes());
    let digest = sha256(&bytes);
    let hex = hex_encode(&digest);
    proof {
        lemma_hex_len(digest@);
    }
    let mut out = chars_of("SHA256: ");
    push_all(&mut out, &chars_of(hex.as_str()));
    string_of(&out)
}

} // verus!
