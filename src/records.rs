//! The records that signing and verification hand back, and the two
//! operations that compose the watermark's parts.
use vstd::prelude::*;
use vstd::utf8::encode_utf8;
use crate::document::{Document, lookup};
use crate::encoder::{add_watermark_to_pdf, dict_pages_before, font_id, is_font_object, page_done, stream_id};
use crate::extract::{extract_signature_info, extract_spec, lossy_text};
use crate::watermark::{compute_signature_hash, create_watermark_text, hashed_bytes, hex_spec, program, sha256_of, watermark_text};

verus! {

/// A key pair as PEM text.
#[derive(Debug, Clone)]
pub struct KeyPair {
    pub public_key: String,
    pub private_key: String,
}

/// The four fields of a watermark.
#[derive(Debug, Clone)]
pub struct SignatureInfo {
    pub signer_name: String,
    pub timestamp: String,
    pub extra: String,
    pub signature: String,
}

/// A request to sign a document.
#[derive(Debug, Clone)]
pub struct SignPdfRequest {
    pub pdf_data: Vec<u8>,
    pub name: String,
    pub extra: String,
}

/// A signed document and what its watermark says.
#[derive(Debug, Clone)]
pub struct SignPdfResponse {
    pub signed_pdf: Vec<u8>,
    pub signature_info: SignatureInfo,
}

/// What verification found in a document.
#[derive(Debug, Clone)]
pub struct VerifyPdfResponse {
    pub is_signed: bool,
    pub signature_info: Option<SignatureInfo>,
    pub message: String,
}

/// The watermark found in `pdf_data`, if any, with a message saying which.
pub fn verify_pdf(pdf_data: Vec<u8>) -> (r: Result<VerifyPdfResponse, String>)
    ensures
        r matches Ok(v) && v.is_signed == extract_spec(lossy_text(pdf_data@)) is Some && match (
            v.signature_info,
            extract_spec(lossy_text(pdf_data@)),
        ) {
            (Some(i), Some(f)) => f == (i.signer_name@, i.timestamp@, i.extra@, i.signature@)
                && v.message@ == "PDF has a digital signature"@,
            (None, None) => v.message@ == "PDF does not contain a digital signature"@,
            _ => false,
        },
{
    match extract_signature_info(pdf_data.as_slice()) {
        Some((signer_name, timestamp, extra, signature)) => Ok(
            VerifyPdfResponse {
                is_signed: true,
                signature_info: Some(SignatureInfo { signer_name, timestamp, extra, signature }),
                message: "PDF has a digital signature".to_owned(),
            },
        ),
        None => Ok(
            VerifyPdfResponse {
                is_signed: false,
                signature_info: None,
                message: "PDF does not contain a digital signature".to_owned(),
            },
        ),
    }
}

/// Signs the document `doc`, loaded from `pdf_data`: the hash covers the
/// bytes, the name, the timestamp and the extra note; the watermark carrying
/// them is drawn on every page (the first line of page `i` at height
/// `tops[i]`).
pub fn sign_document(
    doc: &mut Document,
    pdf_data: &[u8],
    name: &str,
    timestamp: &str,
    extra: &str,
    tops: &Vec<String>,
) -> (r: Result<SignatureInfo, String>)
    requires
        old(doc).wf(),
        tops@.len() == old(doc).pages@.len(),
        old(doc).max_id + old(doc).pages@.len() + 1 <= u32::MAX,
    ensures
        final(doc).pages == old(doc).pages,
        r is Ok <==> forall|i: int|
            0 <= i < old(doc).pages@.len() ==> #[trigger] lookup(old(doc).objects@, old(doc).pages@[i]) is Some,
        r matches Ok(info) ==> info.signer_name@ == name@ && info.timestamp@ == timestamp@
            && info.extra@ == extra@ && info.signature@ == "SHA256: "@ + hex_spec(
            sha256_of(hashed_bytes(pdf_data@, name, timestamp, extra)),
        ),
        r matches Ok(info) ==> is_font_object(lookup(final(doc).objects@, font_id(*old(doc))))
            && final(doc).max_id == old(doc).max_id + 1 + dict_pages_before(
            old(doc).objects@,
            old(doc).pages@,
            old(doc).pages@.len() as int,
        ) && forall|i: int|
            0 <= i < old(doc).pages@.len() ==> #[trigger] page_done(
                old(doc).objects@,
                final(doc).objects@,
                old(doc).pages@[i],
                stream_id(*old(doc), i),
                font_id(*old(doc)),
                encode_utf8(
                    program(
                        tops@[i]@,
                        watermark_text(name@, timestamp@, extra@, info.signature@),
                    ),
                ),
            ),
{
    let signature = compute_signature_hash(pdf_data, name, timestamp, extra);
    let text = create_watermark_text(name, timestamp, extra, signature.as_str());
    match add_watermark_to_pdf(doc, text.as_str(), tops) {
        Err(e) => Err(e),
        Ok(()) => Ok(
            SignatureInfo {
                signer_name: name.to_owned(),
                timestamp: timestamp.to_owned(),
                extra: extra.to_owned(),
                signature,
            },
        ),
    }
}

} // verus!
