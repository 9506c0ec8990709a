use sigillum::extract::{
    classify_lines, clean_line, extract_from_text, extract_signature_info, parse_signature_lines,
};
use sigillum::records::verify_pdf;
use sigillum::watermark::{content_program, create_watermark_text};

fn s(x: &str) -> String {
    x.to_string()
}

fn fields(a: &str, b: &str, c: &str, d: &str) -> Option<(String, String, String, String)> {
    Some((s(a), s(b), s(c), s(d)))
}

fn wrap_in_pdf(content: &str) -> Vec<u8> {
    format!(
        "%PDF-1.5\n1 0 obj\n<< /Type /Catalog >>\nendobj\n4 0 obj\n<< /Length {} >>\nstream\n{}\nendstream\nendobj\ntrailer\n<< /Root 1 0 R >>\n%%EOF\n",
        content.len(),
        content
    )
    .into_bytes()
}

fn program_text(top: &str, text: &str) -> String {
    content_program(top, text)
}

#[test]
fn alice_without_extra_round_trip() {
    let text = create_watermark_text("Alice", "2024-01-01 00:00:00 UTC", "", "SHA256: abcd");
    assert_eq!(text, "Digitally signed by Alice\n2024-01-01 00:00:00 UTC\nHash:SHA256: abcd");
    let bytes = wrap_in_pdf(&program_text("777", &text));
    assert_eq!(
        extract_signature_info(&bytes),
        fields("Alice", "2024-01-01 00:00:00 UTC", "(none)", "SHA256: abcd")
    );
}

#[test]
fn bob_with_extra_round_trip() {
    let text = create_watermark_text("Bob", "2024-01-01 00:00:00 UTC", "dept:legal", "SHA256: abcd");
    assert_eq!(
        text,
        "Digitally signed by Bob\n2024-01-01 00:00:00 UTC\ndept:legal\nHash:SHA256: abcd"
    );
    assert_eq!(text.split('\n').count(), 4);
    let bytes = wrap_in_pdf(&program_text("777", &text));
    assert_eq!(
        extract_signature_info(&bytes),
        fields("Bob", "2024-01-01 00:00:00 UTC", "dept:legal", "SHA256: abcd")
    );
}

#[test]
fn round_trip_on_the_bare_program() {
    let text = create_watermark_text("Carol", "2024-05-06 07:08:09 UTC", "", "SHA256: ff00");
    let p = program_text("826.89", &text);
    assert_eq!(
        extract_from_text(&p),
        fields("Carol", "2024-05-06 07:08:09 UTC", "(none)", "SHA256: ff00")
    );
}

#[test]
fn one_line_block_reads_the_lines_that_follow() {
    let bytes = wrap_in_pdf(&program_text("777", "Digitally signed by Solo"));
    assert_eq!(extract_signature_info(&bytes), fields("Solo", "Q", "endstream", "endobj"));
    assert_eq!(
        extract_from_text(&program_text("777", "Digitally signed by Solo")),
        fields("Solo", "Q", "(none)", "SHA256: (hash not found)")
    );
}

#[test]
fn bytes_without_marker_are_unsigned() {
    assert_eq!(extract_signature_info(b"%PDF-1.4\nno watermark here\n%%EOF"), None);
    assert_eq!(extract_signature_info(b""), None);
    assert_eq!(extract_signature_info(b"Digitally signed by"), None);
}

#[test]
fn marker_without_lines_is_unsigned() {
    assert_eq!(extract_from_text("Digitally signed by X"), None);
}

#[test]
fn non_utf8_noise_around_the_watermark() {
    let mut bytes: Vec<u8> = vec![0xff, 0xfe, 0x00, 0x80];
    bytes.extend_from_slice(&wrap_in_pdf(&program_text(
        "777",
        "Digitally signed by Alice\n2024-01-01 00:00:00 UTC\nHash:SHA256: abcd",
    )));
    bytes.extend_from_slice(&[0xc3, 0x28]);
    assert_eq!(
        extract_signature_info(&bytes),
        fields("Alice", "2024-01-01 00:00:00 UTC", "(none)", "SHA256: abcd")
    );
}

#[test]
fn plain_lines_fall_back_to_line_reading() {
    assert_eq!(
        extract_from_text("Digitally signed by Alice\nline two\n"),
        fields("Alice", "line two", "(none)", "SHA256: (hash not found)")
    );
    assert_eq!(
        extract_from_text("Digitally signed by Eve\nT\nx\ny\nHash:Hash: z \nmore"),
        fields("Eve", "T", "x", "y")
    );
}

#[test]
fn structured_shows_after_marker() {
    assert_eq!(
        extract_from_text(
            "xx Digitally signed by Ann) Tj\n0 -10 Td (T1) Tj\n0 -10 Td (note) Tj\n0 500 Td (Hash:H1) Tj\nET\nQ"
        ),
        fields("Ann", "T1", "note", "H1")
    );
    assert_eq!(extract_from_text("Digitally signed by Dan\nts\nHash:h"), fields("Dan", "ts", "(none)", "h"));
}

#[test]
fn parse_lines_of_a_structured_block() {
    assert_eq!(parse_signature_lines("Digitally signed by (A) Tj 0 -10 Td (B) Tj (C) Tj"), None);
    assert_eq!(parse_signature_lines("nothing"), None);
    assert_eq!(
        parse_signature_lines("Digitally signed by Zed\n0 -10 Td (when) Tj\nBT ET\n"),
        Some(vec![s("Zed"), s("when")])
    );
}

#[test]
fn classify_two_lines() {
    assert_eq!(
        classify_lines(&vec![s("A"), s("T")]),
        fields("A", "T", "(none)", "SHA256: (hash not found)")
    );
}

#[test]
fn classify_three_lines() {
    assert_eq!(
        classify_lines(&vec![s("A"), s("T"), s("Hash:  h1 ")]),
        fields("A", "T", "(none)", "h1")
    );
    assert_eq!(
        classify_lines(&vec![s("A"), s("T"), s("note")]),
        fields("A", "T", "note", "SHA256: (hash not found)")
    );
}

#[test]
fn classify_four_lines() {
    assert_eq!(
        classify_lines(&vec![s("A"), s("T"), s("Hash:h1"), s("Q")]),
        fields("A", "T", "(none)", "h1")
    );
    assert_eq!(
        classify_lines(&vec![s("A"), s("T"), s("note"), s("Hash:Hash:h2")]),
        fields("A", "T", "note", "h2")
    );
}

#[test]
fn classify_five_or_more_lines() {
    assert_eq!(
        classify_lines(&vec![s("A"), s("T"), s("note"), s("Hash:h"), s("extra line")]),
        fields("A", "T", "note", "h")
    );
    assert_eq!(
        classify_lines(&vec![s("A"), s("T"), s("Hash:x"), s("y"), s("z"), s("w")]),
        fields("A", "T", "(none)", "x")
    );
}

#[test]
fn classify_too_few_lines() {
    assert_eq!(classify_lines(&vec![s("A")]), None);
    assert_eq!(classify_lines(&vec![]), None);
}

fn cleaned(x: &str) -> String {
    clean_line(x)
}

#[test]
fn cleaning_removes_operator_noise() {
    assert_eq!(cleaned("0 500 Td (Hash:SHA256: abcd) Tj"), "Hash:SHA256: abcd");
    assert_eq!(cleaned("  0 -10 Td (when) Tj  "), "when");
    assert_eq!(cleaned("BT"), "");
    assert_eq!(cleaned("\tET \r"), "");
}

#[test]
fn cleaning_twice_changes_nothing() {
    for x in ["0 500 Td (Hash:SHA256: abcd) Tj", "  plain  ", "a BT b", "", "\u{3000}x\u{a0}"] {
        let once = cleaned(x);
        assert_eq!(cleaned(&once), once);
    }
}

#[test]
fn cleaning_twice_can_differ_when_noise_is_formed() {
    assert_eq!(cleaned("BBTT"), "BT");
    assert_eq!(cleaned("BT"), "");
}

#[test]
fn cleaning_trims_as_std_does() {
    for x in ["  a b  ", "\u{2003}x\u{85}", "", "   ", "\ny\r\n", "\u{feff}z\u{200b}", "\u{1680}\u{3000}w\u{202f}"] {
        assert_eq!(cleaned(x), x.trim());
    }
}

#[test]
fn fallback_reads_lines_as_std_does() {
    assert_eq!(
        parse_signature_lines("Digitally signed by A\r\nb\r\n\r\nc\nd\ne\nf"),
        Some(vec![s("A"), s("b"), s("c"), s("d")])
    );
    assert_eq!(
        parse_signature_lines("Digitally signed by A\n\n\n\n\nlate"),
        Some(vec![s("A")])
    );
}

#[test]
fn verify_reports_signed_and_unsigned() {
    let bytes = wrap_in_pdf(&program_text(
        "777",
        "Digitally signed by Bob\n2024-01-01 00:00:00 UTC\ndept:legal\nHash:SHA256: abcd",
    ));
    let signed = verify_pdf(bytes).unwrap();
    assert!(signed.is_signed);
    assert_eq!(signed.message, "PDF has a digital signature");
    let info = signed.signature_info.unwrap();
    assert_eq!(info.signer_name, "Bob");
    assert_eq!(info.timestamp, "2024-01-01 00:00:00 UTC");
    assert_eq!(info.extra, "dept:legal");
    assert_eq!(info.signature, "SHA256: abcd");
    let unsigned = verify_pdf(b"%PDF-1.4\n%%EOF".to_vec()).unwrap();
    assert!(!unsigned.is_signed);
    assert!(unsigned.signature_info.is_none());
    assert_eq!(unsigned.message, "PDF does not contain a digital signature");
}
