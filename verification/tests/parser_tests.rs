use memoq::sentences::extract_sentences;
use memoq::xliff::parse_xliff;
use std::io::Write;

#[test]
fn parse_txt_basic() {
    let input = b"Hello world.\nGoodbye.\n\nThird line.";
    let result = extract_sentences(input, "test.txt").ok().unwrap();
    assert_eq!(result, vec!["Hello world.", "Goodbye.", "Third line."]);
}

#[test]
fn parse_txt_trims_whitespace() {
    let input = b"  hello  \n  world  ";
    let result = extract_sentences(input, "test.txt").ok().unwrap();
    assert_eq!(result, vec!["hello", "world"]);
}

#[test]
fn parse_xliff_extracts_sources() {
    let xliff = "<?xml version=\"1.0\"?>\n\
<xliff version=\"1.2\">\n\
  <file>\n\
    <body>\n\
      <trans-unit id=\"1\"><source>Hello</source><target>Hola</target></trans-unit>\n\
      <trans-unit id=\"2\"><source>World</source><target>Mundo</target></trans-unit>\n\
    </body>\n\
  </file>\n\
</xliff>";
    let result = extract_sentences(xliff.as_bytes(), "doc.xliff").ok().unwrap();
    assert_eq!(result, vec!["Hello", "World"]);
}

#[test]
fn unsupported_format_returns_error() {
    let result = extract_sentences(b"data", "file.pdf");
    assert!(result.is_err());
    assert!(result.err().unwrap().message.contains("Unsupported"));
}

#[test]
fn test_parse_xliff_basic() {
    let xliff = r#"<?xml version="1.0"?>
<xliff version="1.2">
  <file>
    <body>
      <trans-unit id="1">
        <source>Hello world</source>
        <target>안녕 세계</target>
      </trans-unit>
      <trans-unit id="2">
        <source>Goodbye</source>
        <target></target>
      </trans-unit>
    </body>
  </file>
</xliff>"#;

    let segs = parse_xliff(xliff.as_bytes()).ok().unwrap();
    assert_eq!(segs.len(), 2);
    assert_eq!(segs[0].source, "Hello world");
    assert_eq!(segs[0].target, "안녕 세계");
    assert_eq!(segs[1].source, "Goodbye");
    assert_eq!(segs[1].target, "");
}

#[test]
fn unsupported_format_message_names_the_file() {
    let result = extract_sentences(b"data", "report.PDF");
    assert_eq!(
        result.err().unwrap().message,
        "Unsupported file format: 'report.PDF'.  Accepted: .txt, .xliff, .xlf, .docx"
    );
}

#[test]
fn txt_extension_is_case_insensitive() {
    let result = extract_sentences(b"one\ntwo", "NOTES.TXT").ok().unwrap();
    assert_eq!(result, vec!["one", "two"]);
}

#[test]
fn txt_invalid_utf8_is_refused() {
    let result = extract_sentences(&[0xff, 0xfe, 0x41], "a.txt");
    assert_eq!(result.err().unwrap().message, "TXT file is not valid UTF-8");
}

#[test]
fn xliff_invalid_utf8_is_refused() {
    let result = extract_sentences(&[0xff, 0x3c], "a.xlf");
    assert_eq!(result.err().unwrap().message, "XLIFF file is not valid UTF-8");
}

#[test]
fn xliff_entities_are_unescaped() {
    let xliff = "<xliff><file><body><trans-unit id=\"1\"><source>a &amp; b</source><target>c &lt; d</target></trans-unit></body></file></xliff>";
    let segs = parse_xliff(xliff.as_bytes()).ok().unwrap();
    assert_eq!(segs.len(), 1);
    assert_eq!(segs[0].source, "a & b");
    assert_eq!(segs[0].target, "c < d");
}

#[test]
fn xliff_without_units_gives_nothing() {
    let xliff = "<xliff version=\"1.2\"><file><body></body></file></xliff>";
    let segs = parse_xliff(xliff.as_bytes()).ok().unwrap();
    assert!(segs.is_empty());
}

#[test]
fn docx_that_is_not_a_zip_is_refused() {
    let result = extract_sentences(b"not a zip archive", "doc.docx");
    assert!(result.is_err());
}

fn zip_with(name: &str, content: &str) -> Vec<u8> {
    let mut buf = std::io::Cursor::new(Vec::new());
    {
        let mut w = zip::ZipWriter::new(&mut buf);
        let opts = zip::write::SimpleFileOptions::default().compression_method(zip::CompressionMethod::Stored);
        w.start_file(name, opts).unwrap();
        w.write_all(content.as_bytes()).unwrap();
        w.finish().unwrap();
    }
    buf.into_inner()
}

#[test]
fn docx_paragraphs_are_sentences() {
    let xml = "<w:document><w:body>\
<w:p><w:r><w:t>Hello </w:t></w:r><w:r><w:t>world</w:t></w:r></w:p>\
<w:p><w:r><w:t>   </w:t></w:r></w:p>\
<w:p><w:r><w:t>Bye &amp; go</w:t></w:r></w:p>\
</w:body></w:document>";
    let result = extract_sentences(&zip_with("word/document.xml", xml), "Report.DOCX").ok().unwrap();
    assert_eq!(result, vec!["Hello world", "Bye & go"]);
}

#[test]
fn docx_without_document_part_is_refused() {
    let bytes = zip_with("other.xml", "<x/>");
    assert_eq!(
        extract_sentences(&bytes, "a.docx").err().unwrap().message,
        "word/document.xml not found in DOCX"
    );
    assert_eq!(
        extract_sentences(b"plain bytes", "a.docx").err().unwrap().message,
        "Failed to open DOCX as ZIP"
    );
}
