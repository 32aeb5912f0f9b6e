use quick_xml::events::Event;
use quick_xml::{Reader, Writer};
use std::io::Cursor;
use svg_layers::xml::{read_tokens, render, write_token, Attribute, Token, TokenKind};

fn token(kind: TokenKind, content: &str) -> Token {
    Token { kind, content: content.as_bytes().to_vec(), attributes: Vec::new() }
}

fn attribute(key: &str, value: &str) -> Option<Attribute> {
    Some(Attribute { key: key.as_bytes().to_vec(), value: value.as_bytes().to_vec() })
}

/// Copies a document event by event with the reader and the writer of quick_xml.
fn copied_by_quick_xml(document: &[u8]) -> Vec<u8> {
    let mut reader = Reader::from_reader(document);
    reader.config_mut().trim_text(true);
    let mut writer = Writer::new(Cursor::new(Vec::new()));
    loop {
        match reader.read_event() {
            Ok(Event::Eof) => break,
            Ok(event) => writer.write_event(event).unwrap(),
            Err(error) => panic!("{:?}", error),
        }
    }
    writer.into_inner().into_inner()
}

const EVERY_KIND: &str = "<?xml version=\"1.0\"?>\n<!DOCTYPE svg>\n<!-- note -->\n<?target data?>\n<svg width=\"10\">\n  <g id='a'> some text </g >\n  <path d=\"M0 0\" />\n  <![CDATA[a < b]]>\n</svg>\n";

#[test]
fn reads_every_kind_of_token() {
    let stream = read_tokens(EVERY_KIND.as_bytes());
    assert!(stream.complete);
    let expected = vec![
        token(TokenKind::Decl, "xml version=\"1.0\""),
        token(TokenKind::DocType, "svg"),
        token(TokenKind::Comment, " note "),
        token(TokenKind::PI, "target data"),
        Token {
            kind: TokenKind::Start,
            content: b"svg width=\"10\"".to_vec(),
            attributes: vec![attribute("width", "10")],
        },
        Token {
            kind: TokenKind::Start,
            content: b"g id='a'".to_vec(),
            attributes: vec![attribute("id", "a")],
        },
        token(TokenKind::Text, "some text"),
        token(TokenKind::End, "g"),
        token(TokenKind::Empty, "path d=\"M0 0\" "),
        token(TokenKind::CData, "a < b"),
        token(TokenKind::End, "svg"),
    ];
    assert_eq!(stream.tokens, expected);
}

#[test]
fn writes_every_kind_of_token() {
    let stream = read_tokens(EVERY_KIND.as_bytes());
    let expected = "<?xml version=\"1.0\"?><!DOCTYPE svg><!-- note --><?target data?><svg width=\"10\"><g id='a'>some text</g><path d=\"M0 0\" /><![CDATA[a < b]]></svg>";
    assert_eq!(String::from_utf8(render(&stream.tokens)).unwrap(), expected);
}

#[test]
fn writes_what_quick_xml_writes() {
    let documents = [
        EVERY_KIND,
        "",
        "plain",
        "\u{feff}<a/>",
        "<a><b x=\"1\" y='2'>t</b><!----><c/></a>",
        "<!doctype html><p>caf\u{e9} &amp; t\u{e9}</p>",
    ];
    for document in documents {
        let stream = read_tokens(document.as_bytes());
        assert!(stream.complete);
        assert_eq!(render(&stream.tokens), copied_by_quick_xml(document.as_bytes()));
    }
}

#[test]
fn written_tokens_read_back_as_themselves() {
    let stream = read_tokens(EVERY_KIND.as_bytes());
    let again = read_tokens(&render(&stream.tokens));
    assert_eq!(again, stream);
}

#[test]
fn write_token_appends() {
    let mut out = b"x".to_vec();
    write_token(&mut out, &token(TokenKind::End, "g"));
    write_token(&mut out, &token(TokenKind::Text, "t"));
    write_token(&mut out, &token(TokenKind::Empty, "br"));
    assert_eq!(out, b"x</g>t<br/>".to_vec());
}

#[test]
fn text_is_trimmed_and_blank_text_is_dropped() {
    let stream = read_tokens(b"  <a>  x  y  </a>  \n");
    assert!(stream.complete);
    assert_eq!(
        stream.tokens,
        vec![
            Token {
                kind: TokenKind::Start,
                content: b"a".to_vec(),
                attributes: Vec::new(),
            },
            token(TokenKind::Text, "x  y"),
            token(TokenKind::End, "a"),
        ]
    );
}

#[test]
fn bytes_that_are_not_utf8_pass_through() {
    let document = b"<a t=\"\xe9\">\xff\xfe</a>".to_vec();
    let stream = read_tokens(&document);
    assert!(stream.complete);
    assert_eq!(stream.tokens[0].attributes, vec![Some(Attribute { key: b"t".to_vec(), value: vec![0xe9] })]);
    assert_eq!(stream.tokens[1].content, vec![0xff, 0xfe]);
    assert_eq!(render(&stream.tokens), document);
}

#[test]
fn malformed_attributes_are_marked() {
    let stream = read_tokens(b"<a x=\"1\" y=2 z=\"3\" x=\"4\" w>");
    assert!(stream.complete);
    assert_eq!(
        stream.tokens[0].attributes,
        vec![attribute("x", "1"), None, attribute("z", "3"), None, None]
    );
}

#[test]
fn name_ends_at_white_space() {
    let stream = read_tokens(b"<svg:g\tid=\"1\"><g\n></g><x/>");
    assert_eq!(stream.tokens[0].name(), b"svg:g");
    assert_eq!(stream.tokens[1].name(), b"g");
    assert_eq!(stream.tokens[2].name(), b"g");
    assert_eq!(stream.tokens[3].name(), b"x");
    assert_eq!(token(TokenKind::Start, "").name(), b"");
    assert_eq!(token(TokenKind::Start, " a").name(), b"");
}

#[test]
fn reading_stops_at_a_mismatched_end_tag() {
    let stream = read_tokens(b"<a><b></a><c/>");
    assert!(!stream.complete);
    assert_eq!(stream.tokens.len(), 2);
    assert_eq!(stream.tokens[1].content, b"b".to_vec());
}

#[test]
fn reading_stops_at_an_unclosed_tag() {
    let stream = read_tokens(b"<a>text<b");
    assert!(!stream.complete);
    assert_eq!(stream.tokens.len(), 2);
}

#[test]
fn an_empty_document_has_no_token() {
    let stream = read_tokens(b"");
    assert!(stream.complete);
    assert!(stream.tokens.is_empty());
    assert!(render(&stream.tokens).is_empty());
}

#[test]
fn duplicate_copies_a_token() {
    let stream = read_tokens(b"<a x=\"1\" y>");
    let copy = stream.tokens[0].duplicate();
    assert_eq!(copy, stream.tokens[0]);
}
