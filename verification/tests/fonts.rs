use quick_xml::events::attributes::Attribute as XmlAttribute;
use quick_xml::events::{BytesStart, Event};
use quick_xml::name::QName;
use quick_xml::{Reader, Writer};
use std::borrow::Cow;
use std::io::Cursor;
use svg_layers::error::SvgError;
use svg_layers::fonts::{convert_font, replace_fonts, FontPass};
use svg_layers::rewrite::{rewrite, rewrite_stream, rewrite_tokens};
use svg_layers::xml::{read_tokens, render, Attribute};

fn text(bytes: Vec<u8>) -> String {
    String::from_utf8(bytes).unwrap()
}

/// The substitution written with quick_xml's reader, start tags and writer.
fn substituted_by_quick_xml(document: &[u8]) -> Vec<u8> {
    let mut reader = Reader::from_reader(document);
    reader.config_mut().trim_text(true);
    let mut writer = Writer::new(Cursor::new(Vec::new()));
    loop {
        match reader.read_event() {
            Ok(Event::Start(e)) if e.name().as_ref() == b"text" => {
                let mut tag = BytesStart::new("text");
                for item in e.attributes() {
                    let found = item.unwrap();
                    if found.key.as_ref() == b"font-family" && found.value.as_ref() == b"Helvetica" {
                        tag.push_attribute(XmlAttribute {
                            key: QName(b"font-family"),
                            value: Cow::Borrowed(b"sans-serif".as_slice()),
                        });
                    } else {
                        tag.push_attribute(found);
                    }
                }
                writer.write_event(Event::Start(tag)).unwrap()
            }
            Ok(Event::Eof) => break,
            Ok(event) => writer.write_event(event).unwrap(),
            Err(error) => panic!("{:?}", error),
        }
    }
    writer.into_inner().into_inner()
}

#[test]
fn helvetica_becomes_sans_serif() {
    let doc = br#"<svg><text font-family="Helvetica" x="1">Hi</text></svg>"#.to_vec();
    let out = replace_fonts(doc).unwrap();
    assert_eq!(text(out), r#"<svg><text font-family="sans-serif" x="1">Hi</text></svg>"#);
}

#[test]
fn other_families_are_kept() {
    let doc = br#"<svg><text font-family="Arial" y='2'>Hi</text><text font-family="helvetica"/><text font-family="Helvetica Neue">x</text></svg>"#.to_vec();
    let out = replace_fonts(doc).unwrap();
    assert_eq!(
        text(out),
        r#"<svg><text font-family="Arial" y="2">Hi</text><text font-family="helvetica"/><text font-family="Helvetica Neue">x</text></svg>"#
    );
}

#[test]
fn only_text_elements_are_touched() {
    let doc = br#"<svg font-family="Helvetica"><tspan font-family='Helvetica'>a</tspan><text font-family="Helvetica"/><g font-family="Helvetica"></g></svg>"#.to_vec();
    let out = replace_fonts(doc.clone()).unwrap();
    assert_eq!(out, doc);
}

#[test]
fn only_the_family_attribute_is_substituted() {
    let doc = br#"<text id="Helvetica" font-family="Helvetica" style="Helvetica">a</text>"#.to_vec();
    let out = replace_fonts(doc).unwrap();
    assert_eq!(text(out), r#"<text id="Helvetica" font-family="sans-serif" style="Helvetica">a</text>"#);
}

#[test]
fn a_text_tag_without_attributes_is_kept() {
    let out = replace_fonts(b"<text >a</text>".to_vec()).unwrap();
    assert_eq!(text(out), "<text>a</text>");
}

#[test]
fn convert_font_maps_the_value() {
    let helvetica = Attribute { key: b"any".to_vec(), value: b"Helvetica".to_vec() };
    assert_eq!(convert_font(helvetica), Attribute { key: b"any".to_vec(), value: b"sans-serif".to_vec() });
    let arial = Attribute { key: b"font-family".to_vec(), value: b"Arial".to_vec() };
    assert_eq!(convert_font(arial.clone()), arial);
    let empty = Attribute { key: Vec::new(), value: Vec::new() };
    assert_eq!(convert_font(empty.clone()), empty);
}

#[test]
fn substitution_agrees_with_quick_xml() {
    let documents = [
        r#"<svg><text font-family="Helvetica" x="1">Hi</text></svg>"#,
        "<?xml version=\"1.0\"?>\n<svg>\n <text\n   font-family = 'Helvetica'\n   style=\"a: b\" >caf\u{e9}</text >\n <text/>\n</svg>\n",
        r#"<text a='"' font-family="Arial">x</text>"#,
        "<svg><g><text>plain</text></g><!-- text --></svg>",
    ];
    for document in documents {
        assert_eq!(
            replace_fonts(document.as_bytes().to_vec()),
            Ok(substituted_by_quick_xml(document.as_bytes()))
        );
    }
}

#[test]
fn a_pass_without_target_writes_the_tokens_it_read() {
    let doc = b"<?xml version=\"1.0\"?>\n<svg>\n  <g id=\"a\"> x </g >\n</svg>\n".to_vec();
    let stream = read_tokens(&doc);
    assert_eq!(rewrite_tokens(&FontPass, &stream.tokens), Ok(stream.tokens.clone()));
    let out = replace_fonts(doc).unwrap();
    assert_eq!(out, render(&stream.tokens));
    assert_eq!(read_tokens(&out), stream);
    assert_eq!(replace_fonts(out.clone()), Ok(out));
}

#[test]
fn a_malformed_document_is_rejected() {
    assert_eq!(replace_fonts(b"<svg><g></svg>".to_vec()), Err(SvgError::XmlParseError));
    assert_eq!(replace_fonts(b"<svg><text x=\"1\"".to_vec()), Err(SvgError::XmlParseError));
    assert_eq!(replace_fonts(b"</svg>".to_vec()), Err(SvgError::XmlParseError));
}

#[test]
fn a_malformed_attribute_of_a_text_tag_is_rejected() {
    assert_eq!(replace_fonts(b"<svg><text x=1>a</text></svg>".to_vec()), Err(SvgError::XmlParseError));
    assert_eq!(
        replace_fonts(b"<svg><text x=\"1\" x=\"2\">a</text></svg>".to_vec()),
        Err(SvgError::XmlParseError)
    );
    assert_eq!(
        text(replace_fonts(b"<svg><g x=1><text>a</text></g></svg>".to_vec()).unwrap()),
        "<svg><g x=1><text>a</text></g></svg>"
    );
}

#[test]
fn stages_of_a_pass_agree() {
    let doc = br#"<svg><text font-family="Helvetica">Hi</text></svg>"#;
    let stream = read_tokens(doc);
    let written = rewrite_tokens(&FontPass, &stream.tokens).unwrap();
    assert_eq!(written[1].content, b"text font-family=\"sans-serif\"".to_vec());
    assert_eq!(written.len(), stream.tokens.len());
    assert_eq!(rewrite_stream(&FontPass, &stream), Ok(render(&written)));
    assert_eq!(rewrite(&FontPass, doc), Ok(render(&written)));
}

#[test]
fn an_incomplete_stream_fails_after_its_tokens() {
    let mut stream = read_tokens(b"<svg><text x=\"1\">a</text></svg>");
    stream.complete = false;
    assert_eq!(rewrite_stream(&FontPass, &stream), Err(SvgError::XmlParseError));
}
