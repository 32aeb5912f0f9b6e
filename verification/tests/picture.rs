use resvg::tiny_skia::{Pixmap, Transform};
use resvg::usvg::{Options, Tree};
use svg_layers::fonts::replace_fonts;
use svg_layers::layers::get_layers;
use svg_layers::session::{Effect, Event, Session};
use svg_layers::transform::Matrix;

const TWO_LAYERS: &str = r##"<svg xmlns="http://www.w3.org/2000/svg" xmlns:inkscape="http://www.inkscape.org/namespaces/inkscape" width="100" height="50"><g inkscape:groupmode="layer" inkscape:label="layer-a"><rect x="0" y="0" width="50" height="50" fill="#ff0000"/></g><g inkscape:groupmode="layer" inkscape:label="layer-b" visibility="hidden"><rect x="50" y="0" width="50" height="50" fill="#0000ff"/></g></svg>"##;

/// Renders the document at `width`, scaled alike in both directions.
fn rendered(document: &[u8], width: u32) -> Pixmap {
    let tree = Tree::from_data(document, &Options::default()).unwrap();
    let size = tree.size();
    assert_eq!((size.width(), size.height()), (100.0, 50.0));
    let scale = width as f32 / size.width();
    let mut pixmap = Pixmap::new(width, (size.height() * scale) as u32).unwrap();
    resvg::render(&tree, Transform::from_scale(scale, scale), &mut pixmap.as_mut());
    pixmap
}

fn colour(pixmap: &Pixmap, x: u32, y: u32) -> (u8, u8, u8, u8) {
    let pixel = pixmap.pixel(x, y).unwrap();
    (pixel.red(), pixel.green(), pixel.blue(), pixel.alpha())
}

#[test]
fn a_picture_of_two_layers_from_loading_to_export() {
    let document = replace_fonts(TWO_LAYERS.as_bytes().to_vec()).unwrap();
    let layers = get_layers(&document).unwrap();
    assert_eq!(layers, vec!["layer-a".to_string(), "layer-b".to_string()]);

    let before = rendered(&document, 200);
    assert_eq!(colour(&before, 50, 50), (255, 0, 0, 255));
    assert_eq!(colour(&before, 150, 50), (0, 0, 0, 0));

    let mut session = Session::new("two.svg".to_string(), document, layers, "two.png".to_string());
    assert_eq!(session.update(Event::ToggleLayerVisibility("layer-b".to_string(), true)), Ok(Effect::Nothing));
    assert!(String::from_utf8(session.svg_content.clone())
        .unwrap()
        .contains(r#"inkscape:label="layer-b" visibility="visible""#));

    let after = rendered(&session.svg_content, 200);
    assert_eq!((after.width(), after.height()), (200, 100));
    assert_eq!(colour(&after, 50, 50), (255, 0, 0, 255));
    assert_eq!(colour(&after, 150, 50), (0, 0, 255, 255));

    let png = after.encode_png().unwrap();
    assert_eq!(&png[..8], [0x89, b'P', b'N', b'G', 0x0d, 0x0a, 0x1a, 0x0a].as_slice());
    let decoded = Pixmap::decode_png(&png).unwrap();
    assert_eq!((decoded.width(), decoded.height()), (200, 100));

    assert_eq!(session.update(Event::ToggleLayerVisibility("layer-a".to_string(), false)), Ok(Effect::Nothing));
    let hidden = rendered(&session.svg_content, 100);
    assert_eq!(colour(&hidden, 25, 25), (0, 0, 0, 0));
    assert_eq!(colour(&hidden, 75, 25), (0, 0, 255, 255));
}

#[test]
fn a_document_with_the_identity_renders_as_before() {
    let document = TWO_LAYERS.as_bytes().to_vec();
    let mut session = Session::new(String::new(), document.clone(), Vec::new(), String::new());
    assert_eq!(session.update(Event::Transform(Matrix::identity())), Ok(Effect::Nothing));
    let plain = rendered(&document, 100);
    let transformed = rendered(&session.svg_content, 100);
    assert_eq!(plain.data(), transformed.data());
}
