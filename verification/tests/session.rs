use svg_layers::error::SvgError;
use svg_layers::export::{plan_export, ExportOutcome};
use svg_layers::fonts::replace_fonts;
use svg_layers::layers::get_layers;
use svg_layers::session::{toggle, Effect, Event, Session};
use svg_layers::transform::{Coefficient, Matrix};

const TWO_LAYERS: &str = r#"<svg width="100" height="50"><g inkscape:groupmode="layer" inkscape:label="layer-a"><text font-family="Helvetica">a</text></g><g inkscape:groupmode="layer" inkscape:label="layer-b" visibility="hidden"><rect/></g></svg>"#;

fn session() -> Session {
    let document = replace_fonts(TWO_LAYERS.as_bytes().to_vec()).unwrap();
    let layers = get_layers(&document).unwrap();
    Session::new("picture.svg".to_string(), document, layers, "picture.png".to_string())
}

fn text(bytes: &[u8]) -> String {
    String::from_utf8(bytes.to_vec()).unwrap()
}

#[test]
fn a_new_session_shows_every_layer() {
    let session = session();
    assert_eq!(session.layers, vec![("layer-a".to_string(), true), ("layer-b".to_string(), true)]);
    assert!(!session.ask_overwrite && !session.show_modal && !session.panning);
    assert_eq!((session.current_width, session.current_height), (0, 0));
    assert_eq!(session.file_name, "picture.svg");
    assert_eq!(session.output_file_name, "picture.png");
    assert!(session.png_content.is_empty());
}

#[test]
fn toggling_a_layer_rewrites_the_document() {
    let mut session = session();
    let effect = session.update(Event::ToggleLayerVisibility("layer-a".to_string(), false));
    assert_eq!(effect, Ok(Effect::Nothing));
    assert_eq!(session.layers, vec![("layer-a".to_string(), false), ("layer-b".to_string(), true)]);
    assert_eq!(
        text(&session.svg_content),
        r#"<svg width="100" height="50"><g inkscape:groupmode="layer" inkscape:label="layer-a" visibility="hidden"><text font-family="sans-serif">a</text></g><g inkscape:groupmode="layer" inkscape:label="layer-b" visibility="visible"><rect/></g></svg>"#
    );
}

#[test]
fn two_layers_from_loading_to_toggling() {
    let document = TWO_LAYERS.as_bytes().to_vec();
    assert_eq!(get_layers(&document), Ok(vec!["layer-a".to_string(), "layer-b".to_string()]));
    let mut session = session();
    assert_eq!(session.update(Event::ToggleLayerVisibility("layer-b".to_string(), true)), Ok(Effect::Nothing));
    let written = text(&session.svg_content);
    assert!(written.contains(r#"<g inkscape:groupmode="layer" inkscape:label="layer-b" visibility="visible">"#));
    assert!(written.contains(r#"<g inkscape:groupmode="layer" inkscape:label="layer-a" visibility="visible">"#));
    assert!(!written.contains("hidden"));
}

#[test]
fn toggling_an_unknown_name_changes_no_entry() {
    let mut session = session();
    assert_eq!(session.update(Event::ToggleLayerVisibility("none".to_string(), false)), Ok(Effect::Nothing));
    assert_eq!(session.layers, vec![("layer-a".to_string(), true), ("layer-b".to_string(), true)]);
}

#[test]
fn toggle_sets_every_entry_of_the_name() {
    let layers = vec![("a".to_string(), true), ("b".to_string(), true), ("a".to_string(), false)];
    assert_eq!(
        toggle(&layers, &"a".to_string(), false),
        vec![("a".to_string(), false), ("b".to_string(), true), ("a".to_string(), false)]
    );
    assert_eq!(toggle(&layers, &"c".to_string(), false), layers);
    assert!(toggle(&Vec::new(), &"a".to_string(), true).is_empty());
}

#[test]
fn a_failed_pass_leaves_the_session_as_it_was() {
    let mut session = session();
    session.svg_content = br#"<svg><g inkscape:groupmode="layer" inkscape:label="other"></g></svg>"#.to_vec();
    let before = session.clone();
    assert_eq!(
        session.update(Event::ToggleLayerVisibility("layer-a".to_string(), false)),
        Err(SvgError::UnknownLayer)
    );
    assert_eq!(session, before);
    session.svg_content = b"<svg><g></svg>".to_vec();
    let broken = session.clone();
    assert_eq!(session.update(Event::Transform(Matrix::identity())), Err(SvgError::XmlParseError));
    assert_eq!(session, broken);
}

#[test]
fn a_transform_is_written_on_the_document() {
    let mut session = session();
    let matrix = Matrix {
        a: Coefficient::new(b"1.05").unwrap(),
        b: Coefficient::new(b"0").unwrap(),
        c: Coefficient::new(b"0").unwrap(),
        d: Coefficient::new(b"1.05").unwrap(),
        e: Coefficient::new(b"-2.5").unwrap(),
        f: Coefficient::new(b"-1.25").unwrap(),
    };
    assert_eq!(session.update(Event::Transform(matrix)), Ok(Effect::Nothing));
    assert!(text(&session.svg_content)
        .starts_with(r#"<svg width="100" height="50" transform="matrix(1.05 0 0 1.05 -2.5 -1.25)">"#));
    assert_eq!(session.update(Event::Transform(Matrix::identity())), Ok(Effect::Nothing));
    assert!(text(&session.svg_content)
        .starts_with(r#"<svg width="100" height="50" transform="matrix(1 0 0 1 0 0)">"#));
}

#[test]
fn saving_to_a_new_target_writes_the_picture() {
    let mut session = session();
    assert_eq!(session.update(Event::OpenExport), Ok(Effect::Nothing));
    assert!(session.show_modal);
    assert_eq!(session.update(Event::OutFileName("out.png".to_string())), Ok(Effect::Nothing));
    assert_eq!(session.output_file_name, "out.png");
    assert_eq!(session.update(Event::SaveExport(vec![1, 2, 3], false)), Ok(Effect::WritePicture));
    assert_eq!(session.png_content, vec![1, 2, 3]);
    assert!(!session.show_modal && !session.ask_overwrite);
}

#[test]
fn saving_to_an_existing_target_asks_first() {
    let mut session = session();
    session.update(Event::OpenExport).unwrap();
    assert_eq!(session.update(Event::SaveExport(vec![9], true)), Ok(Effect::Nothing));
    assert!(session.show_modal && session.ask_overwrite);
    assert_eq!(session.png_content, vec![9]);
    assert_eq!(session.update(Event::NoOverwrite), Ok(Effect::Nothing));
    assert!(session.show_modal && !session.ask_overwrite);
    session.update(Event::SaveExport(vec![8], true)).unwrap();
    assert_eq!(session.update(Event::Overwrite), Ok(Effect::WritePicture));
    assert!(!session.show_modal && !session.ask_overwrite);
    assert_eq!(session.png_content, vec![8]);
}

#[test]
fn cancelling_closes_the_dialog() {
    let mut session = session();
    session.update(Event::OpenExport).unwrap();
    assert_eq!(session.update(Event::CancelExport), Ok(Effect::ResetOutputSize));
    assert!(!session.show_modal);
}

#[test]
fn the_pointer_and_the_window_are_tracked() {
    let mut session = session();
    assert!(!session.pan_active(true));
    assert_eq!(session.update(Event::StartPan), Ok(Effect::Nothing));
    assert!(session.pan_active(true));
    assert!(!session.pan_active(false));
    assert_eq!(session.update(Event::EndPan), Ok(Effect::Nothing));
    assert!(!session.pan_active(true));
    assert_eq!(session.update(Event::Resized(800, 600)), Ok(Effect::Nothing));
    assert_eq!((session.current_width, session.current_height), (800, 600));
    let before = session.clone();
    assert_eq!(session.update(Event::FontLoaded), Ok(Effect::Nothing));
    assert_eq!(session, before);
}

#[test]
fn an_export_is_skipped_only_for_a_target_that_may_not_be_overwritten() {
    assert_eq!(plan_export(true, false), ExportOutcome::Skipped);
    assert_eq!(plan_export(true, true), ExportOutcome::Written);
    assert_eq!(plan_export(false, false), ExportOutcome::Written);
    assert_eq!(plan_export(false, true), ExportOutcome::Written);
}
