use svg_layers::error::SvgError;
use svg_layers::transform::{transform_svg, Coefficient, Matrix};

fn matrix(parts: [&str; 6]) -> Matrix {
    Matrix {
        a: Coefficient::new(parts[0].as_bytes()).unwrap(),
        b: Coefficient::new(parts[1].as_bytes()).unwrap(),
        c: Coefficient::new(parts[2].as_bytes()).unwrap(),
        d: Coefficient::new(parts[3].as_bytes()).unwrap(),
        e: Coefficient::new(parts[4].as_bytes()).unwrap(),
        f: Coefficient::new(parts[5].as_bytes()).unwrap(),
    }
}

fn of_floats(values: [f32; 6]) -> Matrix {
    let texts: Vec<String> = values.iter().map(|value| format!("{}", value)).collect();
    matrix([&texts[0], &texts[1], &texts[2], &texts[3], &texts[4], &texts[5]])
}

fn text(bytes: Vec<u8>) -> String {
    String::from_utf8(bytes).unwrap()
}

#[test]
fn the_literal_has_six_coefficients_in_order() {
    assert_eq!(text(matrix(["1", "2", "3", "4", "5", "6"]).literal()), "matrix(1 2 3 4 5 6)");
    assert_eq!(
        text(of_floats([1.05, 0.0, -0.0, 1.05, -2.5, -1.25]).literal()),
        "matrix(1.05 0 -0 1.05 -2.5 -1.25)"
    );
    assert_eq!(
        text(of_floats([f32::INFINITY, f32::NEG_INFINITY, f32::NAN, 1e-7, 1e30, 0.1]).literal()),
        format!("matrix(inf -inf NaN {} {} 0.1)", 1e-7f32, 1e30f32)
    );
}

#[test]
fn the_identity_is_one_zero_zero_one_zero_zero() {
    assert_eq!(text(Matrix::identity().literal()), "matrix(1 0 0 1 0 0)");
    assert_eq!(Matrix::identity(), of_floats([1.0, 0.0, 0.0, 1.0, 0.0, 0.0]));
}

#[test]
fn a_coefficient_is_the_text_of_a_number() {
    assert!(Coefficient::new(b"1").is_some());
    assert!(Coefficient::new(b"-12.5e+3").is_some());
    assert!(Coefficient::new(b"NaN").is_some());
    assert_eq!(Coefficient::new(b"0.5").unwrap().text(), b"0.5");
    assert_eq!(Coefficient::new(b"7").unwrap().clone().text(), b"7");
    assert!(Coefficient::new(b"").is_none());
    assert!(Coefficient::new(b"1 2").is_none());
    assert!(Coefficient::new(b"1\"").is_none());
    assert!(Coefficient::new(b"1)").is_none());
    assert!(Coefficient::new(b"<1").is_none());
    assert!(Coefficient::new(b"1,5").is_none());
    assert!(Coefficient::new("\u{bd}".as_bytes()).is_none());
    for byte in 0u8..=255 {
        let accepted = byte.is_ascii_alphanumeric() || byte == b'+' || byte == b'-' || byte == b'.';
        assert_eq!(Coefficient::new(&[byte]).is_some(), accepted);
    }
}

#[test]
fn the_transform_is_added_to_the_root() {
    let doc = br#"<svg width="10" height='5'><g/></svg>"#.to_vec();
    let out = transform_svg(&doc, &Matrix::identity()).unwrap();
    assert_eq!(text(out), r#"<svg width="10" height="5" transform="matrix(1 0 0 1 0 0)"><g/></svg>"#);
}

#[test]
fn a_transform_of_the_document_is_overwritten() {
    let doc = br#"<svg transform="rotate(45)" width="10"><g transform="scale(2)"></g></svg>"#.to_vec();
    let out = transform_svg(&doc, &matrix(["2", "0", "0", "2", "-50", "-25"])).unwrap();
    assert_eq!(
        text(out.clone()),
        r#"<svg transform="matrix(2 0 0 2 -50 -25)" width="10"><g transform="scale(2)"></g></svg>"#
    );
    let again = transform_svg(&out, &Matrix::identity()).unwrap();
    assert_eq!(
        text(again),
        r#"<svg transform="matrix(1 0 0 1 0 0)" width="10"><g transform="scale(2)"></g></svg>"#
    );
}

#[test]
fn only_the_first_svg_element_is_the_root() {
    let doc = br#"<svg><svg x="1"></svg><g/></svg>"#.to_vec();
    let out = transform_svg(&doc, &Matrix::identity()).unwrap();
    assert_eq!(text(out), r#"<svg transform="matrix(1 0 0 1 0 0)"><svg x="1"></svg><g/></svg>"#);
}

#[test]
fn a_document_without_svg_start_tag_is_written_back() {
    let doc = br#"<svg width="1"/>"#.to_vec();
    assert_eq!(transform_svg(&doc, &Matrix::identity()), Ok(doc));
    let other = br#"<html><p>x</p></html>"#.to_vec();
    assert_eq!(transform_svg(&other, &Matrix::identity()), Ok(other));
}

#[test]
fn a_malformed_root_is_rejected() {
    assert_eq!(transform_svg(&b"<svg width=10></svg>".to_vec(), &Matrix::identity()), Err(SvgError::XmlParseError));
    assert_eq!(transform_svg(&b"<svg><g></svg>".to_vec(), &Matrix::identity()), Err(SvgError::XmlParseError));
}
