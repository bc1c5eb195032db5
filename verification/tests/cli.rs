use typepress::cli::{length_parts, margin_parts, margin_sides, resolve_landscape, resolve_size, LengthUnit};

#[test]
fn orientation_overrides_the_flag() {
    assert!(resolve_landscape(Some("LandScape"), false));
    assert!(!resolve_landscape(Some("portrait"), true));
    assert!(resolve_landscape(None, true));
    assert!(!resolve_landscape(None, false));
}

#[test]
fn width_and_height_make_a_size() {
    assert_eq!(resolve_size(Some("A4"), Some("100mm"), Some("200mm")).as_deref(), Some("100mm 200mm"));
    assert_eq!(resolve_size(Some("A4"), Some("100mm"), None).as_deref(), Some("A4"));
    assert_eq!(resolve_size(None, None, None), None);
}

#[test]
fn lengths_are_split_into_unit_and_number() {
    assert_eq!(length_parts(" 12.5 mm "), (LengthUnit::Mm, "12.5".to_string()));
    assert_eq!(length_parts("2cm"), (LengthUnit::Cm, "2".to_string()));
    assert_eq!(length_parts("1in"), (LengthUnit::In, "1".to_string()));
    assert_eq!(length_parts("72pt"), (LengthUnit::Pt, "72".to_string()));
    assert_eq!(length_parts("96px"), (LengthUnit::Px, "96".to_string()));
    assert_eq!(length_parts(" 15 "), (LengthUnit::Plain, "15".to_string()));
    assert_eq!(length_parts("abc"), (LengthUnit::Plain, "abc".to_string()));
}

#[test]
fn margin_values_follow_css_shorthand() {
    assert_eq!(margin_sides(1), Some((0, 0, 0, 0)));
    assert_eq!(margin_sides(2), Some((0, 1, 0, 1)));
    assert_eq!(margin_sides(3), Some((0, 1, 2, 1)));
    assert_eq!(margin_sides(4), Some((0, 1, 2, 3)));
    assert_eq!(margin_sides(0), None);
    assert_eq!(margin_sides(5), None);
    let parts = margin_parts("10mm  1in\t5");
    assert_eq!(
        parts,
        vec![
            (LengthUnit::Mm, "10".to_string()),
            (LengthUnit::In, "1".to_string()),
            (LengthUnit::Plain, "5".to_string()),
        ]
    );
}
