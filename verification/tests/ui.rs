use renderer::render::text::msdf::manifest::DistanceField;
use renderer::ui::button::ButtonResponse;

#[test]
fn pressed_over_the_button_is_a_click() {
    let r = ButtonResponse::from_pointer(true, true);
    assert!(r.hovered);
    assert!(r.clicked);
}

#[test]
fn hovering_without_pressing_is_no_click() {
    assert_eq!(
        ButtonResponse::from_pointer(true, false),
        ButtonResponse { clicked: false, hovered: true }
    );
}

#[test]
fn pressing_elsewhere_is_neither_hover_nor_click() {
    assert_eq!(
        ButtonResponse::from_pointer(false, true),
        ButtonResponse { clicked: false, hovered: false }
    );
    assert_eq!(
        ButtonResponse::from_pointer(false, false),
        ButtonResponse { clicked: false, hovered: false }
    );
}

#[test]
fn distance_field_holds_its_settings() {
    let d = DistanceField { field_type: String::from("msdf"), distance_range: 4 };
    assert_eq!(d.field_type, "msdf");
    assert_eq!(d.distance_range, 4);
}
