use hirola::events::{checked_state, MouseButton};
use hirola::names::convert_name;

#[test]
fn attribute_names_use_hyphens() {
    assert_eq!(convert_name("data_value"), "data-value");
    assert_eq!(convert_name("_aria_label__"), "aria-label");
    assert_eq!(convert_name("___"), "");
    assert_eq!(convert_name(""), "");
    assert_eq!(convert_name("class"), "class");
}

#[test]
fn mouse_buttons_by_number() {
    assert_eq!(MouseButton::from_button(0), MouseButton::Left);
    assert_eq!(MouseButton::from_button(1), MouseButton::Middle);
    assert_eq!(MouseButton::from_button(2), MouseButton::Right);
    assert_eq!(MouseButton::from_button(3), MouseButton::Button4);
    assert_eq!(MouseButton::from_button(4), MouseButton::Button5);
}

#[test]
fn checked_state_only_for_checkable_inputs() {
    assert_eq!(checked_state("checkbox", true), Some(true));
    assert_eq!(checked_state("radio", false), Some(false));
    assert_eq!(checked_state("text", true), None);
    assert_eq!(checked_state("", true), None);
}
