use vstd::prelude::*;

verus! {

/// The button of a mouse event.
#[derive(Debug, Clone, Copy, PartialEq, Eq, Structural)]
pub enum MouseButton {
    Left,
    Middle,
    Right,
    Button4,
    Button5,
}

impl MouseButton {
    /// The button that a platform button number names: 0 to 4, from the
    /// main button on.
    pub fn from_button(button: i16) -> (r: MouseButton)
        requires
            0 <= button <= 4,
        ensures
            button == 0 ==> r == MouseButton::Left,
            button == 1 ==> r == MouseButton::Middle,
            button == 2 ==> r == MouseButton::Right,
            button == 3 ==> r == MouseButton::Button4,
            button == 4 ==> r == MouseButton::Button5,
    {
        match button {
            0 => MouseButton::Left,
            1 => MouseButton::Middle,
            2 => MouseButton::Right,
            3 => MouseButton::Button4,
            _ => MouseButton::Button5,
        }
    }
}

fn same_text(a: &str, b: &str) -> (r: bool)
    ensures
        r == (a@ == b@),
{
    let n = a.unicode_len();
    if n != b.unicode_len() {
        return false;
    }
    let mut i: usize = 0;
    while i < n
        invariant
            n == a@.len() == b@.len(),
            i <= n,
            forall|j: int| 0 <= j < i ==> a@[j] == b@[j],
        decreases n - i,
    {
        if a.get_char(i) != b.get_char(i) {
            return false;
        }
        i = i + 1;
    }
    assert(a@ =~= b@);
    true
}

/// The checked state that a change event of an input reports: the input's
/// `checked` flag for checkboxes and radio buttons, nothing for other
/// kinds of input.
pub fn checked_state(input_type: &str, checked: bool) -> (r: Option<bool>)
    ensures
        (input_type@ == "checkbox"@ || input_type@ == "radio"@) ==> r == Some(checked),
        !(input_type@ == "checkbox"@ || input_type@ == "radio"@) ==> r is None,
{
    if same_text(input_type, "checkbox") || same_text(input_type, "radio") {
        Some(checked)
    } else {
        None
    }
}

} // verus!
