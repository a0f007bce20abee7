//! Showing and hiding the wheel from the "rotate_wheel" input action.

use vstd::prelude::*;

verus! {

/// What to do with the wheel's visibility in one frame.
#[derive(Clone, Copy, Debug, PartialEq, Eq, Structural)]
pub enum Visibility {
    Show,
    Hide,
    Keep,
}

/// The wheel is shown in the frame the action is pressed and hidden in the
/// frame it is released; without the action nothing changes.
pub fn wheel_visibility(has_action: bool, just_pressed: bool, just_released: bool) -> (v: Visibility)
    ensures
        v == (if has_action && just_pressed {
            Visibility::Show
        } else if has_action && just_released {
            Visibility::Hide
        } else {
            Visibility::Keep
        }),
{
    if has_action && just_pressed {
        Visibility::Show
    } else if has_action && just_released {
        Visibility::Hide
    } else {
        Visibility::Keep
    }
}

} // verus!
