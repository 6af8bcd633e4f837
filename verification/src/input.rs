use vstd::prelude::*;

verus! {

/// The lowest and highest key codes that are tracked (space to menu, as
/// GLFW numbers them).
pub const FIRST_KEY_VALUE: i32 = 32;
pub const LAST_KEY_VALUE: i32 = 348;
pub const KEY_ARRAY_SIZE: usize = 317;

/// The lowest and highest mouse button codes that are tracked.
pub const FIRST_MOUSE_BUTTON_VALUE: i32 = 0;
pub const LAST_MOUSE_BUTTON_VALUE: i32 = 7;
pub const MOUSE_BUTTON_ARRAY_SIZE: usize = 8;

/// What happened to a key or button.
#[derive(Copy, Clone, Debug, PartialEq, Eq, Structural)]
pub enum KeyAction {
    Release,
    Press,
    Repeat,
}

/// The place of a key code among the tracked keys.
pub open spec fn key_slot(key: i32) -> Option<usize> {
    if FIRST_KEY_VALUE <= key <= LAST_KEY_VALUE {
        Some((key - FIRST_KEY_VALUE) as usize)
    } else {
        None
    }
}

/// The place of a mouse button code among the tracked buttons.
pub open spec fn mouse_button_slot(button: i32) -> Option<usize> {
    if FIRST_MOUSE_BUTTON_VALUE <= button <= LAST_MOUSE_BUTTON_VALUE {
        Some((button - FIRST_MOUSE_BUTTON_VALUE) as usize)
    } else {
        None
    }
}

pub fn get_key_index(key: i32) -> (r: Option<usize>)
    ensures
        r == key_slot(key),
{
    if FIRST_KEY_VALUE <= key && key <= LAST_KEY_VALUE {
        Some((key - FIRST_KEY_VALUE) as usize)
    } else {
        None
    }
}

pub fn get_mouse_button_index(button: i32) -> (r: Option<usize>)
    ensures
        r == mouse_button_slot(button),
{
    if FIRST_MOUSE_BUTTON_VALUE <= button && button <= LAST_MOUSE_BUTTON_VALUE {
        Some((button - FIRST_MOUSE_BUTTON_VALUE) as usize)
    } else {
        None
    }
}

/// `held` after an action on the tracked entry `slot`, if any: a press
/// holds it, a release lets it go, a repeat changes nothing.
pub open spec fn after_action(held: Seq<bool>, slot: Option<usize>, action: KeyAction) -> Seq<bool> {
    match slot {
        Some(i) => match action {
            KeyAction::Press => held.update(i as int, true),
            KeyAction::Release => held.update(i as int, false),
            KeyAction::Repeat => held,
        },
        None => held,
    }
}

fn no_keys() -> (r: Vec<bool>)
    ensures
        r@.len() == KEY_ARRAY_SIZE,
        forall|j: int| 0 <= j < KEY_ARRAY_SIZE ==> !#[trigger] r@[j],
{
    let mut keys: Vec<bool> = Vec::new();
    let mut i: usize = 0;
    while i < KEY_ARRAY_SIZE
        invariant
            i <= KEY_ARRAY_SIZE,
            keys@.len() == i,
            forall|j: int| 0 <= j < i ==> !#[trigger] keys@[j],
        decreases KEY_ARRAY_SIZE - i,
    {
        keys.push(false);
        i = i + 1;
    }
    keys
}

/// Which keys and mouse buttons are held down, and which keys were pressed
/// since the frame began.
pub struct InputState {
    held_keys: Vec<bool>,
    pressed_keys: Vec<bool>,
    held_mouse_buttons: Vec<bool>,
}

impl InputState {
    pub closed spec fn held_keys_view(&self) -> Seq<bool> {
        self.held_keys@
    }

    pub closed spec fn held_buttons_view(&self) -> Seq<bool> {
        self.held_mouse_buttons@
    }

    /// The keys pressed since the last reset.
    pub closed spec fn pressed_keys_view(&self) -> Seq<bool> {
        self.pressed_keys@
    }

    pub open spec fn wf(&self) -> bool {
        &&& self.held_keys_view().len() == KEY_ARRAY_SIZE
        &&& self.pressed_keys_view().len() == KEY_ARRAY_SIZE
        &&& self.held_buttons_view().len() == MOUSE_BUTTON_ARRAY_SIZE
    }

    /// Whether a key was pressed since the last reset: untracked keys never
    /// were.
    pub open spec fn key_pressed(&self, key: i32) -> bool {
        match key_slot(key) {
            Some(i) => self.pressed_keys_view()[i as int],
            None => false,
        }
    }

    /// Whether a key is held: untracked keys never are.
    pub open spec fn key_held(&self, key: i32) -> bool {
        match key_slot(key) {
            Some(i) => self.held_keys_view()[i as int],
            None => false,
        }
    }

    /// Whether a mouse button is held: untracked buttons never are.
    pub open spec fn button_held(&self, button: i32) -> bool {
        match mouse_button_slot(button) {
            Some(i) => self.held_buttons_view()[i as int],
            None => false,
        }
    }

    /// Nothing held.
    pub fn new() -> (r: Self)
        ensures
            r.wf(),
            forall|i: int| 0 <= i < KEY_ARRAY_SIZE ==> !#[trigger] r.held_keys_view()[i],
            forall|i: int| 0 <= i < KEY_ARRAY_SIZE ==> !#[trigger] r.pressed_keys_view()[i],
            forall|i: int| 0 <= i < MOUSE_BUTTON_ARRAY_SIZE ==> !#[trigger] r.held_buttons_view()[i],
    {
        let held_keys = no_keys();
        let pressed_keys = no_keys();
        let held_mouse_buttons: Vec<bool> = vec![false, false, false, false, false, false, false, false];
        InputState { held_keys, pressed_keys, held_mouse_buttons }
    }

    /// Starts a new frame: no key has been pressed in it yet.
    pub fn reset(&mut self)
        requires
            old(self).wf(),
        ensures
            final(self).wf(),
            final(self).held_keys_view() == old(self).held_keys_view(),
            final(self).held_buttons_view() == old(self).held_buttons_view(),
            forall|i: int| 0 <= i < KEY_ARRAY_SIZE ==> !#[trigger] final(self).pressed_keys_view()[i],
    {
        self.pressed_keys = no_keys();
    }

    pub fn key_was_pressed(&self, key: i32) -> (r: bool)
        requires
            self.wf(),
        ensures
            r == self.key_pressed(key),
    {
        match get_key_index(key) {
            Some(i) => self.pressed_keys[i],
            None => false,
        }
    }

    /// Records a key event.
    pub fn handle_key(&mut self, key: i32, action: KeyAction)
        requires
            old(self).wf(),
        ensures
            final(self).wf(),
            final(self).held_keys_view() == after_action(old(self).held_keys_view(), key_slot(key), action),
            final(self).pressed_keys_view() == match (key_slot(key), action) {
                (Some(i), KeyAction::Press) => old(self).pressed_keys_view().update(i as int, true),
                _ => old(self).pressed_keys_view(),
            },
            final(self).held_buttons_view() == old(self).held_buttons_view(),
    {
        if let Some(key_index) = get_key_index(key) {
            match action {
                KeyAction::Press => {
                    self.held_keys.set(key_index, true);
                    self.pressed_keys.set(key_index, true);
                },
                KeyAction::Release => self.held_keys.set(key_index, false),
                KeyAction::Repeat => {},
            }
        }
    }

    /// Records a mouse button event.
    pub fn handle_mouse_button(&mut self, button: i32, action: KeyAction)
        requires
            old(self).wf(),
        ensures
            final(self).wf(),
            final(self).held_buttons_view() == after_action(
                old(self).held_buttons_view(),
                mouse_button_slot(button),
                action,
            ),
            final(self).held_keys_view() == old(self).held_keys_view(),
            final(self).pressed_keys_view() == old(self).pressed_keys_view(),
    {
        if let Some(button_index) = get_mouse_button_index(button) {
            match action {
                KeyAction::Press => self.held_mouse_buttons.set(button_index, true),
                KeyAction::Release => self.held_mouse_buttons.set(button_index, false),
                KeyAction::Repeat => {},
            }
        }
    }

    pub fn key_is_held(&self, key: i32) -> (r: bool)
        requires
            self.wf(),
        ensures
            r == self.key_held(key),
    {
        match get_key_index(key) {
            Some(i) => self.held_keys[i],
            None => false,
        }
    }

    pub fn mouse_button_is_held(&self, button: i32) -> (r: bool)
        requires
            self.wf(),
        ensures
            r == self.button_held(button),
    {
        match get_mouse_button_index(button) {
            Some(i) => self.held_mouse_buttons[i],
            None => false,
        }
    }
}

/// A tracked key is held after it is pressed and not after it is released;
/// a repeat, and any event of another key, leaves it as it was.
pub proof fn law_key_event_then_held(before: InputState, after: InputState, key: i32, action: KeyAction, other: i32)
    requires
        before.wf(),
        after.wf(),
        after.held_keys_view() == after_action(before.held_keys_view(), key_slot(key), action),
        key_slot(key) is Some,
    ensures
        action == KeyAction::Press ==> after.key_held(key),
        action == KeyAction::Release ==> !after.key_held(key),
        action == KeyAction::Repeat ==> after.key_held(key) == before.key_held(key),
        other != key ==> after.key_held(other) == before.key_held(other),
{
}

} // verus!
