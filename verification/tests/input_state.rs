use tiling_compositor::input_state::{DeviceError, InputState, KnownDevice};

fn keyboard(name: &str) -> KnownDevice<u32, u8> {
    KnownDevice { name: name.to_owned(), keyboard_handle: Some(7), pointer_handle: None }
}

fn mouse(name: &str) -> KnownDevice<u32, u8> {
    KnownDevice { name: name.to_owned(), keyboard_handle: None, pointer_handle: Some(9) }
}

#[test]
fn unknown_device_has_no_handles() {
    let state: InputState<u32, u8> = InputState::new();
    let id = "winit".to_owned();
    assert_eq!(state.keyboard_handle_for_device(&id), Err(DeviceError::UnknownDevice("winit".to_owned())));
    assert_eq!(state.pointer_handle_for_device(&id), Err(DeviceError::UnknownDevice("winit".to_owned())));
    assert!(state.device(&id).is_none());
}

#[test]
fn keyboard_device_gives_only_a_keyboard_handle() {
    let mut state = InputState::new();
    state.on_device_added("kbd".to_owned(), keyboard("Keyboard"));
    let id = "kbd".to_owned();
    assert_eq!(state.keyboard_handle_for_device(&id), Ok(&7));
    assert_eq!(state.pointer_handle_for_device(&id), Err(DeviceError::NotAMouse));
    assert_eq!(state.device(&id).unwrap().name, "Keyboard");
}

#[test]
fn mouse_device_gives_only_a_pointer_handle() {
    let mut state = InputState::new();
    state.on_device_added("m".to_owned(), mouse("Mouse"));
    let id = "m".to_owned();
    assert_eq!(state.pointer_handle_for_device(&id), Ok(&9));
    assert_eq!(state.keyboard_handle_for_device(&id), Err(DeviceError::NotAKeyboard));
}

#[test]
fn adding_a_known_device_replaces_it() {
    let mut state = InputState::new();
    state.on_device_added("d".to_owned(), keyboard("First"));
    state.on_device_added("d".to_owned(), mouse("Second"));
    let id = "d".to_owned();
    assert_eq!(state.device(&id).unwrap().name, "Second");
    assert_eq!(state.keyboard_handle_for_device(&id), Err(DeviceError::NotAKeyboard));
}

#[test]
fn removed_device_is_unknown() {
    let mut state = InputState::new();
    state.on_device_added("a".to_owned(), keyboard("A"));
    state.on_device_added("b".to_owned(), mouse("B"));
    state.on_device_removed(&"a".to_owned());
    state.on_device_removed(&"zzz".to_owned());
    assert_eq!(state.keyboard_handle_for_device(&"a".to_owned()), Err(DeviceError::UnknownDevice("a".to_owned())));
    assert_eq!(state.pointer_handle_for_device(&"b".to_owned()), Ok(&9));
}
