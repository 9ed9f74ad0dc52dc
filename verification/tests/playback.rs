use blockymodel::{command_for_key, Button, CameraDrag, Command, Effect, Key, Playback, Pointer};

#[test]
fn keys_map_to_their_commands() {
    assert_eq!(command_for_key(Key::Escape), Some(Command::Quit));
    assert_eq!(command_for_key(Key::Space), Some(Command::TogglePlay));
    assert_eq!(command_for_key(Key::ArrowRight), Some(Command::StepClip(1)));
    assert_eq!(command_for_key(Key::BracketRight), Some(Command::StepClip(1)));
    assert_eq!(command_for_key(Key::ArrowLeft), Some(Command::StepClip(-1)));
    assert_eq!(command_for_key(Key::BracketLeft), Some(Command::StepClip(-1)));
    assert_eq!(command_for_key(Key::ArrowUp), Some(Command::ChangeSpeed(1)));
    assert_eq!(command_for_key(Key::ArrowDown), Some(Command::ChangeSpeed(-1)));
    assert_eq!(command_for_key(Key::KeyR), Some(Command::Restart));
    assert_eq!(command_for_key(Key::Period), Some(Command::StepFrame(1)));
    assert_eq!(command_for_key(Key::Comma), Some(Command::StepFrame(-1)));
    assert_eq!(command_for_key(Key::Other), None);
}

#[test]
fn number_keys_jump_to_the_first_nine_clips() {
    assert_eq!(command_for_key(Key::Digit(1)), Some(Command::SelectClip(0)));
    assert_eq!(command_for_key(Key::Digit(9)), Some(Command::SelectClip(8)));
    assert_eq!(command_for_key(Key::Digit(0)), None);
    assert_eq!(command_for_key(Key::Digit(10)), None);
}

#[test]
fn stepping_clips_wraps_and_restarts_the_clip() {
    let state = Playback::new(0);
    assert_eq!(
        state.apply(Command::StepClip(-1), 3),
        (Playback { clip_index: 2, playing: true }, Effect::ResetTime)
    );
    let state = Playback { clip_index: 2, playing: false };
    assert_eq!(
        state.apply(Command::StepClip(1), 3),
        (Playback { clip_index: 0, playing: false }, Effect::ResetTime)
    );
}

#[test]
fn selecting_a_clip_wraps_around_the_list() {
    let state = Playback::new(1);
    assert_eq!(
        state.apply(Command::SelectClip(7), 3),
        (Playback { clip_index: 1, playing: true }, Effect::ResetTime)
    );
}

#[test]
fn without_clips_selection_does_nothing() {
    let state = Playback::new(0);
    assert_eq!(state.apply(Command::SelectClip(4), 0), (state, Effect::Nothing));
    assert_eq!(state.apply(Command::StepClip(1), 0), (state, Effect::Nothing));
}

#[test]
fn stepping_a_frame_pauses() {
    let state = Playback::new(0);
    assert_eq!(
        state.apply(Command::StepFrame(-1), 2),
        (Playback { clip_index: 0, playing: false }, Effect::StepFrame(-1))
    );
}

#[test]
fn space_toggles_and_the_rest_passes_through() {
    let state = Playback::new(0);
    assert_eq!(
        state.apply(Command::TogglePlay, 2),
        (Playback { clip_index: 0, playing: false }, Effect::Nothing)
    );
    assert_eq!(state.apply(Command::Restart, 2), (state, Effect::ResetTime));
    assert_eq!(state.apply(Command::ChangeSpeed(1), 2), (state, Effect::ChangeSpeed(1)));
    assert_eq!(state.apply(Command::Quit, 2), (state, Effect::Quit));
}

#[test]
fn the_left_button_orbits_and_the_right_button_pans() {
    let idle = Pointer::new();
    assert_eq!(idle.drag(), CameraDrag::Still);

    let (orbiting, forget) = idle.button(Button::Left, true);
    assert!(!forget);
    assert_eq!(orbiting.drag(), CameraDrag::Orbit);

    // Pressing the right button takes over from the left one.
    let (panning, _) = orbiting.button(Button::Right, true);
    assert_eq!(panning, Pointer { dragging: false, panning: true });
    assert_eq!(panning.drag(), CameraDrag::Pan);

    // A release stops the drag and forgets the cursor.
    let (released, forget) = panning.button(Button::Right, false);
    assert!(forget);
    assert_eq!(released.drag(), CameraDrag::Still);

    // Other buttons change nothing.
    let (same, _) = orbiting.button(Button::Other, true);
    assert_eq!(same, orbiting);
}
