use voxel_engine::input::{MovementKey, PlayerInput};

#[test]
fn keys_set_and_clear_their_flag() {
    let mut input = PlayerInput::default();
    assert!(!input.w && !input.a && !input.s && !input.d && !input.space);
    input.handle_input(MovementKey::W, true);
    input.handle_input(MovementKey::Space, true);
    assert!(input.w && input.space && !input.a && !input.s && !input.d);
    input.handle_input(MovementKey::W, false);
    assert!(!input.w && input.space);
    input.handle_input(MovementKey::A, true);
    input.handle_input(MovementKey::S, true);
    input.handle_input(MovementKey::D, true);
    assert!(input.a && input.s && input.d);
}

#[test]
fn other_keys_change_nothing() {
    let mut input = PlayerInput::default();
    input.handle_input(MovementKey::D, true);
    let before = input;
    input.handle_input(MovementKey::Other, true);
    assert_eq!(input, before);
}
