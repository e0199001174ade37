use rtlib::pbrt_v4::{is_directive_word, ParseState};

#[test]
fn parse_state_starts_with_one_transformation() {
    let state = ParseState::new(7u32);
    assert!(state.has_transformation());
    assert!(!state.has_material());
    assert_eq!(7, state.current_transformation());
    assert_eq!(None, state.current_area_light());
}

#[test]
fn parse_state_puts_aside_and_takes_back() {
    let mut state = ParseState::new(1u32);
    state.set_material("floor".to_string());
    state.push_state();
    assert_eq!(1, state.current_transformation());
    assert_eq!("floor", state.current_material());
    state.set_transformation(2);
    state.set_material("wall".to_string());
    state.set_area_light("lamp".to_string());
    assert_eq!(2, state.current_transformation());
    assert_eq!("wall", state.current_material());
    assert_eq!(Some("lamp".to_string()), state.current_area_light());
    state.push_state();
    state.set_area_light("sun".to_string());
    assert_eq!(Some("sun".to_string()), state.current_area_light());
    state.pop_state();
    assert_eq!(Some("lamp".to_string()), state.current_area_light());
    assert_eq!("wall", state.current_material());
    state.pop_state();
    assert_eq!(1, state.current_transformation());
    assert_eq!("floor", state.current_material());
    assert_eq!(None, state.current_area_light());
}

#[test]
fn parse_state_can_run_empty() {
    let mut state = ParseState::new(1u32);
    state.pop_state();
    assert!(!state.has_transformation());
    state.set_transformation(5);
    assert!(!state.has_transformation());
    state.pop_state();
    state.set_material("m".to_string());
    assert_eq!("m", state.current_material());
    state.set_material("n".to_string());
    assert_eq!("n", state.current_material());
    state.pop_state();
    assert!(!state.has_material());
}

#[test]
fn directive_words_are_known() {
    let words = [
        "LookAt", "Camera", "Sampler", "Integrator", "Film", "PixelFilter", "WorldBegin",
        "AttributeBegin", "AttributeEnd", "LightSource", "AreaLightSource", "Texture",
        "Material", "MakeNamedMaterial", "NamedMaterial", "Include", "Accelerator", "Shape",
        "Scale", "Translate", "Rotate", "Identity", "Transform", "ConcatTransform",
    ];
    let state = ParseState::new(0u8);
    for word in words {
        assert!(is_directive_word(word), "{}", word);
        assert!(state.is_directive(word));
    }
    for word in ["lookat", "float fov", "", "Shapes", "[", "Camera "] {
        assert!(!is_directive_word(word), "{}", word);
    }
}
