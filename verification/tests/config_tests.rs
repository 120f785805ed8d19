//! The key bindings and their replacement script.

use manga_reader::config::{InputAction, KeyBind, Preset};

#[test]
fn preset_script_fills_the_bound_labels() {
    let kb = KeyBind::preset();
    let script = kb.to_replace_script();
    assert!(script.starts_with("window.addEventListener('DOMContentLoaded', ()=>{"));
    assert!(script.ends_with("});"));
    assert!(script.contains(
        "document.getElementById('0').textContent = `PageDown / ArrowDown / Numpad2 / LeftClick / WheelDown / Space`;\n"
    ));
    assert!(script.contains("document.getElementById('17').textContent = `KeyI`;\n"));
    // the unbound step slots leave their labels alone
    assert!(!script.contains("getElementById('4')"));
    assert!(!script.contains("getElementById('5')"));
}

#[test]
fn preset_pairs_cover_every_bound_key() {
    let kb = KeyBind::preset();
    let pairs = kb.action_pairs();
    assert_eq!(pairs.len(), 30);
    assert!(pairs.contains(&("Space".to_string(), InputAction::PageNext)));
    assert!(pairs.contains(&("KeyI".to_string(), InputAction::HidePageNumber)));
    assert!(!pairs.iter().any(|(_, a)| *a == InputAction::PageStepNext));
}
