use spine::document::SpineDocument;

fn names(v: &[&str]) -> Vec<String> {
    v.iter().map(|s| s.to_string()).collect()
}

fn doc() -> SpineDocument {
    SpineDocument::new(
        names(&["walk", "run"]),
        vec![
            (
                "default".to_string(),
                vec![("head".to_string(), names(&["head", "hat"])), ("body".to_string(), names(&["torso"]))],
            ),
            ("goblin".to_string(), vec![("head".to_string(), names(&["hat", "goblin-head"]))]),
        ],
    )
}

#[test]
fn lists_animations_and_skins() {
    let d = doc();
    assert_eq!(d.get_animations_list(), names(&["walk", "run"]));
    assert_eq!(d.get_skins_list(), names(&["default", "goblin"]));
}

#[test]
fn membership_tests() {
    let d = doc();
    assert!(d.has_animation("run"));
    assert!(!d.has_animation("jump"));
    assert!(d.has_skin("goblin"));
    assert!(!d.has_skin("elf"));
}

#[test]
fn possible_sprites_are_sorted_and_unique() {
    assert_eq!(doc().get_possible_sprites(), names(&["goblin-head", "hat", "head", "torso"]));
}

#[test]
fn empty_document_has_nothing() {
    let d = SpineDocument::new(Vec::new(), Vec::new());
    assert!(d.get_animations_list().is_empty());
    assert!(d.get_possible_sprites().is_empty());
    assert!(!d.has_skin("default"));
}
