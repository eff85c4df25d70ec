use shuffle::keys::{key_command, line_key, Editor, KeyCommand, KeyContext, LineKey};

fn ctx(editing_path: bool, filtering: bool, menu_open: bool, palette_open: bool) -> KeyContext {
    KeyContext { editing_path, filtering, menu_open, palette_open }
}

#[test]
fn the_path_editor_takes_every_key_first() {
    let c = ctx(true, true, true, true);
    assert!(matches!(key_command(c, "p", true, None), KeyCommand::PathBar(LineKey::Ignore)));
    let c = ctx(true, false, false, false);
    assert!(matches!(key_command(c, "c", true, Some("c")), KeyCommand::PathBar(LineKey::Copy)));
    let c = ctx(true, false, false, false);
    match key_command(c, "a", false, Some("a")) {
        KeyCommand::PathBar(LineKey::Type(t)) => assert_eq!(t, "a"),
        _ => panic!(),
    }
}

#[test]
fn the_filter_comes_next() {
    let c = ctx(false, true, false, true);
    assert!(matches!(key_command(c, "escape", false, None), KeyCommand::Filter(LineKey::Cancel)));
    let c = ctx(false, true, false, false);
    assert!(matches!(key_command(c, "c", true, Some("c")), KeyCommand::Filter(LineKey::Ignore)));
    let c = ctx(false, true, false, false);
    assert!(matches!(key_command(c, "v", true, Some("v")), KeyCommand::Filter(LineKey::Paste)));
}

#[test]
fn window_shortcuts() {
    assert!(matches!(key_command(ctx(false, false, false, false), "p", true, Some("p")), KeyCommand::TogglePalette));
    assert!(matches!(key_command(ctx(false, false, false, true), "t", true, Some("t")), KeyCommand::NewTab));
    assert!(matches!(key_command(ctx(false, false, false, false), "w", true, Some("w")), KeyCommand::CloseTab));
    assert!(matches!(key_command(ctx(false, false, true, true), "escape", false, None), KeyCommand::CloseMenu));
}

#[test]
fn with_the_palette_closed_only_slash_opens_the_filter() {
    assert!(matches!(key_command(ctx(false, false, false, false), "/", false, Some("/")), KeyCommand::OpenFilter));
    assert!(matches!(key_command(ctx(false, false, false, false), "/", true, Some("/")), KeyCommand::Ignore));
    assert!(matches!(key_command(ctx(false, false, false, false), "a", false, Some("a")), KeyCommand::Ignore));
    assert!(matches!(key_command(ctx(false, false, false, false), "escape", false, None), KeyCommand::Ignore));
}

#[test]
fn the_open_palette_takes_the_rest() {
    let c = || ctx(false, false, false, true);
    assert!(matches!(key_command(c(), "escape", false, None), KeyCommand::Palette(LineKey::Cancel)));
    assert!(matches!(key_command(c(), "enter", false, None), KeyCommand::Palette(LineKey::Submit)));
    assert!(matches!(key_command(c(), "down", false, None), KeyCommand::Palette(LineKey::Down)));
    assert!(matches!(key_command(c(), "up", false, None), KeyCommand::Palette(LineKey::Up)));
    assert!(matches!(key_command(c(), "backspace", false, None), KeyCommand::Palette(LineKey::Backspace)));
    assert!(matches!(key_command(c(), "v", true, Some("v")), KeyCommand::Palette(LineKey::Paste)));
    assert!(matches!(key_command(c(), "k", true, Some("k")), KeyCommand::Palette(LineKey::Ignore)));
    match key_command(c(), "é", false, Some("é")) {
        KeyCommand::Palette(LineKey::Type(t)) => assert_eq!(t, "é"),
        _ => panic!(),
    }
}

#[test]
fn control_text_is_not_typed() {
    assert!(matches!(line_key(Editor::Filter, "tab", false, Some("\t")), LineKey::Ignore));
    assert!(matches!(line_key(Editor::Filter, "a", false, Some("")), LineKey::Ignore));
    assert!(matches!(line_key(Editor::PathBar, "down", false, None), LineKey::Ignore));
}
