use clipvault::config::{
    default_bg_color, parse_code, parse_shortcut_str, KeyCode, ModifierSet, Shortcut,
    DEFAULT_SHORTCUT,
};

fn mods(control: bool, shift: bool, alt: bool, super_key: bool) -> ModifierSet {
    ModifierSet { control, shift, alt, super_key }
}

#[test]
fn default_settings() {
    assert_eq!(default_bg_color(), "#0f0f0f");
    assert_eq!(
        parse_shortcut_str(DEFAULT_SHORTCUT),
        Ok(Shortcut { modifiers: mods(true, true, false, false), code: KeyCode::KeyV })
    );
}

#[test]
fn shortcut_parts_are_trimmed_and_modifiers_collected() {
    assert_eq!(
        parse_shortcut_str(" Control + Alt + a "),
        Ok(Shortcut { modifiers: mods(true, false, true, false), code: KeyCode::KeyA })
    );
    assert_eq!(
        parse_shortcut_str("Meta+Win+Space"),
        Ok(Shortcut { modifiers: mods(false, false, false, true), code: KeyCode::Space })
    );
    assert_eq!(
        parse_shortcut_str("Shift+Ctrl+F12"),
        parse_shortcut_str("Ctrl+Shift+F12")
    );
    assert_eq!(parse_shortcut_str(" Shift + Ctrl + V "), parse_shortcut_str("Ctrl+Shift+V"));
    assert_eq!(parse_shortcut_str("V+Ctrl+Shift"), parse_shortcut_str("Ctrl+Shift+V"));
    assert_eq!(
        parse_shortcut_str("PgDn"),
        Ok(Shortcut { modifiers: mods(false, false, false, false), code: KeyCode::PageDown })
    );
    assert_eq!(
        parse_shortcut_str("Ctrl+Shift+Ctrl+\u{3000}7"),
        Ok(Shortcut { modifiers: mods(true, true, false, false), code: KeyCode::Digit7 })
    );
}

#[test]
fn shortcut_errors() {
    assert_eq!(parse_shortcut_str("Ctrl+A+B"), Err("快捷键不能有多个主键: Ctrl+A+B".to_string()));
    assert_eq!(parse_shortcut_str("Ctrl+A+Foo"), Err("快捷键不能有多个主键: Ctrl+A+Foo".to_string()));
    assert_eq!(parse_shortcut_str("Ctrl+Foo+A"), Err("不支持的按键: Foo".to_string()));
    assert_eq!(parse_shortcut_str("Ctrl+Shift"), Err("快捷键缺少主键: Ctrl+Shift".to_string()));
    assert_eq!(parse_shortcut_str("Ctrl+"), Err("不支持的按键: ".to_string()));
    assert_eq!(parse_shortcut_str(""), Err("不支持的按键: ".to_string()));
    assert_eq!(
        parse_shortcut_str("Ctrl+Shift+Alt+Super+Meta+V"),
        Err("无效的快捷键: Ctrl+Shift+Alt+Super+Meta+V".to_string())
    );
    assert_eq!(parse_shortcut_str("alt+v"), Err("不支持的按键: alt".to_string()));
}

#[test]
fn key_names() {
    assert_eq!(parse_code("KeyZ"), Ok(KeyCode::KeyZ));
    assert_eq!(parse_code("Z"), Ok(KeyCode::KeyZ));
    assert_eq!(parse_code("z"), Ok(KeyCode::KeyZ));
    assert_eq!(parse_code("Digit0"), Ok(KeyCode::Digit0));
    assert_eq!(parse_code("9"), Ok(KeyCode::Digit9));
    assert_eq!(parse_code("F1"), Ok(KeyCode::F1));
    assert_eq!(parse_code(" "), Ok(KeyCode::Space));
    assert_eq!(parse_code("Esc"), Ok(KeyCode::Escape));
    assert_eq!(parse_code("Return"), Ok(KeyCode::Enter));
    assert_eq!(parse_code("Del"), Ok(KeyCode::Delete));
    assert_eq!(parse_code("Up"), Ok(KeyCode::ArrowUp));
    assert_eq!(parse_code("\\"), Ok(KeyCode::Backslash));
    assert_eq!(parse_code("\""), Ok(KeyCode::Quote));
    assert_eq!(parse_code("`"), Ok(KeyCode::Backquote));
    assert_eq!(parse_code("="), Ok(KeyCode::Equal));
    assert_eq!(parse_code("F13"), Err("不支持的按键: F13".to_string()));
    assert_eq!(parse_code("f1"), Err("不支持的按键: f1".to_string()));
    assert_eq!(parse_code("KeyAA"), Err("不支持的按键: KeyAA".to_string()));
}
