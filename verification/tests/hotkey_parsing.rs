use clicker_core::hotkeys::{
    format_hotkey_binding, normalize_hotkey, parse_hotkey_binding, parse_hotkey_main_key,
    register_hotkey_inner, HotkeyBinding,
};

fn binding(ctrl: bool, alt: bool, shift: bool, super_key: bool, vk: i32, token: &str) -> HotkeyBinding {
    HotkeyBinding {
        ctrl,
        alt,
        shift,
        super_key,
        main_vk: vk,
        key_token: token.to_string(),
    }
}

#[test]
fn normalize_trims_lowers_and_renames() {
    assert_eq!(normalize_hotkey("  Control+Shift+A  "), "ctrl+shift+a");
    assert_eq!(normalize_hotkey("Command+Meta+Win"), "super+super+super");
    assert_eq!(normalize_hotkey("windows"), "superdows");
    assert_eq!(normalize_hotkey(""), "");
}

#[test]
fn parse_modifiers_and_letter() {
    assert_eq!(
        parse_hotkey_binding("ctrl+shift+a"),
        Ok(binding(true, false, true, false, 0x41, "a"))
    );
}

#[test]
fn parse_spaced_mixed_case_function_key() {
    assert_eq!(
        parse_hotkey_binding(" Control + Alt + F5 "),
        Ok(binding(true, true, false, false, 0x74, "f5"))
    );
}

#[test]
fn parse_super_aliases() {
    assert_eq!(
        parse_hotkey_binding("win+space"),
        Ok(binding(false, false, false, true, 0x20, "space"))
    );
    assert_eq!(
        parse_hotkey_binding("Meta+Tab"),
        Ok(binding(false, false, false, true, 0x09, "tab"))
    );
    assert_eq!(
        parse_hotkey_binding("cmd+KeyA"),
        Ok(binding(false, false, false, true, 0x41, "a"))
    );
    assert_eq!(
        parse_hotkey_binding("option+command+x"),
        Ok(binding(false, true, false, true, 0x58, "x"))
    );
}

#[test]
fn parse_modifier_after_main_key() {
    assert_eq!(
        parse_hotkey_binding("a+ctrl"),
        Ok(binding(true, false, false, false, 0x41, "a"))
    );
}

#[test]
fn parse_errors_have_exact_messages() {
    assert_eq!(
        parse_hotkey_binding("ctrl++a"),
        Err("Invalid hotkey 'ctrl++a': found empty key token".to_string())
    );
    assert_eq!(
        parse_hotkey_binding(""),
        Err("Invalid hotkey '': found empty key token".to_string())
    );
    assert_eq!(
        parse_hotkey_binding("ctrl+a+b"),
        Err("Invalid hotkey 'ctrl+a+b': use modifiers first and only one main key".to_string())
    );
    assert_eq!(
        parse_hotkey_binding("ctrl+shift"),
        Err("Invalid hotkey 'ctrl+shift': missing main key".to_string())
    );
    assert_eq!(
        parse_hotkey_binding("windows+a"),
        Err("Couldn't recognize 'superdows' as a valid key in 'windows+a'".to_string())
    );
    assert_eq!(
        parse_hotkey_binding("ctrl+ü"),
        Err("Couldn't recognize 'ü' as a valid key in 'ctrl+ü'".to_string())
    );
}

#[test]
fn parse_reports_the_first_error() {
    // The bad key comes before the second main key, so its error wins.
    assert_eq!(
        parse_hotkey_binding("a+zz+b"),
        Err("Couldn't recognize 'zz' as a valid key in 'a+zz+b'".to_string())
    );
}

#[test]
fn main_key_named_keys() {
    let cases: &[(&str, i32, &str)] = &[
        ("<", 0xE2, "IntlBackslash"),
        (">", 0xE2, "IntlBackslash"),
        ("IntlBackslash", 0xE2, "IntlBackslash"),
        ("oem102", 0xE2, "IntlBackslash"),
        ("NonUsBackslash", 0xE2, "IntlBackslash"),
        ("spacebar", 0x20, "space"),
        ("Tab", 0x09, "tab"),
        ("enter", 0x0D, "enter"),
        ("backspace", 0x08, "backspace"),
        ("delete", 0x2E, "delete"),
        ("insert", 0x2D, "insert"),
        ("home", 0x24, "home"),
        ("end", 0x23, "end"),
        ("PageUp", 0x21, "pageup"),
        ("pagedown", 0x22, "pagedown"),
        ("up", 0x26, "up"),
        ("down", 0x28, "down"),
        ("left", 0x25, "left"),
        ("right", 0x27, "right"),
        ("Esc", 0x1B, "escape"),
        ("escape", 0x1B, "escape"),
        ("slash", 0xBF, "/"),
        ("\\", 0xDC, "\\"),
        ("backslash", 0xDC, "\\"),
        ("semicolon", 0xBA, ";"),
        ("quote", 0xDE, "'"),
        ("bracketleft", 0xDB, "["),
        ("]", 0xDD, "]"),
        ("minus", 0xBD, "-"),
        ("equal", 0xBB, "="),
        ("backquote", 0xC0, "`"),
        ("comma", 0xBC, ","),
        ("period", 0xBE, "."),
    ];
    for (token, vk, name) in cases {
        assert_eq!(
            parse_hotkey_main_key(token, "hk"),
            Ok((*vk, name.to_string())),
            "token {token}"
        );
    }
}

#[test]
fn main_key_function_keys() {
    assert_eq!(parse_hotkey_main_key("F1", "F1"), Ok((0x70, "f1".to_string())));
    assert_eq!(parse_hotkey_main_key("f24", "f24"), Ok((0x87, "f24".to_string())));
    assert_eq!(parse_hotkey_main_key("f01", "f01"), Ok((0x70, "f01".to_string())));
    // `str::parse::<i32>` accepts a leading `+`.
    assert_eq!(parse_hotkey_main_key("f+1", "f+1"), Ok((0x70, "f+1".to_string())));
    assert_eq!(
        parse_hotkey_main_key("f25", "f25"),
        Err("Couldn't recognize 'f25' as a valid key in 'f25'".to_string())
    );
    assert_eq!(
        parse_hotkey_main_key("f0", "x"),
        Err("Couldn't recognize 'f0' as a valid key in 'x'".to_string())
    );
    assert_eq!(
        parse_hotkey_main_key("f100", "x"),
        Err("Couldn't recognize 'f100' as a valid key in 'x'".to_string())
    );
    // A lone `f` is the letter F.
    assert_eq!(parse_hotkey_main_key("f", "f"), Ok((0x46, "f".to_string())));
}

#[test]
fn main_key_prefixes_and_single_characters() {
    assert_eq!(parse_hotkey_main_key("KeyZ", "x"), Ok((0x5A, "z".to_string())));
    assert_eq!(parse_hotkey_main_key("Digit7", "x"), Ok((0x37, "7".to_string())));
    assert_eq!(parse_hotkey_main_key("key5", "x"), Ok((0x35, "5".to_string())));
    assert_eq!(parse_hotkey_main_key("key<", "x"), Ok((0xE2, "IntlBackslash".to_string())));
    assert_eq!(parse_hotkey_main_key(" q ", "x"), Ok((0x51, "q".to_string())));
    assert_eq!(parse_hotkey_main_key("0", "x"), Ok((0x30, "0".to_string())));
    // The inner token is quoted in the error.
    assert_eq!(
        parse_hotkey_main_key("key!", "hk"),
        Err("Couldn't recognize '!' as a valid key in 'hk'".to_string())
    );
    assert_eq!(
        parse_hotkey_main_key("keyab", "hk"),
        Err("Couldn't recognize 'keyab' as a valid key in 'hk'".to_string())
    );
    assert_eq!(
        parse_hotkey_main_key("", "hk"),
        Err("Couldn't recognize '' as a valid key in 'hk'".to_string())
    );
}

#[test]
fn format_writes_modifiers_in_fixed_order() {
    assert_eq!(
        format_hotkey_binding(&binding(true, true, true, true, 0xBE, ".")),
        "ctrl+alt+shift+super+."
    );
    assert_eq!(format_hotkey_binding(&binding(false, false, true, false, 0x41, "a")), "shift+a");
    assert_eq!(format_hotkey_binding(&binding(false, false, false, false, 0x70, "f1")), "f1");
    assert_eq!(
        format_hotkey_binding(&binding(true, false, false, false, 0xE2, "IntlBackslash")),
        "ctrl+IntlBackslash"
    );
}

#[test]
fn written_form_reads_back() {
    for hotkey in [
        "ctrl+shift+a",
        " Control + Alt + F5 ",
        "win+space",
        "cmd+KeyA",
        "a+ctrl",
        "ctrl+<",
        "shift+NonUsBackslash",
        "alt+f01",
        "super+Digit9",
        "ctrl+alt+shift+super+period",
        "Esc",
    ] {
        let first = parse_hotkey_binding(hotkey).unwrap();
        let written = format_hotkey_binding(&first);
        assert_eq!(parse_hotkey_binding(&written), Ok(first), "hotkey {hotkey}");
    }
}

#[test]
fn key_with_plus_does_not_read_back() {
    // The main key `f+1` is written as `f+1`, which splits into two keys.
    let b = binding(false, false, false, false, 0x70, "f+1");
    let written = format_hotkey_binding(&b);
    assert!(parse_hotkey_binding(&written).is_err());
}

#[test]
fn register_gives_binding_display_and_suppression() {
    let reg = register_hotkey_inner("Control+Shift+KeyP", 1_000).unwrap();
    assert_eq!(reg.binding, binding(true, false, true, false, 0x50, "p"));
    assert_eq!(reg.display, "ctrl+shift+p");
    assert_eq!(reg.suppress_until_ms, 1_250);
    assert!(reg.suppress_until_release);
    let late = register_hotkey_inner("a", u64::MAX - 10).unwrap();
    assert_eq!(late.suppress_until_ms, u64::MAX);
}

#[test]
fn register_fails_with_the_parse_error() {
    assert_eq!(
        register_hotkey_inner("ctrl+", 5).err(),
        Some("Invalid hotkey 'ctrl+': found empty key token".to_string())
    );
}

#[test]
fn normalizing_twice_changes_nothing() {
    for hotkey in [
        "  Control+Shift+A  ",
        "Command+Meta+Win",
        "WINDOWS",
        "xcontrolcommandx",
        " meta + contRol ",
        "",
    ] {
        let once = normalize_hotkey(hotkey);
        assert_eq!(normalize_hotkey(&once), once, "hotkey {hotkey}");
    }
}

#[test]
fn token_order_does_not_matter() {
    assert_eq!(parse_hotkey_binding("shift+a+ctrl"), parse_hotkey_binding("ctrl+shift+a"));
    assert_eq!(parse_hotkey_binding("F5+Alt"), parse_hotkey_binding("alt+f5"));
    assert_eq!(
        parse_hotkey_binding(" Control +Win+ KeyQ"),
        parse_hotkey_binding(" KeyQ+Win+Control ")
    );
    assert_eq!(
        parse_hotkey_binding("a+Command"),
        Ok(binding(false, false, false, true, 0x41, "a"))
    );
    assert_eq!(
        parse_hotkey_binding("ctrl+ctrl+a"),
        Ok(binding(true, false, false, false, 0x41, "a"))
    );
    assert!(parse_hotkey_binding("a+b").is_err());
    assert!(parse_hotkey_binding("b+a").is_err());
    assert!(parse_hotkey_binding("ctrl+shift").is_err());
    assert!(parse_hotkey_binding("shift+ctrl").is_err());
}

#[test]
fn returned_key_names_read_back() {
    for token in ["<", "Esc", "PageUp", "F7", "f01", "KeyQ", "Digit3", "slash", " Tab "] {
        let (vk, name) = parse_hotkey_main_key(token, "first").unwrap();
        assert_eq!(
            parse_hotkey_main_key(&name, "second"),
            Ok((vk, name.clone())),
            "token {token}"
        );
    }
}

#[test]
fn main_key_ignores_case_and_surrounding_space() {
    for (token, plain) in [(" PageUp ", "pageup"), ("\tKEYA", "keya"), ("F12 ", "f12"), (" X", "x")] {
        assert_eq!(parse_hotkey_main_key(token, "h"), parse_hotkey_main_key(plain, "h"));
    }
    assert!(parse_hotkey_main_key(" NOPE ", "h").is_err());
    assert!(parse_hotkey_main_key("nope", "h").is_err());
}
