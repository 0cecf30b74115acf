//! The configuration: keys, bindings, reloading and the rules for windows.
use paneru::config::keys::{find_literal, literal_keycode, virtual_keycode};
use paneru::config::padding::PaddingOptions;
use paneru::config::snippet::{
    identity_comment, quote, rule_key, title_pattern, window_rule_snippet, RuleSubject,
    SnippetDialect,
};
use paneru::config::swipe::{horizontal_direction_modifier, SwipeGestureDirection};
use paneru::config::{parse_modifiers, Config, Keybinding, MainOptions, RawConfig};
use paneru::config_reload::{
    refresh_configuration_trigger, replace_config_transactionally, FileChange, Refresh,
};
use paneru::errors::Error;

fn subject<'a>(app_name: &'a str, bundle_id: &'a str, title: &'a str) -> RuleSubject<'a> {
    RuleSubject {
        app_name,
        bundle_id,
        title,
        role: "AXWindow",
        subrole: "AXStandardWindow",
    }
}

/// The one rule of a snippet, as a reader of the file gets it.
fn only_rule(snippet: &str) -> toml::Table {
    let config: toml::Table = snippet.parse().expect("snippet parses as TOML config");
    let windows = config["windows"].as_table().expect("snippet defines a windows table");
    assert_eq!(windows.len(), 1, "exactly one rule");
    windows.values().next().unwrap().as_table().expect("a rule").clone()
}

fn title_of(rule: &toml::Table) -> regex::Regex {
    regex::Regex::new(rule["title"].as_str().expect("a title")).expect("a pattern")
}

fn raw(follows: bool, bindings: &[(&str, &str)]) -> Result<RawConfig, String> {
    Ok(RawConfig {
        options: MainOptions { focus_follows_mouse: follows },
        bindings: bindings
            .iter()
            .map(|(command, keys)| (command.to_string(), keys.to_string()))
            .collect(),
    })
}

#[test]
fn toml_snippet_has_both_matchers() {
    let snippet = window_rule_snippet(
        SnippetDialect::Toml,
        &subject("Ghostty", "com.mitchellh.ghostty", "paneru"),
    );
    assert_eq!(
        snippet,
        [
            "[windows.ghostty]\n",
            "bundle_id = \"com.mitchellh.ghostty\"\n",
            "title = \"^paneru$\"\n",
            "# title = \".*\"   # all windows of this app\n",
            "# app: Ghostty  role: AXWindow  subrole: AXStandardWindow\n",
            "# floating = true\n",
            "# manage = true\n",
            "# width = 0.5\n",
        ]
        .concat()
    );
}

#[test]
fn lua_snippet_has_both_matchers() {
    let snippet = window_rule_snippet(
        SnippetDialect::Lua,
        &subject("Ghostty", "com.mitchellh.ghostty", "paneru"),
    );
    assert_eq!(
        snippet,
        [
            "windows = {\n",
            "  ghostty = {\n",
            "    bundle_id = \"com.mitchellh.ghostty\",\n",
            "    title = \"^paneru$\",\n",
            "    -- title = \".*\",   -- all windows of this app\n",
            "    -- app: Ghostty  role: AXWindow  subrole: AXStandardWindow\n",
            "    -- floating = true,\n",
            "    -- manage = true,\n",
            "    -- width = 0.5,\n",
            "  },\n",
            "}\n",
        ]
        .concat()
    );
}

/// The escaping order is the part that can silently go wrong: escaping for the
/// pattern adds backslashes, which then need escaping again for the config string.
/// Parse the snippet back and match the very window it was made from.
#[test]
fn generated_toml_matches_the_window_it_came_from() {
    let title = r#"Find "a.b" (2) \ [x]"#;
    let bundle_id = "com.apple.Terminal";
    let snippet = window_rule_snippet(SnippetDialect::Toml, &subject("Term", bundle_id, title));

    let rule = only_rule(&snippet);
    assert!(title_of(&rule).is_match(title));
    assert_eq!(rule.get("bundle_id").and_then(|id| id.as_str()), Some(bundle_id));
}

#[test]
fn anchored_pattern_rejects_a_longer_title() {
    let snippet = window_rule_snippet(SnippetDialect::Toml, &subject("Term", "com.x", "build"));
    let rule = only_rule(&snippet);
    assert!(title_of(&rule).is_match("build"));
    assert!(!title_of(&rule).is_match("rebuild all"));
}

#[test]
fn empty_title_falls_back_to_wildcard() {
    let snippet = window_rule_snippet(SnippetDialect::Toml, &subject("Term", "com.x", ""));
    assert!(snippet.contains("title = \".*\"\n"));
    assert!(!snippet.contains("# title = \".*\""));
}

#[test]
fn empty_bundle_id_is_commented_out() {
    let snippet = window_rule_snippet(SnippetDialect::Toml, &subject("Term", "", "hello"));
    assert!(snippet.contains("# bundle_id = \"\"   # unknown; rule matches every app\n"));
    assert!(only_rule(&snippet).get("bundle_id").is_none());
}

#[test]
fn rule_keys_are_sanitized() {
    assert_eq!(rule_key("Ghostty"), "ghostty");
    assert_eq!(rule_key("Visual Studio Code"), "visual_studio_code");
    assert_eq!(rule_key("1Password 8"), "onepassword_8");
    assert_eq!(rule_key("7-Zip"), "seven_zip");
    assert_eq!(rule_key("  —  "), "window");
    assert_eq!(rule_key(""), "window");
}

#[test]
fn a_rule_key_never_starts_with_a_digit() {
    assert_eq!(rule_key("é1"), "one");
    assert_eq!(rule_key("42"), "four2");
}

/// Every character that means something in a pattern is escaped by the regex crate,
/// and the pattern is quoted for the config string.
#[test]
fn a_title_pattern_is_literal() {
    assert_eq!(title_pattern("a.b"), "^a\\\\.b$");
    assert_eq!(title_pattern(""), ".*");
    let title = r"\.+*?()|[]{}^$#&-~ plain";
    let pattern = title_pattern(title);
    assert_eq!(pattern, quote(&format!("^{}$", regex::escape(title))));
    let table: toml::Table = format!("t = \"{pattern}\"").parse().unwrap();
    assert!(regex::Regex::new(table["t"].as_str().unwrap()).unwrap().is_match(title));
}

#[test]
fn quoted_texts_read_back() {
    assert_eq!(quote("a\"b\\c\n\t\rd"), "a\\\"b\\\\c\\n\\t\\rd");
    let text = "x\n\"y\"\\z\t\r";
    let table: toml::Table = format!("t = \"{}\"", quote(text)).parse().unwrap();
    assert_eq!(table["t"].as_str(), Some(text));
}

#[test]
fn what_is_unknown_is_a_question_mark() {
    let unknown = RuleSubject { app_name: "", bundle_id: "", title: "", role: "", subrole: "" };
    assert_eq!(identity_comment(&unknown), "app: ?  role: ?  subrole: ?");
}

#[test]
fn failed_input_tap_replacement_keeps_running_config() {
    let mut current = Config::new(raw(false, &[]), &Vec::new()).unwrap();
    let running_focus_follows_mouse = current.options().focus_follows_mouse;
    let candidate = Config::new(raw(true, &[]), &Vec::new()).expect("candidate config should parse");

    let result = replace_config_transactionally(&mut current, candidate, |_: &Config| {
        Err(Error::InvalidInput("injected tap creation failure".into()))
    });

    assert!(result.is_err());
    assert_eq!(current.options().focus_follows_mouse, running_focus_follows_mouse);
}

#[test]
fn a_configuration_that_is_adapted_to_takes_over() {
    let mut current = Config::new(raw(false, &[]), &Vec::new()).unwrap();
    let candidate = Config::new(raw(true, &[]), &Vec::new()).unwrap();
    let result = replace_config_transactionally(&mut current, candidate, |candidate: &Config| {
        assert!(candidate.options().focus_follows_mouse);
        Ok(())
    });
    assert!(result.is_ok());
    assert!(current.options().focus_follows_mouse);
}

#[test]
fn bindings_name_keys_and_modifiers() {
    let layout = vec![("s".to_string(), 1), ("q".to_string(), 12)];
    let config = Config::new(
        raw(
            true,
            &[
                ("single", "s"),
                ("simple", "alt-s"),
                ("quit", "ctrl + alt - q"),
                ("leave", "cmd - escape"),
                ("odd", "nokey"),
            ],
        ),
        &layout,
    )
    .unwrap();
    let alt = parse_modifiers("alt").unwrap();
    let both = parse_modifiers("ctrl + alt").unwrap();
    let cmd = parse_modifiers("cmd").unwrap();
    assert_eq!(config.find_keybind(1, 0).unwrap().command, "single");
    assert_eq!(config.find_keybind(1, alt).unwrap().command, "simple");
    let quit = config.find_keybind(12, both).unwrap();
    assert_eq!((quit.key.as_str(), quit.code, quit.command.as_str()), ("q", 12, "quit"));
    assert_eq!(config.find_keybind(0x35, cmd).unwrap().command, "leave");
    // A key that nobody knows keeps the code zero.
    assert_eq!(config.find_keybind(0, 0).unwrap().command, "odd");
    assert!(config.find_keybind(12, alt).is_none());
}

#[test]
fn modifiers_are_combined_in_any_order() {
    let alt = parse_modifiers("alt").unwrap();
    let ctrl = parse_modifiers("ctrl").unwrap();
    assert_ne!(alt, ctrl);
    assert_eq!(parse_modifiers("ctrl+alt").unwrap(), alt | ctrl);
    assert_eq!(parse_modifiers(" alt + ctrl ").unwrap(), alt | ctrl);
    // One that is there twice counts once.
    assert_eq!(parse_modifiers("alt+alt").unwrap(), alt);
    assert_eq!(
        parse_modifiers("alt+hyper").unwrap_err(),
        "Invalid modifier: hyper"
    );
}

#[test]
fn a_binding_has_at_most_one_dash() {
    assert_eq!(
        Keybinding::parse("a-\"b\"-c").unwrap_err(),
        "Too many dashes: \"a-\\\"b\\\"-c\""
    );
    let binding = Keybinding::parse("shift - x").unwrap();
    assert_eq!(binding.key, "x");
    assert_eq!(binding.modifiers, parse_modifiers("shift").unwrap());
    assert_eq!(binding.code, 0);
    assert_eq!(binding.command, "");
}

#[test]
fn a_broken_file_is_reported_and_changes_nothing() {
    let mut config = Config::new(raw(true, &[("single", "s")]), &Vec::new()).unwrap();
    assert_eq!(
        config.reload_config(Err("line 3".to_string()), &Vec::new()).unwrap_err(),
        "line 3"
    );
    assert!(config.reload_config(raw(false, &[("x", "a-b-c")]), &Vec::new()).is_err());
    assert!(config.options().focus_follows_mouse);
    assert!(config.reload_config(raw(false, &[]), &Vec::new()).is_ok());
    assert!(!config.options().focus_follows_mouse);
    assert!(config.find_keybind(0, 0).is_none());
}

#[test]
fn files_are_read_again_when_they_are_written() {
    let none = Vec::new();
    let mut current = Config::new(raw(false, &[]), &none).unwrap();
    let accept = |_: &Config| Ok(());
    let ignored = refresh_configuration_trigger(
        FileChange::Other,
        true,
        vec![raw(true, &[])],
        &none,
        &mut current,
        accept,
    );
    assert!(matches!(ignored, Refresh::Ignored));
    assert!(!current.options().focus_follows_mouse);

    let kept = refresh_configuration_trigger(
        FileChange::Written,
        true,
        vec![raw(true, &[])],
        &none,
        &mut current,
        |_: &Config| Err(Error::Generic("no tap".to_string())),
    );
    assert!(matches!(kept, Refresh::Kept(Error::Generic(message)) if message == "no tap"));
    assert!(!current.options().focus_follows_mouse);

    let updated = refresh_configuration_trigger(
        FileChange::Written,
        true,
        vec![raw(true, &[])],
        &none,
        &mut current,
        accept,
    );
    assert!(matches!(updated, Refresh::Updated));
    assert!(current.options().focus_follows_mouse);
}

#[test]
fn keys_have_the_codes_of_the_hardware() {
    let letters = virtual_keycode();
    assert!(letters.contains(&("a", 0x00)));
    let codes: Vec<u8> = letters.iter().map(|(_, code)| *code).collect();
    assert!(codes.windows(2).all(|pair| pair[0] < pair[1]));
    assert!(literal_keycode().iter().all(|(_, code)| !codes.contains(code)));
    assert_eq!(find_literal("return"), Some(0x24));
    assert_eq!(find_literal("escape"), Some(0x35));
    assert_eq!(find_literal("nokey"), None);
}

#[test]
fn swiping_has_a_sign() {
    assert_eq!(horizontal_direction_modifier(SwipeGestureDirection::Natural), -1);
    assert_eq!(horizontal_direction_modifier(SwipeGestureDirection::Reversed), 1);
}

#[test]
fn nothing_is_padded_by_default() {
    let padding = PaddingOptions::default();
    assert_eq!(
        (padding.top, padding.bottom, padding.left, padding.right),
        (None, None, None, None)
    );
}

#[test]
fn test_config() {
    let input = r#"
# syntax
[options]
mouse_focus = true

[bindings]
single = "s"
simple = "alt-s"
quit = "ctrl + alt - q"
manage = "ctrl + alt - t"
"#;
    let file: toml::Table = input.parse().expect("the file parses");
    let follows = file["options"].get("focus_follows_mouse");
    let bindings: Vec<(String, String)> = file["bindings"]
        .as_table()
        .expect("bindings")
        .iter()
        .map(|(command, keys)| (command.clone(), keys.as_str().expect("keys").to_string()))
        .collect();
    let raw = RawConfig {
        options: MainOptions {
            focus_follows_mouse: follows.and_then(|value| value.as_bool()).unwrap_or(false),
        },
        bindings,
    };
    let keyboard = vec![("s".to_string(), 1), ("q".to_string(), 12), ("t".to_string(), 17)];
    let config = Config::new(Ok(raw), &keyboard).unwrap();
    assert!(!config.options().focus_follows_mouse);
    let bound = |code, modifiers| config.find_keybind(code, modifiers).map(|found| found.command);
    assert_eq!(bound(1, 0).as_deref(), Some("single"));
    assert_eq!(bound(1, 1).as_deref(), Some("simple"));
    assert_eq!(bound(12, 9).as_deref(), Some("quit"));
    assert_eq!(bound(17, 9).as_deref(), Some("manage"));
    assert_eq!(bound(17, 8), None);
}

#[test]
fn a_written_rule_reads_as_just_that_rule() {
    let title = "a \"b\" [c] \\ d\te $f^";
    let snippet = window_rule_snippet(
        SnippetDialect::Toml,
        &subject("1 Odd-App!", "com.odd \"app\"", title),
    );
    let file: toml::Table = snippet.parse().expect("the snippet parses");
    assert_eq!(file.len(), 1);
    let rule = only_rule(&snippet);
    assert_eq!(rule.len(), 2);
    assert_eq!(rule["bundle_id"].as_str(), Some("com.odd \"app\""));
    let pattern = title_of(&rule);
    assert!(pattern.is_match(title));
    assert!(!pattern.is_match(&format!("{title}.")));
    assert!(!pattern.is_match("a"));
}

#[test]
fn no_two_keys_share_a_name_or_a_code() {
    let mut keys = virtual_keycode();
    assert_eq!(keys.len(), 66);
    for c in ('a'..='z').chain('0'..='9') {
        assert_eq!(keys.iter().filter(|key| key.0 == c.to_string()).count(), 1);
    }
    keys.extend(literal_keycode());
    for (i, one) in keys.iter().enumerate() {
        for other in &keys[i + 1..] {
            assert_ne!(one.0, other.0);
            assert_ne!(one.1, other.1);
        }
    }
}
