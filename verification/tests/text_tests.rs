use srcwroller::catalog::{festivity_event_shown, find_page, get_page_names, page_definitions, page_matches, page_named};
use srcwroller::pages::Page;
use srcwroller::config::{
    config_format, format_of_lowered, default_det_model, default_keys_file, default_max_retry, default_models_dir, default_page_timeout,
    default_prefer_env, default_rec_model, ocr_model_files, openings_from_entries, ConfigFormat, OcrConfig,
    OpeningConfigEntry,
};
use srcwroller::device::{expand_home, is_target, png_start, select_device};
use srcwroller::geometry::{MatchBox, Region};
use srcwroller::keys::{key_event_command, key_event_command_for};
use srcwroller::screen_size::{parse_screen_size, ScreenSizeError};
use srcwroller::shell::{parse_shell_command, split_words, ShellCommand};
use srcwroller::text::str_contains;

fn strings(v: &[&str]) -> Vec<String> {
    v.iter().map(|s| s.to_string()).collect()
}

#[test]
fn substring_search() {
    assert!(str_contains("专家研讨会", "研讨"));
    assert!(str_contains("abc", ""));
    assert!(!str_contains("ab", "abc"));
    assert!(!str_contains("彩虹时代", "头彩"));
}

#[test]
fn key_names_ignore_case() {
    assert_eq!(key_event_command("ESC"), "input keyevent KEYCODE_ESCAPE");
    assert_eq!(key_event_command("escape"), "input keyevent KEYCODE_ESCAPE");
    assert_eq!(key_event_command("Back"), "input keyevent KEYCODE_BACK");
    assert_eq!(key_event_command("f12"), "input keyevent KEYCODE_F12");
    assert_eq!(key_event_command("7"), "input keyevent KEYCODE_7");
    assert_eq!(key_event_command("Delete"), "input keyevent KEYCODE_FORWARD_DEL");
    assert_eq!(key_event_command("KEYCODE_X"), "input keyevent KEYCODE_X");
}

#[test]
fn screen_size_is_read_long_side_first() {
    assert_eq!(parse_screen_size("Physical size: 1080x2400\n"), Ok((2400, 1080)));
    assert_eq!(parse_screen_size("Physical size: 1920x1080\r\nOverride size: 1280x720\n"), Ok((1920, 1080)));
    assert_eq!(parse_screen_size(""), Ok((1920, 1080)));
    assert_eq!(parse_screen_size("Physical size: 1080\nPhysical size: 720x1280"), Ok((1280, 720)));
    assert_eq!(parse_screen_size("Physical size: abcx100"), Err(ScreenSizeError::BadNumber));
    assert_eq!(parse_screen_size("Physical size: 99999999999x100"), Err(ScreenSizeError::BadNumber));
    assert_eq!(parse_screen_size("Physical size: +720x-1"), Ok((720, -1)));
}

#[test]
fn shell_lines_become_commands() {
    let elems = strings(&["开始", "say hello world!", "确认"]);
    assert_eq!(parse_shell_command("   ", &elems), ShellCommand::Empty);
    assert_eq!(parse_shell_command("q", &elems), ShellCommand::Quit);
    assert_eq!(parse_shell_command(" ls ", &elems), ShellCommand::ListElements);
    assert_eq!(parse_shell_command("click", &elems), ShellCommand::ClickUsage);
    assert_eq!(parse_shell_command("  click 2 ", &elems), ShellCommand::Click(2));
    assert_eq!(parse_shell_command("c +1", &elems), ShellCommand::Click(1));
    assert_eq!(parse_shell_command("click 5", &elems), ShellCommand::ClickOutOfRange(5));
    assert_eq!(parse_shell_command("click x", &elems), ShellCommand::InvalidIndex("x".to_string()));
    assert_eq!(parse_shell_command("click -1", &elems), ShellCommand::InvalidIndex("-1".to_string()));
    assert_eq!(parse_shell_command("ct", &elems), ShellCommand::ClickTextUsage);
    assert_eq!(parse_shell_command("ct  hello   world", &elems), ShellCommand::ClickText(1));
    assert_eq!(parse_shell_command("click_text zz", &elems), ShellCommand::TextNotFound("zz".to_string()));
    assert_eq!(parse_shell_command("ss", &elems), ShellCommand::Screenshot);
    assert_eq!(parse_shell_command("?", &elems), ShellCommand::Help);
    assert_eq!(
        parse_shell_command("select  1 2", &elems),
        ShellCommand::Other("select".to_string(), strings(&["1", "2"]))
    );
    assert_eq!(split_words(" a  bc\td "), strings(&["a", "bc", "d"]));
}

#[test]
fn settings_defaults_and_formats() {
    assert_eq!(default_models_dir(), "./models");
    assert_eq!(default_det_model(), "PP-OCRv5_mobile_det.mnn");
    assert_eq!(default_rec_model(), "PP-OCRv5_mobile_rec.mnn");
    assert_eq!(default_keys_file(), "ppocr_keys_v5.txt");
    assert_eq!(default_max_retry(), 500);
    assert_eq!(default_page_timeout(), 10);
    assert_eq!(default_prefer_env().len(), 7);
    assert_eq!(default_prefer_env()[0], "彩虹时代");
    let ocr = OcrConfig::default();
    assert_eq!(ocr.models_dir, "./models");
    let (d, r, k) = ocr_model_files(None);
    assert_eq!((d.as_str(), r.as_str(), k.as_str()), ("ch_PP-OCRv4_det_infer.mnn", "ch_PP-OCRv4_rec_infer.mnn", "ppocr_keys_v4.txt"));
    let (d, _, _) = ocr_model_files(Some(&ocr));
    assert_eq!(d, "PP-OCRv5_mobile_det.mnn");
    assert_eq!(config_format("JSON"), Some(ConfigFormat::Json));
    assert_eq!(config_format("yml"), Some(ConfigFormat::Yaml));
    assert_eq!(config_format("Yaml"), Some(ConfigFormat::Yaml));
    assert_eq!(config_format("toml"), None);
    assert_eq!(config_format(""), None);
    let entries = vec![OpeningConfigEntry { env: strings(&["a"]), strategy: vec![], affix: strings(&["b"]) }];
    let openings = openings_from_entries(&entries);
    assert_eq!(openings.len(), 1);
    assert_eq!(openings[0].env, strings(&["a"]));
    assert_eq!(openings[0].affix, strings(&["b"]));
}

#[test]
fn devices_and_screenshots() {
    let serials = vec![Some("a".to_string()), None, Some("b".to_string())];
    assert_eq!(select_device(&serials, Some("b")), Some("b".to_string()));
    assert_eq!(select_device(&serials, Some("c")), None);
    assert_eq!(select_device(&serials, None), Some("a".to_string()));
    assert_eq!(select_device(&[None, Some("a".to_string())], None), None);
    assert_eq!(select_device(&[], None), None);
    assert!(is_target(&Some("a".to_string()), &None));
    assert!(is_target(&Some("a".to_string()), &Some("a".to_string())));
    assert!(!is_target(&None, &Some("a".to_string())));
    assert_eq!(png_start(&[0, 1, 0x89, b'P', b'N', b'G', 0]), 2);
    assert_eq!(png_start(&[0x89, b'P', b'N']), 0);
    assert_eq!(png_start(b"warning\n\x89PNG\r\n"), 8);
    assert_eq!(expand_home("~/Android/Sdk/platform-tools/adb", Some("/home/u")), Some("/home/u/Android/Sdk/platform-tools/adb".to_string()));
    assert_eq!(expand_home("~/x", None), None);
    assert_eq!(expand_home("/usr/bin/adb", None), Some("/usr/bin/adb".to_string()));
}

#[test]
fn page_catalogue() {
    let names = get_page_names();
    assert_eq!(names.len(), 15);
    assert_eq!(names[0], "StartPage");
    assert_eq!(names[14], "SpecialEventPage");
    assert_eq!(find_page("ShopPage"), Some(7));
    assert_eq!(find_page("NoSuchPage"), None);
    let defs = page_definitions();
    assert_eq!(defs[0].keywords, &["开始", "货币战争"]);
    assert!(page_matches(&strings(&["开始货币战争"]), defs[0].keywords));
    assert!(!page_matches(&strings(&["商店"]), defs[0].keywords));
    assert!(festivity_event_shown(&strings(&["请选择1名角色成为巨星"])));
    assert!(!festivity_event_shown(&strings(&["命运卜者"])));
}

#[test]
fn boxes_and_regions() {
    let r = Region::new(1, 2, 3, 4);
    assert_eq!((r.left, r.top, r.width, r.height), (1, 2, 3, 4));
    let b = MatchBox { left: 10, top: 20, width: 5, height: 7, source: "x.png".to_string() };
    assert_eq!(b.center(), (12, 23));
    let n = MatchBox { left: 10, top: 20, width: -5, height: -7, source: String::new() };
    assert_eq!(n.center(), (8, 17));
}

#[test]
fn key_commands_from_a_given_lower_case_form() {
    assert_eq!(key_event_command_for("BACK", "back"), "input keyevent KEYCODE_BACK");
    assert_eq!(key_event_command_for("Volume_Up", "volume_up"), "input keyevent KEYCODE_VOLUME_UP");
    assert_eq!(key_event_command_for("KEYCODE_X", "keycode_x"), "input keyevent KEYCODE_X");
}

#[test]
fn settings_formats_from_a_lower_case_extension() {
    assert_eq!(format_of_lowered("json"), Some(ConfigFormat::Json));
    assert_eq!(format_of_lowered("yml"), Some(ConfigFormat::Yaml));
    assert_eq!(format_of_lowered("yaml"), Some(ConfigFormat::Yaml));
    assert_eq!(format_of_lowered("JSON"), None);
    assert_eq!(format_of_lowered("toml"), None);
}

#[test]
fn page_names_of_the_catalogue_name_screens() {
    assert_eq!(page_named("ShopPage"), Some(Page::Shop));
    assert_eq!(page_named("ExitConfirmDialog"), Some(Page::ExitConfirm));
    assert_eq!(page_named("BattleSettlementPage"), Some(Page::BattleSettlement));
    assert_eq!(page_named("SpecialEventPage"), None);
    assert_eq!(page_named("shoppage"), None);
}
