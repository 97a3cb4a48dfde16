use bdo_discord_rpc::cli::{mode, wants_console, Mode};
use bdo_discord_rpc::config::{Config, Table};
use bdo_discord_rpc::game::{
    character_ids, choose_character, choose_family, creation_nanos, is_family_name, service_type,
    wide_to_string,
};
use bdo_discord_rpc::keymap::KeyMap;
use bdo_discord_rpc::lang::{choose_locale, supported};
use bdo_discord_rpc::m3::{dark, palette, parse_hex, seed, Palette, FALLBACK_SEED};
use bdo_discord_rpc::phase::{display_key, Phase};
use bdo_discord_rpc::prompt::{flag, from_flag, intro, key_acceptable, name_entry};
use bdo_discord_rpc::region::{Region, Regions};
use bdo_discord_rpc::settings::Page;
use bdo_discord_rpc::tray::Health;

fn args(list: &[&str]) -> Vec<String> {
    list.iter().map(|a| a.to_string()).collect()
}

#[test]
fn accents_read_as_hex() {
    assert_eq!(parse_hex("#f08080"), Some(0xF08080));
    assert_eq!(parse_hex(" ##ABC123 "), Some(0xABC123));
    assert_eq!(parse_hex("abc"), None);
    assert_eq!(parse_hex("gggggg"), None);
    assert_eq!(parse_hex("1234567"), None);
    let mut config = Config::default();
    assert_eq!(seed(&config), 0xF08080);
    config.theme.accent = "x".to_string();
    assert_eq!(seed(&config), FALLBACK_SEED);
    assert!(dark(&config));
    config.theme.mode = "LIGHT".to_string();
    assert!(!dark(&config));
    assert_eq!(palette(&config), Palette::TonalSpot);
    config.theme.palette = " Fruit_Salad ".to_string();
    assert_eq!(palette(&config), Palette::FruitSalad);
    assert_eq!(Palette::parse("nope"), None);
    assert_eq!(Palette::Vibrant.key(), "vibrant");
    assert_eq!(Palette::FruitSalad.label(), "Fruit Salad");
    assert_eq!(Palette::all().len(), 7);
}

#[test]
fn the_language_follows_the_setting_or_the_system() {
    let locales = args(&["en", "ko", "pt-BR"]);
    assert_eq!(supported("KO", &locales).as_deref(), Some("ko"));
    assert_eq!(supported("en-US", &locales).as_deref(), Some("en"));
    assert_eq!(supported("pt-br", &locales).as_deref(), Some("pt-BR"));
    assert_eq!(supported("fr", &locales), None);
    assert_eq!(choose_locale(" ko ", &args(&["pt-BR"]), &locales), "ko");
    assert_eq!(choose_locale("auto", &args(&["fr-FR", "pt-BR"]), &locales), "pt-BR");
    assert_eq!(choose_locale("", &args(&["fr-FR"]), &locales), "en");
    assert_eq!(choose_locale("de", &args(&["ko"]), &locales), "en");
}

#[test]
fn the_command_line_picks_the_mode() {
    assert!(matches!(mode(&args(&[])), Mode::Tray));
    assert!(matches!(mode(&args(&["--settings"])), Mode::Settings(Page::Overview)));
    assert!(matches!(mode(&args(&["--settings", "log"])), Mode::Settings(Page::Log)));
    assert!(matches!(mode(&args(&["--probe"])), Mode::Probe));
    assert!(matches!(mode(&args(&["-h"])), Mode::Help));
    assert!(matches!(mode(&args(&["--name-server", "gs1"])), Mode::Prompt(Table::Servers, Some(k)) if k == "gs1"));
    assert!(matches!(mode(&args(&["--name-character"])), Mode::Prompt(Table::Characters, None)));
    assert!(matches!(mode(&args(&["--what"])), Mode::Unknown(a) if a == "--what"));
    assert!(wants_console(&args(&["--probe"])));
    assert!(!wants_console(&args(&["--settings"])));
    assert!(!wants_console(&args(&["--name-server", "x"])));
    assert!(!wants_console(&args(&[])));
}

#[test]
fn prompts_name_what_they_ask_for() {
    assert_eq!(flag(Table::Servers), "--name-server");
    assert_eq!(from_flag(flag(Table::Characters)), Some(Table::Characters));
    assert_eq!(from_flag("--name"), None);
    assert_eq!(intro(Table::Servers, "gs1"), "You are on an unnamed Server: gs1");
    assert!(key_acceptable(Table::Characters, "123"));
    assert!(!key_acceptable(Table::Characters, "12a"));
    assert!(!key_acceptable(Table::Characters, ""));
    assert!(key_acceptable(Table::Servers, "gs-1"));
    let mut config = Config::default();
    name_entry(&mut config, Table::Characters, "123", "  Yuki ");
    assert_eq!(config.characters.get("123").map(|s| s.as_str()), Some("Yuki"));
    assert_eq!(config.servers.len(), 0);
}

#[test]
fn regions_are_found_by_code() {
    let mut r = Regions::new();
    r.table.insert("SEA".to_string(), Region { name: "Asia".to_string(), search: String::new(), servers: vec!["Velia".to_string(), "Heidel".to_string()] });
    r.table.insert("NA".to_string(), Region { name: "North America".to_string(), search: String::new(), servers: vec!["Heidel".to_string(), "Olvia".to_string()] });
    assert_eq!(r.get(" sea ").map(|x| x.name.as_str()), Some("Asia"));
    assert!(r.get("EU").is_none());
    assert_eq!(r.name("na"), "North America");
    assert_eq!(r.name("EU"), "EU");
    assert_eq!(r.servers(Some("SEA")), args(&["Velia", "Heidel"]));
    assert_eq!(r.servers(None), args(&["Heidel", "Olvia", "Velia"]));
    assert_eq!(r.servers(Some("EU")), args(&["Heidel", "Olvia", "Velia"]));
}

#[test]
fn service_ini_names_the_region() {
    let ini = "; comment\r\n[GAME]\r\ntype=WRONG\r\n[ service ]\r\n[Service]\r\n # note\r\n Type = SEA \r\n";
    assert_eq!(service_type(ini).as_deref(), Some("SEA"));
    assert_eq!(service_type("[SERVICE]\nname=x\n"), None);
    assert_eq!(service_type("type=SEA"), None);
    assert_eq!(service_type(""), None);
}

#[test]
fn the_family_and_character_folders_are_read() {
    assert!(is_family_name("Kuro"));
    assert!(!is_family_name("-1"));
    assert!(!is_family_name("12345"));
    assert!(!is_family_name(""));
    let entries = vec![("-1".to_string(), 900), ("Kuro".to_string(), 10), ("1234".to_string(), 500), ("Neko".to_string(), 20), ("Tie".to_string(), 20)];
    assert_eq!(choose_family(&entries).as_deref(), Some("Tie"));
    assert_eq!(choose_family(&vec![("-1".to_string(), 1)]), None);
    let ids = character_ids(&args(&["300", "abc", "12", "300", "", "9"]));
    assert_eq!(ids, args(&["12", "300", "9"]));
    let window: i128 = 10_000_000_000;
    let cands = vec![("1".to_string(), 1000 + window + 1), ("2".to_string(), 1000 - 5), ("3".to_string(), 1000 + 5), ("4".to_string(), 1000 + 2)];
    assert_eq!(choose_character(&cands, 1000).as_deref(), Some("4"));
    assert_eq!(choose_character(&cands[..1].to_vec(), 1000), None);
}

#[test]
fn process_details_are_decoded() {
    let wide: Vec<u16> = "BlackDesert64.exe".encode_utf16().chain([0, 65, 66]).collect();
    assert_eq!(wide_to_string(&wide), "BlackDesert64.exe");
    assert_eq!(wide_to_string(&[72, 105]), "Hi");
    let ticks: u64 = 116_444_736_000_000_000 + 10_000_000;
    assert_eq!(creation_nanos((ticks >> 32) as u32, ticks as u32), Some(1_000_000_000));
    assert_eq!(creation_nanos(0, 5), None);
}

#[test]
fn small_things_read_as_written() {
    assert_eq!(display_key(Some(Phase::CharacterCreate)), "phase.character_create");
    assert_eq!(display_key(None), "phase.unknown");
    assert_eq!(Health::Live.tint(), [0x3B, 0xA5, 0x5D]);
    assert_eq!(Health::Idle.tint(), [0x6B, 0x72, 0x80]);
    let mut m: KeyMap<String> = KeyMap::new();
    m.insert("b".to_string(), "2".to_string());
    m.insert("a".to_string(), "1".to_string());
    m.insert("b".to_string(), "3".to_string());
    assert_eq!(m.len(), 2);
    assert_eq!(m.key_at(0), "a");
    assert_eq!(m.get("b").map(|s| s.as_str()), Some("3"));
    m.remove("a");
    assert!(!m.contains_key("a"));
}

#[test]
fn each_palette_key_reads_back() {
    let mut config = Config::default();
    for p in Palette::all() {
        config.theme.palette = p.key().to_string();
        assert_eq!(palette(&config), p);
        config.theme.palette = format!("  {}  ", p.key().to_ascii_uppercase());
        assert_eq!(palette(&config), p);
    }
    config.theme.palette = "no_such_palette".to_string();
    assert_eq!(palette(&config), Palette::TonalSpot);
}

#[test]
fn region_lookup_ignores_spaces_and_case() {
    let mut r = Regions::new();
    r.table.insert("SEA".to_string(), Region { name: "Asia".to_string(), search: String::new(), servers: Vec::new() });
    for code in ["SEA", "sea", " Sea ", "\tsEa\n"] {
        assert_eq!(r.get(code).map(|x| x.name.as_str()), Some("Asia"));
    }
    assert!(r.get("SE A").is_none());
}

#[test]
fn a_normal_config_is_kept_by_normalize() {
    let mut config = Config::default();
    config.normalize();
    let before = (config.debounce_seconds, config.min_update_seconds, config.poll_seconds, config.profile.refresh_minutes, config.phases.len());
    config.normalize();
    let after = (config.debounce_seconds, config.min_update_seconds, config.poll_seconds, config.profile.refresh_minutes, config.phases.len());
    assert_eq!(before, after);
    config.poll_seconds = 0;
    config.normalize();
    assert_eq!(config.poll_seconds, 1);
}

#[test]
fn utf16_pairs_and_lone_halves_are_read() {
    assert_eq!(wide_to_string(&[0xD834, 0xDD1E, 0x61, 0xDD1E, 0xD834, 0x62, 0]), "\u{1D11E}a\u{FFFD}\u{FFFD}b");
}
