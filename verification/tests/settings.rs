use bdo_discord_rpc::check::{self, Problem};
use bdo_discord_rpc::config::{Config, Table};
use bdo_discord_rpc::keymap::KeyMap;
use bdo_discord_rpc::phase::Phase;
use bdo_discord_rpc::settings::{
    add_name, config_problem, dirty, edit_phase_field, log_tail_text, merge_new_names,
    remove_name, rename_name, restore_name, FolderProbe, Page, PhaseField, discard, name_page_rows,
};

fn probe() -> FolderProbe {
    FolderProbe { is_dir: true, has_marker: true }
}

#[test]
fn each_check_names_its_problem() {
    assert!(check::accent("#F08080").is_none());
    assert!(matches!(check::accent("zz"), Some(Problem::Accent)));
    assert!(matches!(check::app_id("  "), Some(Problem::AppIdNeeded)));
    assert!(matches!(check::app_id("12a"), Some(Problem::AppIdDigits)));
    assert!(check::app_id(" 123 ").is_none());
    assert!(check::game_folder("", false, false).is_none());
    assert!(matches!(check::game_folder("C:/x", false, false), Some(Problem::NoFolder)));
    assert!(matches!(check::game_folder("C:/x", true, false), Some(Problem::NoMarker(m)) if m == "bin64"));
    assert!(matches!(check::user_data("C:/x", true, false), Some(Problem::NoMarker(m)) if m == "GameOption.txt"));
    assert!(check::user_data("C:/x", true, true).is_none());
    assert!(matches!(check::url("ftp://x"), Some(Problem::Https)));
    assert!(check::url(" https://x ").is_none());
    assert!(check::url("").is_none());
    assert!(check::image("asset_key").is_none());
    assert!(matches!(check::image("http://x/a.png"), Some(Problem::ImageHttps)));
    assert!(matches!(check::image("https://x/a.txt"), Some(Problem::ImageType)));
    assert!(matches!(check::image("https://x/noext"), Some(Problem::ImageType)));
    assert!(check::image("https://x/a.PNG?v=1.2#x.y").is_none());
    assert!(check::template("{family} - {server}").is_none());
    assert!(matches!(check::template("a } b"), Some(Problem::ClosesNothing(t)) if t == "} b"));
    assert!(matches!(check::template("ok {family} then }"), Some(Problem::ClosesNothing(t)) if t == "}"));
    assert!(matches!(check::template("x {family"), Some(Problem::MissingClose(t)) if t == "{family"));
    assert!(matches!(check::template("{nope}"), Some(Problem::NoPlaceholder(n)) if n == "nope"));
    let long = "a".repeat(40);
    assert!(matches!(check::template(&format!("{{{long}")), Some(Problem::MissingClose(t)) if t.chars().count() == 24));
    assert!(matches!(check::button_label(&"x".repeat(33)), Some(Problem::AtMost(32))));
    assert!(check::button_label(&format!("{{family}}{}", "x".repeat(40))).is_none());
    assert!(check::button_label(&"x".repeat(32)).is_none());
    assert!(matches!(check::button_url(&format!("https://{}", "a".repeat(600))), Some(Problem::AtMost(512))));
    assert!(matches!(check::button_url("x"), Some(Problem::Https)));
    assert!(check::button_url("{profile_url}").is_none());
    assert!(matches!(check::name("  "), Some(Problem::Blank)));
    assert!(check::name("Calpheon").is_none());
    assert!(matches!(check::character_id(""), Some(Problem::IdBlank)));
    assert!(matches!(check::character_id("12x"), Some(Problem::IdDigits)));
    assert!(check::character_id(" 123 ").is_none());
}

#[test]
fn the_default_config_saves() {
    let config = Config::default();
    assert!(config_problem(&config, probe(), probe()).is_none());
}

#[test]
fn the_first_problem_blocks_saving() {
    let mut config = Config::default();
    config.client_id = "abc".to_string();
    config.theme.accent = "nope".to_string();
    let (label, problem) = config_problem(&config, probe(), probe()).expect("a problem");
    assert_eq!(label, "Accent Color");
    assert!(matches!(problem, Problem::Accent));

    let mut config = Config::default();
    edit_phase_field(&mut config, Phase::Lobby, PhaseField::ButtonUrl, "ftp://x".to_string());
    let (label, problem) = config_problem(&config, probe(), probe()).expect("a problem");
    assert_eq!(label, "Character Select Button URL");
    assert!(matches!(problem, Problem::Https));

    let mut config = Config::default();
    config.characters.insert("12a".to_string(), "Yuki".to_string());
    config.servers.insert("gs1".to_string(), " ".to_string());
    let (label, problem) = config_problem(&config, probe(), probe()).expect("a problem");
    assert_eq!(label, "gs1");
    assert!(matches!(problem, Problem::Blank));

    let (label, problem) = config_problem(&Config::default(), FolderProbe { is_dir: false, has_marker: false }, probe())
        .map(|x| x)
        .unwrap_or(("none".to_string(), Problem::Blank));
    assert_eq!(label, "none");
    assert!(matches!(problem, Problem::Blank));
}

#[test]
fn pages_know_when_they_hold_changes() {
    let saved = Config::default();
    let mut config = Config::default();
    assert!(!dirty(&config, &saved, false));
    assert!(dirty(&config, &saved, true));
    config.identity.family_name = "Kuro".to_string();
    assert!(Page::Identity.dirty(&config, &saved, false));
    assert!(!Page::General.dirty(&config, &saved, false));
    assert!(!Page::Overview.dirty(&config, &saved, true));
    assert!(Page::General.dirty(&config, &saved, true));
    assert!(dirty(&config, &saved, false));
    assert_eq!(Page::Profile.label(), "Adventurer Profile");
    assert_eq!(Page::all().len(), 12);
}

#[test]
fn phase_fields_are_set_and_read() {
    let mut config = Config::default();
    edit_phase_field(&mut config, Phase::Play, PhaseField::SmallText, "{server}".to_string());
    let cfg = config.phase(Phase::Play);
    assert_eq!(PhaseField::SmallText.get(&cfg), "{server}");
    assert_eq!(PhaseField::Details.get(&cfg), "{character}");
    assert_eq!(PhaseField::SmallImage.hint(&cfg), "Uses the Game Icon");
    let lobby = config.phase(Phase::Lobby);
    assert_eq!(PhaseField::SmallImage.hint(&lobby), "No Image");
    assert!(matches!(PhaseField::ButtonLabel.error(&"y".repeat(40)), Some(Problem::AtMost(32))));
    assert!(matches!(PhaseField::Details.error("{x}"), Some(Problem::NoPlaceholder(_))));
    assert!(PhaseField::Details.error(&"y".repeat(40)).is_none());
    assert_eq!(PhaseField::all().len(), 10);
}

#[test]
fn names_are_added_renamed_removed_and_restored() {
    let mut config = Config::default();
    assert!(add_name(&mut config, Table::Servers, " gs1 ", " Calpheon 1 "));
    assert_eq!(config.servers.get("gs1").map(|s| s.as_str()), Some("Calpheon 1"));
    assert!(!add_name(&mut config, Table::Servers, "gs2", "  "));
    assert!(config.servers.get("gs2").is_none());
    rename_name(&mut config, Table::Servers, "gs1", "Velia".to_string());
    rename_name(&mut config, Table::Servers, "gs9", "Nowhere".to_string());
    assert_eq!(config.servers.get("gs1").map(|s| s.as_str()), Some("Velia"));
    assert!(config.servers.get("gs9").is_none());
    let saved = {
        let mut s = Config::default();
        s.servers.insert("gs1".to_string(), "Calpheon 1".to_string());
        s
    };
    remove_name(&mut config, Table::Servers, "gs1");
    assert!(config.servers.get("gs1").is_none());
    restore_name(&mut config, &saved, Table::Servers, "gs1");
    assert_eq!(config.servers.get("gs1").map(|s| s.as_str()), Some("Calpheon 1"));
}

#[test]
fn names_from_disk_join_the_edits() {
    let mut editing = KeyMap::new();
    editing.insert("a".to_string(), "edited".to_string());
    let mut saved = KeyMap::new();
    saved.insert("b".to_string(), "removed on screen".to_string());
    let mut disk = KeyMap::new();
    disk.insert("a".to_string(), "disk a".to_string());
    disk.insert("b".to_string(), "disk b".to_string());
    disk.insert("c".to_string(), "disk c".to_string());
    merge_new_names(&mut editing, &saved, &disk);
    assert_eq!(editing.get("a").map(|s| s.as_str()), Some("edited"));
    assert!(editing.get("b").is_none());
    assert_eq!(editing.get("c").map(|s| s.as_str()), Some("disk c"));
    assert_eq!(editing.len(), 2);
}

#[test]
fn the_log_page_starts_at_a_whole_line() {
    assert_eq!(log_tail_text("cut line\nwhole line\n", 10), "whole line\n");
    assert_eq!(log_tail_text("first\nsecond", 0), "first\nsecond");
    assert_eq!(log_tail_text("no break", 10), "no break");
}

#[test]
fn discarding_brings_back_the_saved_config() {
    let saved = Config::default();
    let mut config = Config::default();
    config.poll_seconds = 42;
    config.servers.insert("gs1".to_string(), "One".to_string());
    config.theme.accent = "00FF00".to_string();
    assert!(dirty(&config, &saved, false));
    discard(&mut config, &saved);
    assert!(!dirty(&config, &saved, false));
    assert_eq!(config.poll_seconds, saved.poll_seconds);
    assert_eq!(config.servers.len(), 0);
}

#[test]
fn name_rows_list_both_tables_in_key_order() {
    let mut current: KeyMap<String> = KeyMap::new();
    current.insert("b".to_string(), "Bee".to_string());
    current.insert("c".to_string(), "Sea".to_string());
    let mut saved: KeyMap<String> = KeyMap::new();
    saved.insert("a".to_string(), "Ay".to_string());
    saved.insert("b".to_string(), "B".to_string());
    let rows = name_page_rows(&current, &saved);
    assert_eq!(rows.len(), 3);
    assert_eq!(rows.key_at(0), "a");
    assert_eq!(rows.value_at(0).name, None);
    assert_eq!(rows.value_at(0).saved.as_deref(), Some("Ay"));
    assert_eq!(rows.key_at(1), "b");
    assert_eq!(rows.value_at(1).name.as_deref(), Some("Bee"));
    assert_eq!(rows.value_at(1).saved.as_deref(), Some("B"));
    assert_eq!(rows.key_at(2), "c");
    assert_eq!(rows.value_at(2).saved, None);
}
