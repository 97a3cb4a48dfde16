use bdo_discord_rpc::config::Config;
use bdo_discord_rpc::keymap::KeyMap;
use bdo_discord_rpc::log_tail::GameState;
use bdo_discord_rpc::phase::Phase;
use bdo_discord_rpc::presence::{build, context, expand, is_button_url, is_placeholder, Context};
use bdo_discord_rpc::profile::{Character, Profile};

fn empty_context() -> Context {
    Context {
        family: String::new(),
        region: String::new(),
        server: String::new(),
        phase: String::new(),
        character: String::new(),
        class: String::new(),
        level: String::new(),
        class_image: String::new(),
        main_character: String::new(),
        main_class: String::new(),
        main_level: String::new(),
        main_class_image: String::new(),
        guild: String::new(),
        gear_score: String::new(),
        energy: String::new(),
        contribution: String::new(),
        profile_url: String::new(),
    }
}

fn profile() -> Profile {
    Profile {
        family: Some("Kuro".to_string()),
        guild: Some("Lanterns".to_string()),
        gear_score: None,
        energy: None,
        contribution: None,
        created: None,
        life_skills: KeyMap::new(),
        characters: vec![
            Character { name: "Alt".to_string(), class: "Witch".to_string(), level: Some(56), is_main: false, class_image: None },
            Character { name: "Yuki".to_string(), class: "Deadeye".to_string(), level: Some(61), is_main: true, class_image: Some("https://img/yuki.png".to_string()) },
        ],
        url: Some("https://profile/kuro".to_string()),
        fetched_at: 0,
        hidden: false,
    }
}

#[test]
fn button_urls_are_http_and_short() {
    assert!(is_button_url("https://example.com"));
    assert!(is_button_url("http://example.com"));
    assert!(!is_button_url("ftp://example.com"));
    assert!(!is_button_url(&format!("https://{}", "a".repeat(520))));
}

#[test]
fn placeholders_are_known_by_name() {
    assert!(is_placeholder("family"));
    assert!(is_placeholder("main_class_image"));
    assert!(!is_placeholder("nope"));
    assert!(!is_placeholder(""));
}

#[test]
fn expand_fills_in_and_tidies() {
    let mut ctx = empty_context();
    ctx.family = "Kuro".to_string();
    assert_eq!(expand("{family} - {server}", &ctx), "Kuro");
    assert_eq!(expand("  {server} | {family}  ", &ctx), "Kuro");
    assert_eq!(expand("{unknown} stays", &ctx), "{unknown} stays");
    assert_eq!(expand("{family", &ctx), "{family");
    assert_eq!(expand(" - {server} : ", &ctx), "");
    assert_eq!(expand("a   b\tc", &ctx), "a b c");
}

#[test]
fn the_context_follows_the_settings() {
    let mut config = Config::default();
    config.servers.insert("gs1".to_string(), "Calpheon 1".to_string());
    let mut state = GameState::new();
    state.phase = Some(Phase::Play);
    state.game_server = Some("gs1".to_string());
    let p = profile();
    let ctx = context(&config, &state, Some("Kuro"), "Asia", None, Some(&p));
    assert_eq!(ctx.family, "Kuro");
    assert_eq!(ctx.region, "Asia");
    assert_eq!(ctx.server, "Calpheon 1");
    assert_eq!(ctx.phase, "play");
    assert_eq!(ctx.character, "Yuki");
    assert_eq!(ctx.class, "Deadeye");
    assert_eq!(ctx.level, "61");
    assert_eq!(ctx.guild, "Lanterns");
    assert_eq!(ctx.profile_url, "https://profile/kuro");

    config.characters.insert("123".to_string(), "Alt".to_string());
    let ctx = context(&config, &state, None, "Asia", Some("123"), Some(&p));
    assert_eq!(ctx.family, "Kuro");
    assert_eq!(ctx.character, "Alt");
    assert_eq!(ctx.class, "Witch");
    assert_eq!(ctx.level, "56");

    let ctx = context(&config, &state, None, "Asia", Some("999"), Some(&p));
    assert_eq!(ctx.character, "Unknown");
    assert_eq!(ctx.class, "Unknown");
    assert_eq!(ctx.main_character, "Yuki");
}

#[test]
fn hidden_choices_show_nothing() {
    let mut config = Config::default();
    config.identity.show_family = false;
    config.display.show_region = false;
    config.display.show_server = false;
    let mut state = GameState::new();
    state.game_server = Some("gs1".to_string());
    let ctx = context(&config, &state, Some("Kuro"), "Asia", None, None);
    assert_eq!(ctx.family, "");
    assert_eq!(ctx.region, "");
    assert_eq!(ctx.server, "");
    assert_eq!(ctx.phase, "");
}

#[test]
fn the_play_phase_shows_the_character() {
    let config = Config::default();
    let mut state = GameState::new();
    state.phase = Some(Phase::Play);
    state.session_start = Some(1000);
    state.phase_since = Some(2000);
    let p = profile();
    let ctx = context(&config, &state, Some("Kuro"), "Asia", None, Some(&p));
    let fields = build(&config, &state, &ctx).expect("shown");
    assert_eq!(fields.details.as_deref(), Some("Yuki"));
    assert_eq!(fields.state.as_deref(), Some("Kuro"));
    assert_eq!(fields.start, Some(1000));
    assert_eq!(fields.large_image.as_deref(), Some("https://img/yuki.png"));
    assert_eq!(fields.large_text.as_deref(), Some("Deadeye - Lv. 61"));
    assert_eq!(fields.small_text.as_deref(), Some("Asia"));
    assert_eq!(fields.buttons, vec![("Adventurer Profile".to_string(), "https://profile/kuro".to_string())]);
}

#[test]
fn a_missing_image_falls_back_to_the_game() {
    let config = Config::default();
    let mut state = GameState::new();
    state.phase = Some(Phase::Play);
    let ctx = context(&config, &state, Some("Kuro"), "Asia", None, None);
    let fields = build(&config, &state, &ctx).expect("shown");
    assert_eq!(fields.large_image.as_deref(), Some(config.display.game_icon.as_str()));
    assert_eq!(fields.large_text.as_deref(), Some("Black Desert"));
    assert!(fields.buttons.is_empty());
    assert_eq!(fields.details, None);
}

#[test]
fn nothing_shows_without_a_phase_or_when_switched_off() {
    let mut config = Config::default();
    let state = GameState::new();
    let ctx = empty_context();
    assert!(build(&config, &state, &ctx).is_none());
    let mut lobby = GameState::new();
    lobby.phase = Some(Phase::Lobby);
    assert!(build(&config, &lobby, &ctx).is_some());
    let mut off = config.phase(Phase::Lobby);
    off.report = false;
    config.phases.insert("lobby".to_string(), off);
    assert!(build(&config, &lobby, &ctx).is_none());
}

#[test]
fn expanding_again_changes_nothing() {
    let mut ctx = empty_context();
    ctx.family = "Kuro".to_string();
    ctx.server = "Calpheon 1".to_string();
    for template in ["{family} - {server}", "  {server} | {family}  ", " - {level} : ", "a   b\tc", "{family},, x"] {
        let once = expand(template, &ctx);
        assert!(!once.contains('{'));
        assert_eq!(expand(&once, &ctx), once);
    }
}
