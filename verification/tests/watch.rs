use bdo_discord_rpc::config::{Config, Table};
use bdo_discord_rpc::keymap::KeyMap;
use bdo_discord_rpc::log_tail::GameState;
use bdo_discord_rpc::phase::Phase;
use bdo_discord_rpc::presence::PresenceFields;
use bdo_discord_rpc::profile::{Character, Profile};
use bdo_discord_rpc::region::{Region, Regions};
use bdo_discord_rpc::watch::{
    family_check_due, gate, non_empty, overview, past_read_window, play_started_at, profile_fresh,
    profile_target, prompt_args, push_due, reload_due, resolve_region, same_presence, search_url,
    should_ask, status_line, summarize, unmatched_character, Backoff, CharacterRead, Gate,
    GameView, ProfileTarget, Session, cycle_health, profile_wanted, record_fetch, record_push, Fetch,
};
use bdo_discord_rpc::tray::Health;

const SEC: u64 = 1_000_000_000;

fn regions() -> Regions {
    let mut r = Regions::new();
    r.table.insert(
        "SEA".to_string(),
        Region { name: "Asia".to_string(), search: "https://sea/search?k={family}".to_string(), servers: vec!["Velia".to_string(), "Heidel".to_string()] },
    );
    r.table.insert(
        "NA".to_string(),
        Region { name: "North America".to_string(), search: String::new(), servers: vec!["Heidel".to_string(), "Olvia".to_string()] },
    );
    r
}

fn profile(names: &[&str]) -> Profile {
    Profile {
        family: None, guild: None, gear_score: None, energy: Some("300".to_string()), contribution: None,
        created: None, life_skills: KeyMap::new(),
        characters: names.iter().map(|n| Character { name: n.to_string(), class: "Witch".to_string(), level: Some(60), is_main: false, class_image: None }).collect(),
        url: Some("https://p/cached".to_string()), fetched_at: 1000, hidden: false,
    }
}

#[test]
fn failures_double_the_wait_up_to_the_most() {
    let mut b = Backoff::new(5, 60, 0);
    assert!(b.due(0));
    assert_eq!(b.failed(0), 5);
    assert!(!b.due(4 * SEC));
    assert!(b.due(5 * SEC));
    assert_eq!(b.failed(5 * SEC), 10);
    assert_eq!(b.failed(15 * SEC), 20);
    assert_eq!(b.failed(35 * SEC), 40);
    assert_eq!(b.failed(75 * SEC), 60);
    assert_eq!(b.failed(135 * SEC), 60);
    b.succeeded();
    assert_eq!(b.failed(200 * SEC), 5);
}

#[test]
fn the_first_phase_settles_at_once_and_later_ones_wait() {
    let mut s = Session::new(0);
    s.state.phase = Some(Phase::Lobby);
    s.state.session_start = Some(7);
    let settled = s.debounce(0, 10);
    assert!(settled.phase_changed);
    assert_eq!(s.stable.phase, Some(Phase::Lobby));
    assert_eq!(s.stable.session_start, Some(7));

    s.state.phase = Some(Phase::Play);
    s.state.game_server = Some("gs1".to_string());
    let settled = s.debounce(SEC, 10);
    assert!(!settled.phase_changed);
    assert_eq!(s.stable.phase, Some(Phase::Lobby));
    let settled = s.debounce(11 * SEC, 10);
    assert!(settled.phase_changed);
    assert!(settled.server_changed);
    assert_eq!(s.stable.phase, Some(Phase::Play));
    assert_eq!(s.stable.game_server.as_deref(), Some("gs1"));

    let mut quick = Session::new(0);
    quick.state.phase = Some(Phase::Home);
    quick.debounce(0, 0);
    quick.state.phase = Some(Phase::Login);
    quick.debounce(0, 0);
    assert_eq!(quick.stable.phase, Some(Phase::Login));
}

#[test]
fn the_character_is_read_once_per_stay() {
    let mut s = Session::new(0);
    assert_eq!(s.character_wanted(true), None);
    s.state.phase = Some(Phase::Play);
    s.state.phase_since = Some(100);
    assert_eq!(s.character_wanted(false), None);
    assert_eq!(s.character_wanted(true), Some(100 * SEC as i128));
    assert!(matches!(s.character_read(Some("123".to_string()), 100 * SEC as i128, 101 * SEC as i128), CharacterRead::Found { changed: true }));
    assert_eq!(s.character.as_deref(), Some("123"));
    assert_eq!(s.character_wanted(true), None);

    let mut t = Session::new(0);
    t.state.phase = Some(Phase::Play);
    t.state.phase_since = Some(100);
    assert!(matches!(t.character_read(None, 100 * SEC as i128, 105 * SEC as i128), CharacterRead::Pending));
    assert!(matches!(t.character_read(None, 100 * SEC as i128, 116 * SEC as i128), CharacterRead::Missed));
    assert!(matches!(t.character_read(None, 100 * SEC as i128, 120 * SEC as i128), CharacterRead::Pending));
}

#[test]
fn times_of_play() {
    let mut state = GameState::new();
    state.phase_since = Some(5);
    assert_eq!(play_started_at(&state), None);
    state.phase = Some(Phase::Play);
    assert_eq!(play_started_at(&state), Some(5_000_000_000));
    state.phase_since = Some(-1);
    assert_eq!(play_started_at(&state), None);
    assert!(!past_read_window(0, 15 * SEC as i128));
    assert!(past_read_window(0, 15 * SEC as i128 + 1));
    assert!(!past_read_window(10, 0));
}

#[test]
fn a_key_is_asked_about_once() {
    let mut config = Config::default();
    config.servers.insert("gs1".to_string(), "Velia 1".to_string());
    let mut prompted = KeyMap::new();
    assert!(!should_ask(&config, Table::Servers, "gs1", &mut prompted));
    assert!(should_ask(&config, Table::Servers, "gs2", &mut prompted));
    assert!(!should_ask(&config, Table::Servers, "gs2", &mut prompted));
    assert!(should_ask(&config, Table::Characters, "77", &mut prompted));
    let args = prompt_args(Table::Characters, "77", Some("SEA"));
    assert_eq!(args, vec!["--name-character".to_string(), "77".to_string(), "SEA".to_string()]);
    assert_eq!(prompt_args(Table::Servers, "gs2", None).len(), 2);
}

#[test]
fn unlisted_names_are_noticed() {
    let mut config = Config::default();
    config.characters.insert("123".to_string(), "Yuki".to_string());
    let key = Some("123".to_string());
    assert_eq!(unmatched_character(&config, &key, &Some(profile(&["Alt"]))).as_deref(), Some("Yuki"));
    assert_eq!(unmatched_character(&config, &key, &Some(profile(&["Yuki"]))), None);
    assert_eq!(unmatched_character(&config, &key, &Some(profile(&[]))), None);
    assert_eq!(unmatched_character(&config, &key, &None), None);
    config.identity.show_character = false;
    assert_eq!(unmatched_character(&config, &key, &Some(profile(&["Alt"]))), None);
}

#[test]
fn the_status_line_joins_what_is_known() {
    let mut config = Config::default();
    config.servers.insert("gs1".to_string(), "Velia 1".to_string());
    let mut stable = GameState::new();
    stable.game_server = Some("gs1".to_string());
    let line = status_line(&config, "In Game", &stable, &Some("Kuro".to_string()), &None, &Some(profile(&["Yuki"])));
    assert_eq!(line, "In Game  ·  Velia 1  ·  Kuro  ·  Yuki");
    let line = status_line(&config, "Loading", &GameState::new(), &None, &Some("999".to_string()), &None);
    assert_eq!(line, "Loading  ·  Unknown");
}

#[test]
fn presences_are_compared_and_summarized() {
    let a = PresenceFields {
        details: Some("Yuki".to_string()), state: Some("Kuro".to_string()), start: Some(1),
        large_image: None, large_text: None, small_image: None, small_text: None,
        buttons: vec![("Profile".to_string(), "https://p".to_string())],
    };
    let b = PresenceFields { buttons: vec![("Profile".to_string(), "https://q".to_string())], ..PresenceFields { details: Some("Yuki".to_string()), state: Some("Kuro".to_string()), start: Some(1), large_image: None, large_text: None, small_image: None, small_text: None, buttons: vec![] } };
    assert!(same_presence(&Some(PresenceFields { buttons: a.buttons.clone(), details: a.details.clone(), state: a.state.clone(), ..b }), &Some(a)));
    assert!(same_presence(&None, &None));
    let c = PresenceFields { details: Some("Yuki".to_string()), state: None, start: None, large_image: None, large_text: None, small_image: None, small_text: None, buttons: vec![] };
    assert_eq!(summarize(&Some(c)), "Yuki");
    let d = PresenceFields { details: Some("Yuki".to_string()), state: Some("Kuro".to_string()), start: None, large_image: None, large_text: None, small_image: None, small_text: None, buttons: vec![] };
    assert!(!same_presence(&Some(d), &None));
    let e = PresenceFields { details: None, state: Some("Kuro".to_string()), start: None, large_image: None, large_text: None, small_image: None, small_text: None, buttons: vec![] };
    assert_eq!(summarize(&Some(e)), " | Kuro");
    assert_eq!(summarize(&None), "Cleared");
}

#[test]
fn the_profile_comes_from_the_best_known_page() {
    let mut config = Config::default();
    let r = regions();
    let mut url = None;
    assert!(matches!(profile_target(&config, &r, None, None, &mut url, &None), ProfileTarget::Skip));
    match profile_target(&config, &r, Some("Kuro"), Some("sea"), &mut url, &None) {
        ProfileTarget::Search { search, family } => {
            assert_eq!(search, "https://sea/search?k={family}");
            assert_eq!(family, "Kuro");
        },
        _ => panic!("a search"),
    }
    assert_eq!(url, None);
    assert!(matches!(profile_target(&config, &r, Some("Kuro"), Some("NA"), &mut url, &None), ProfileTarget::Skip));
    match profile_target(&config, &r, Some("Kuro"), None, &mut url, &Some(profile(&[]))) {
        ProfileTarget::Page(p) => assert_eq!(p, "https://p/cached"),
        _ => panic!("the cached page"),
    }
    assert_eq!(url.as_deref(), Some("https://p/cached"));
    config.profile.url = "https://p/mine".to_string();
    match profile_target(&config, &r, None, None, &mut url, &None) {
        ProfileTarget::Page(p) => assert_eq!(p, "https://p/cached"),
        _ => panic!("the page found before"),
    }
    assert!(profile_fresh(&config, &Some(profile(&[])), 1000 + 3599));
    assert!(!profile_fresh(&config, &Some(profile(&[])), 1000 + 3600));
    assert!(!profile_fresh(&config, &None, 0));
}

#[test]
fn regions_and_searches_resolve() {
    let mut config = Config::default();
    let r = regions();
    assert_eq!(resolve_region(&config, &r, Some(" sea ")).as_deref(), Some("Asia"));
    assert_eq!(resolve_region(&config, &r, Some("XX")).as_deref(), Some("XX"));
    assert_eq!(resolve_region(&config, &r, None), None);
    config.identity.region_name = "Home".to_string();
    assert_eq!(resolve_region(&config, &r, Some("SEA")).as_deref(), Some("Home"));
    assert_eq!(search_url(&config, &r, Some("SEA")), "https://sea/search?k={family}");
    assert_eq!(search_url(&config, &r, Some("XX")), "");
    config.profile.search_url = "https://mine".to_string();
    assert_eq!(search_url(&config, &r, Some("SEA")), "https://mine");
    assert_eq!(non_empty("  "), None);
    assert_eq!(non_empty(" x ").as_deref(), Some(" x "));
}

#[test]
fn the_cycle_decides_what_runs() {
    assert!(matches!(gate(false, true, false), (Gate::ConfigError, false)));
    assert!(matches!(gate(true, false, false), (Gate::Disabled { just_now: true }, true)));
    assert!(matches!(gate(true, false, true), (Gate::Disabled { just_now: false }, true)));
    assert!(matches!(gate(true, true, true), (Gate::Running { again: true }, false)));
    assert!(reload_due(true, None, None));
    assert!(reload_due(false, Some(2), Some(1)));
    assert!(!reload_due(false, Some(1), Some(1)));
    assert!(!reload_due(false, None, Some(1)));
    assert!(push_due(None, 0, 15));
    assert!(!push_due(Some(0), 14 * SEC, 15));
    assert!(push_due(Some(0), 15 * SEC, 15));
    assert!(family_check_due(false, true, None, 0));
    assert!(!family_check_due(true, true, None, 0));
    assert!(!family_check_due(false, true, Some(0), 29 * SEC));
    assert!(family_check_due(false, true, Some(0), 30 * SEC));
}

#[test]
fn the_overview_gathers_the_session() {
    let mut config = Config::default();
    config.characters.insert("123".to_string(), "Yuki".to_string());
    let r = regions();
    let game = Some(GameView { root: "C:/Game".to_string(), service: Some("SEA".to_string()), log_file: Some("Client_1.json".to_string()) });
    let mut session = Session::new(0);
    session.character = Some("123".to_string());
    session.stable.game_server = Some("gs1".to_string());
    let mut p = profile(&["Yuki"]);
    p.life_skills.insert("Fishing".to_string(), "Guru 1".to_string());
    let o = overview(&config, &r, &game, &session, &Some("Kuro".to_string()), &None, &Some(p));
    assert_eq!(o.folder.as_deref(), Some("C:/Game"));
    assert_eq!(o.region.as_deref(), Some("Asia"));
    assert_eq!(o.log_file.as_deref(), Some("Client_1.json"));
    let (key, name) = o.server.expect("a server");
    assert_eq!(key, "gs1");
    assert_eq!(name, None);
    let row = o.character.expect("a character");
    assert_eq!(row.name.as_deref(), Some("Yuki"));
    assert!(!row.not_on_profile);
    assert_eq!(row.entry.expect("listed").class, "Witch");
    assert_eq!(o.main_energy.as_deref(), Some("300"));
    assert_eq!(o.fetched_at, Some(1000));
    assert_eq!(o.life_skills.len(), 11);
    assert_eq!(o.life_skills[1].as_deref(), Some("Guru 1"));
    assert_eq!(o.life_skills[0], None);
}

#[test]
fn a_cycle_ends_in_the_health_it_reached() {
    assert_eq!(cycle_health(&Gate::ConfigError, true, true), Health::Waiting);
    assert_eq!(cycle_health(&Gate::Disabled { just_now: false }, true, true), Health::Idle);
    assert_eq!(cycle_health(&Gate::Running { again: false }, false, true), Health::Idle);
    assert_eq!(cycle_health(&Gate::Running { again: true }, true, false), Health::Waiting);
    assert_eq!(cycle_health(&Gate::Running { again: false }, true, true), Health::Live);
}

#[test]
fn fetch_outcomes_move_the_retry_schedule() {
    let mut b = Backoff::new(5, 60, 0);
    assert_eq!(record_fetch(&mut b, Fetch::Skipped, 0), None);
    assert!(b.due(0));
    assert_eq!(record_fetch(&mut b, Fetch::Failed, 0), Some(5));
    assert!(!b.due(4 * SEC));
    assert_eq!(record_fetch(&mut b, Fetch::Failed, 5 * SEC), Some(10));
    assert_eq!(record_fetch(&mut b, Fetch::Fetched, 15 * SEC), None);
    assert_eq!(record_fetch(&mut b, Fetch::Failed, 15 * SEC), Some(5));
}

#[test]
fn a_push_is_remembered_only_when_taken() {
    let mut sent = None;
    let mut at = Some(3);
    let mut b = Backoff::new(5, 60, 0);
    record_push(&mut sent, &mut at, &mut b, None, true, 7);
    assert_eq!(at, Some(7));
    record_push(&mut sent, &mut at, &mut b, None, false, 9 * SEC);
    assert_eq!(at, Some(7));
    assert!(sent.is_none());
    assert!(!b.due(13 * SEC));
    assert!(b.due(14 * SEC));
}

#[test]
fn a_switched_off_profile_is_dropped() {
    let mut config = Config::default();
    let mut held = Some(profile(&["Yuki"]));
    assert!(profile_wanted(&config, &mut held));
    assert!(held.is_some());
    config.profile.enabled = false;
    assert!(!profile_wanted(&config, &mut held));
    assert!(held.is_none());
}
