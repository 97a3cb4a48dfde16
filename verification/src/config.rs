//! The settings file's contents: what is shown, how often, and the names
//! given to servers and characters.
use vstd::prelude::*;
use crate::keymap::{Duplicate, KeyMap};
use crate::phase::{Phase, all_phases, key_of};

verus! {

pub open spec fn default_client_id() -> Seq<char> {
    "1551141273551904848"@
}

pub open spec fn game_icon_url() -> Seq<char> {
    "https://cdn.patchbot.io/games/25/black-desert-online_1780346031_sm.webp"@
}

pub struct Identity {
    pub family_name: String,
    pub show_family: bool,
    pub show_character: bool,
    pub region_name: String,
}

pub struct Display {
    pub show_server: bool,
    pub show_region: bool,
    pub timer_mode: String,
    pub game_icon: String,
    pub unknown: String,
}

pub struct Theme {
    pub mode: String,
    pub accent: String,
    pub palette: String,
}

pub struct Paths {
    pub game_root: String,
    pub user_data_dir: String,
}

pub struct ProfileConfig {
    pub enabled: bool,
    pub url: String,
    pub refresh_minutes: u64,
    pub search_url: String,
}

/// What one phase shows: two lines of text, two images with their captions,
/// and up to two buttons. Each text is a template with `{placeholders}`.
pub struct PhaseConfig {
    pub details: String,
    pub state: String,
    pub large_image: String,
    pub large_text: String,
    pub small_image: String,
    pub small_text: String,
    pub button_label: String,
    pub button_url: String,
    pub second_button_label: String,
    pub second_button_url: String,
    pub report: bool,
}

pub struct Config {
    pub enabled: bool,
    pub language: String,
    pub client_id: String,
    pub debounce_seconds: u64,
    pub min_update_seconds: u64,
    pub poll_seconds: u64,
    pub prompt_unknown_server: bool,
    pub prompt_unknown_character: bool,
    pub identity: Identity,
    pub display: Display,
    pub theme: Theme,
    pub paths: Paths,
    pub profile: ProfileConfig,
    pub servers: KeyMap<String>,
    pub characters: KeyMap<String>,
    pub phases: KeyMap<PhaseConfig>,
}

pub struct IdentityView {
    pub family_name: Seq<char>,
    pub show_family: bool,
    pub show_character: bool,
    pub region_name: Seq<char>,
}

pub struct DisplayView {
    pub show_server: bool,
    pub show_region: bool,
    pub timer_mode: Seq<char>,
    pub game_icon: Seq<char>,
    pub unknown: Seq<char>,
}

pub struct ThemeView {
    pub mode: Seq<char>,
    pub accent: Seq<char>,
    pub palette: Seq<char>,
}

pub struct PathsView {
    pub game_root: Seq<char>,
    pub user_data_dir: Seq<char>,
}

pub struct ProfileConfigView {
    pub enabled: bool,
    pub url: Seq<char>,
    pub refresh_minutes: u64,
    pub search_url: Seq<char>,
}

pub struct PhaseConfigView {
    pub details: Seq<char>,
    pub state: Seq<char>,
    pub large_image: Seq<char>,
    pub large_text: Seq<char>,
    pub small_image: Seq<char>,
    pub small_text: Seq<char>,
    pub button_label: Seq<char>,
    pub button_url: Seq<char>,
    pub second_button_label: Seq<char>,
    pub second_button_url: Seq<char>,
    pub report: bool,
}

impl View for Identity {
    type V = IdentityView;

    open spec fn view(&self) -> IdentityView {
        IdentityView {
            family_name: self.family_name@,
            show_family: self.show_family,
            show_character: self.show_character,
            region_name: self.region_name@,
        }
    }
}

impl View for Display {
    type V = DisplayView;

    open spec fn view(&self) -> DisplayView {
        DisplayView {
            show_server: self.show_server,
            show_region: self.show_region,
            timer_mode: self.timer_mode@,
            game_icon: self.game_icon@,
            unknown: self.unknown@,
        }
    }
}

impl View for Theme {
    type V = ThemeView;

    open spec fn view(&self) -> ThemeView {
        ThemeView { mode: self.mode@, accent: self.accent@, palette: self.palette@ }
    }
}

impl View for Paths {
    type V = PathsView;

    open spec fn view(&self) -> PathsView {
        PathsView { game_root: self.game_root@, user_data_dir: self.user_data_dir@ }
    }
}

impl View for ProfileConfig {
    type V = ProfileConfigView;

    open spec fn view(&self) -> ProfileConfigView {
        ProfileConfigView {
            enabled: self.enabled,
            url: self.url@,
            refresh_minutes: self.refresh_minutes,
            search_url: self.search_url@,
        }
    }
}

impl View for PhaseConfig {
    type V = PhaseConfigView;

    open spec fn view(&self) -> PhaseConfigView {
        PhaseConfigView {
            details: self.details@,
            state: self.state@,
            large_image: self.large_image@,
            large_text: self.large_text@,
            small_image: self.small_image@,
            small_text: self.small_text@,
            button_label: self.button_label@,
            button_url: self.button_url@,
            second_button_label: self.second_button_label@,
            second_button_url: self.second_button_url@,
            report: self.report,
        }
    }
}

/// The names of a table, each key to its name's characters.
pub open spec fn names_view(m: KeyMap<String>) -> Map<Seq<char>, Seq<char>> {
    m@.map_values(|s: String| s@)
}

pub open spec fn phases_view(m: KeyMap<PhaseConfig>) -> Map<Seq<char>, PhaseConfigView> {
    m@.map_values(|p: PhaseConfig| p@)
}

impl Duplicate for PhaseConfig {
    fn duplicate(&self) -> (r: Self) {
        PhaseConfig {
            details: self.details.clone(),
            state: self.state.clone(),
            large_image: self.large_image.clone(),
            large_text: self.large_text.clone(),
            small_image: self.small_image.clone(),
            small_text: self.small_text.clone(),
            button_label: self.button_label.clone(),
            button_url: self.button_url.clone(),
            second_button_label: self.second_button_label.clone(),
            second_button_url: self.second_button_url.clone(),
            report: self.report,
        }
    }
}

impl Default for Identity {
    fn default() -> (r: Self)
        ensures
            r@ == (IdentityView {
                family_name: seq![],
                show_family: true,
                show_character: true,
                region_name: seq![],
            }),
    {
        Identity {
            family_name: String::new(),
            show_family: true,
            show_character: true,
            region_name: String::new(),
        }
    }
}

impl Default for Display {
    fn default() -> (r: Self)
        ensures
            r@ == (DisplayView {
                show_server: true,
                show_region: true,
                timer_mode: "session"@,
                game_icon: game_icon_url(),
                unknown: "Unknown"@,
            }),
    {
        Display {
            show_server: true,
            show_region: true,
            timer_mode: String::from_str("session"),
            game_icon: String::from_str(
                "https://cdn.patchbot.io/games/25/black-desert-online_1780346031_sm.webp",
            ),
            unknown: String::from_str("Unknown"),
        }
    }
}

impl Default for Theme {
    fn default() -> (r: Self)
        ensures
            r@ == (ThemeView { mode: "dark"@, accent: "F08080"@, palette: "tonal_spot"@ }),
    {
        Theme {
            mode: String::from_str("dark"),
            accent: String::from_str("F08080"),
            palette: String::from_str("tonal_spot"),
        }
    }
}

impl Default for Paths {
    fn default() -> (r: Self)
        ensures
            r@ == (PathsView { game_root: seq![], user_data_dir: seq![] }),
    {
        Paths { game_root: String::new(), user_data_dir: String::new() }
    }
}

impl Default for ProfileConfig {
    fn default() -> (r: Self)
        ensures
            r@ == (ProfileConfigView {
                enabled: true,
                url: seq![],
                refresh_minutes: 60,
                search_url: seq![],
            }),
    {
        ProfileConfig {
            enabled: true,
            url: String::new(),
            refresh_minutes: 60,
            search_url: String::new(),
        }
    }
}

/// A phase's settings before anything is set: no text, the Adventurer
/// Profile button, and reported.
pub open spec fn blank_phase_view() -> PhaseConfigView {
    PhaseConfigView {
        details: seq![],
        state: seq![],
        large_image: seq![],
        large_text: seq![],
        small_image: seq![],
        small_text: seq![],
        button_label: "Adventurer Profile"@,
        button_url: "{profile_url}"@,
        second_button_label: seq![],
        second_button_url: seq![],
        report: true,
    }
}

impl Default for PhaseConfig {
    fn default() -> (r: Self)
        ensures
            r@ == blank_phase_view(),
    {
        PhaseConfig {
            details: String::new(),
            state: String::new(),
            large_image: String::new(),
            large_text: String::new(),
            small_image: String::new(),
            small_text: String::new(),
            button_label: String::from_str("Adventurer Profile"),
            button_url: String::from_str("{profile_url}"),
            second_button_label: String::new(),
            second_button_url: String::new(),
            report: true,
        }
    }
}

/// What each phase shows out of the box: (details, state, large image,
/// large caption, small caption).
pub open spec fn phase_default_texts(phase: Phase) -> (Seq<char>, Seq<char>, Seq<char>, Seq<char>, Seq<char>) {
    match phase {
        Phase::Home => ("Starting up"@, "{family}"@, ""@, "{region}"@, ""@),
        Phase::Login => ("In the Main Menu"@, "{family}"@, ""@, "{region}"@, ""@),
        Phase::ServerSelect => ("Choosing a Server"@, "{family}"@, ""@, "{region}"@, ""@),
        Phase::CharacterCreate => ("Creating a Character"@, "{family}"@, ""@, "{region}"@, ""@),
        Phase::Lobby => ("Selecting a Character"@, "{family}"@, ""@, "{region}"@, ""@),
        Phase::Loading => ("Loading"@, "{family}"@, ""@, "{region}"@, ""@),
        Phase::Play => (
            "{character}"@,
            "{family}"@,
            "{class_image}"@,
            "{class} - Lv. {level}"@,
            "{region} - {server}"@,
        ),
    }
}

pub open spec fn phase_default_view(phase: Phase) -> PhaseConfigView {
    let t = phase_default_texts(phase);
    PhaseConfigView {
        details: t.0,
        state: t.1,
        large_image: t.2,
        large_text: t.3,
        small_text: t.4,
        ..blank_phase_view()
    }
}

/// The settings a phase has when the config names none for it.
pub fn phase_defaults(phase: Phase) -> (r: PhaseConfig)
    ensures
        r@ == phase_default_view(phase),
{
    let (details, state, large_image, large_text, small_text) = match phase {
        Phase::Home => ("Starting up", "{family}", "", "{region}", ""),
        Phase::Login => ("In the Main Menu", "{family}", "", "{region}", ""),
        Phase::ServerSelect => ("Choosing a Server", "{family}", "", "{region}", ""),
        Phase::CharacterCreate => ("Creating a Character", "{family}", "", "{region}", ""),
        Phase::Lobby => ("Selecting a Character", "{family}", "", "{region}", ""),
        Phase::Loading => ("Loading", "{family}", "", "{region}", ""),
        Phase::Play => (
            "{character}",
            "{family}",
            "{class_image}",
            "{class} - Lv. {level}",
            "{region} - {server}",
        ),
    };
    let base = PhaseConfig::default();
    PhaseConfig {
        details: String::from_str(details),
        state: String::from_str(state),
        large_image: String::from_str(large_image),
        large_text: String::from_str(large_text),
        small_text: String::from_str(small_text),
        ..base
    }
}

/// The phases map out of the box: every phase with its defaults.
pub open spec fn default_phases() -> Map<Seq<char>, PhaseConfigView> {
    Map::<Seq<char>, PhaseConfigView>::empty()
        .insert(key_of(Phase::Home), phase_default_view(Phase::Home))
        .insert(key_of(Phase::Login), phase_default_view(Phase::Login))
        .insert(key_of(Phase::ServerSelect), phase_default_view(Phase::ServerSelect))
        .insert(key_of(Phase::CharacterCreate), phase_default_view(Phase::CharacterCreate))
        .insert(key_of(Phase::Lobby), phase_default_view(Phase::Lobby))
        .insert(key_of(Phase::Loading), phase_default_view(Phase::Loading))
        .insert(key_of(Phase::Play), phase_default_view(Phase::Play))
}

pub open spec fn config_default_scalars(c: Config) -> bool {
    &&& c.enabled
    &&& c.language@ == "auto"@
    &&& c.client_id@ == default_client_id()
    &&& c.debounce_seconds == 4
    &&& c.min_update_seconds == 15
    &&& c.poll_seconds == 3
    &&& c.prompt_unknown_server
    &&& c.prompt_unknown_character
}

impl Default for Config {
    fn default() -> (r: Self)
        ensures
            config_default_scalars(r),
            r.identity@ == (IdentityView {
                family_name: seq![],
                show_family: true,
                show_character: true,
                region_name: seq![],
            }),
            r.display@ == (DisplayView {
                show_server: true,
                show_region: true,
                timer_mode: "session"@,
                game_icon: game_icon_url(),
                unknown: "Unknown"@,
            }),
            r.theme@ == (ThemeView { mode: "dark"@, accent: "F08080"@, palette: "tonal_spot"@ }),
            r.paths@ == (PathsView { game_root: seq![], user_data_dir: seq![] }),
            r.profile@ == (ProfileConfigView {
                enabled: true,
                url: seq![],
                refresh_minutes: 60,
                search_url: seq![],
            }),
            r.servers@ == Map::<Seq<char>, String>::empty(),
            r.characters@ == Map::<Seq<char>, String>::empty(),
            phases_view(r.phases) == default_phases(),
    {
        let mut phases: KeyMap<PhaseConfig> = KeyMap::new();
        phases.insert(String::from_str(Phase::Home.key()), phase_defaults(Phase::Home));
        phases.insert(String::from_str(Phase::Login.key()), phase_defaults(Phase::Login));
        phases.insert(String::from_str(Phase::ServerSelect.key()), phase_defaults(Phase::ServerSelect));
        phases.insert(String::from_str(Phase::CharacterCreate.key()), phase_defaults(Phase::CharacterCreate));
        phases.insert(String::from_str(Phase::Lobby.key()), phase_defaults(Phase::Lobby));
        phases.insert(String::from_str(Phase::Loading.key()), phase_defaults(Phase::Loading));
        phases.insert(String::from_str(Phase::Play.key()), phase_defaults(Phase::Play));
        assert(phases_view(phases) =~= default_phases());
        Config {
            enabled: true,
            language: String::from_str("auto"),
            client_id: String::from_str("1551141273551904848"),
            debounce_seconds: 4,
            min_update_seconds: 15,
            poll_seconds: 3,
            prompt_unknown_server: true,
            prompt_unknown_character: true,
            identity: Identity::default(),
            display: Display::default(),
            theme: Theme::default(),
            paths: Paths::default(),
            profile: ProfileConfig::default(),
            servers: KeyMap::new(),
            characters: KeyMap::new(),
            phases,
        }
    }
}

/// What a phase shows: its entry in the config, or its defaults.
pub open spec fn phase_view_of(c: Config, phase: Phase) -> PhaseConfigView {
    if c.phases@.contains_key(key_of(phase)) {
        c.phases@[key_of(phase)]@
    } else {
        phase_default_view(phase)
    }
}

/// A server key's name, or the key itself while it has none.
pub open spec fn server_name_of(c: Config, key: Seq<char>) -> Seq<char> {
    if c.servers@.contains_key(key) {
        c.servers@[key]@
    } else {
        key
    }
}

impl Config {
    /// What `phase` shows: its entry in the config, or its defaults.
    pub fn phase(&self, phase: Phase) -> (r: PhaseConfig)
        ensures
            r@ == phase_view_of(*self, phase),
    {
        match self.phases.get(phase.key()) {
            Some(found) => found.duplicate(),
            None => phase_defaults(phase),
        }
    }

    /// A server key's name, or the key itself while it has none.
    pub fn server_name(&self, key: &str) -> (r: String)
        ensures
            r@ == server_name_of(*self, key@),
    {
        match self.servers.get(key) {
            Some(name) => name.clone(),
            None => String::from_str(key),
        }
    }

    /// The settings as `load_or_create` hands them on: every phase present,
    /// and each interval inside its allowed range.
    pub fn normalize(&mut self)
        ensures
            final(self).debounce_seconds == if old(self).debounce_seconds < 120 { old(self).debounce_seconds } else { 120 },
            final(self).min_update_seconds == clamp(old(self).min_update_seconds, 5, 600),
            final(self).poll_seconds == clamp(old(self).poll_seconds, 1, 60),
            final(self).profile.refresh_minutes == clamp(old(self).profile.refresh_minutes, 15, 1440),
            forall|p: Phase| #[trigger] phase_view_of(*final(self), p) == phase_view_of(*old(self), p),
            forall|p: Phase| final(self).phases@.contains_key(#[trigger] key_of(p)),
            forall|k: Seq<char>| old(self).phases@.contains_key(k) ==> #[trigger] final(self).phases@.contains_key(k) && final(self).phases@[k] == old(self).phases@[k],
            final(self).phases@.dom() == old(self).phases@.dom().union(Set::new(|k: Seq<char>| exists|p: Phase| key_of(p) == k)),
            final(self).servers == old(self).servers,
            final(self).characters == old(self).characters,
            final(self).identity == old(self).identity,
            final(self).display == old(self).display,
            final(self).theme == old(self).theme,
            final(self).paths == old(self).paths,
            final(self).profile.enabled == old(self).profile.enabled,
            final(self).profile.url == old(self).profile.url,
            final(self).profile.search_url == old(self).profile.search_url,
            final(self).enabled == old(self).enabled,
            final(self).language == old(self).language,
            final(self).client_id == old(self).client_id,
            final(self).prompt_unknown_server == old(self).prompt_unknown_server,
            final(self).prompt_unknown_character == old(self).prompt_unknown_character,
            is_normal(*final(self)),
            is_normal(*old(self)) ==> {
                &&& final(self).phases@ == old(self).phases@
                &&& final(self).profile == old(self).profile
                &&& final(self).debounce_seconds == old(self).debounce_seconds
                &&& final(self).min_update_seconds == old(self).min_update_seconds
                &&& final(self).poll_seconds == old(self).poll_seconds
            },
    {
        let all = Phase::all();
        let mut i: usize = 0;
        while i < all.len()
            invariant
                i <= all@.len(),
                all@ == all_phases(),
                forall|p: Phase| #[trigger] phase_view_of(*self, p) == phase_view_of(*old(self), p),
                forall|j: int| 0 <= j < i ==> self.phases@.contains_key(key_of(#[trigger] all@[j])),
                forall|k: Seq<char>| old(self).phases@.contains_key(k) ==> #[trigger] self.phases@.contains_key(k) && self.phases@[k] == old(self).phases@[k],
                forall|k: Seq<char>| #[trigger] self.phases@.contains_key(k) ==> old(self).phases@.contains_key(k) || exists|p: Phase| key_of(p) == k,
                self.servers == old(self).servers,
                self.characters == old(self).characters,
                self.identity == old(self).identity,
                self.display == old(self).display,
                self.theme == old(self).theme,
                self.paths == old(self).paths,
                self.profile == old(self).profile,
                self.enabled == old(self).enabled,
                self.language == old(self).language,
                self.client_id == old(self).client_id,
                self.prompt_unknown_server == old(self).prompt_unknown_server,
                self.prompt_unknown_character == old(self).prompt_unknown_character,
                self.debounce_seconds == old(self).debounce_seconds,
                self.min_update_seconds == old(self).min_update_seconds,
                self.poll_seconds == old(self).poll_seconds,
            decreases all@.len() - i,
        {
            let p = all[i];
            if !self.phases.contains_key(p.key()) {
                let ghost before = *self;
                self.phases.insert(String::from_str(p.key()), phase_defaults(p));
                proof {
                    assert forall|q: Phase| #[trigger] phase_view_of(*self, q) == phase_view_of(before, q) by {
                        if q != p {
                            crate::phase::lemma_keys_distinct(q, p);
                        }
                    }
                    assert forall|k: Seq<char>| old(self).phases@.contains_key(k) implies #[trigger] self.phases@.contains_key(k) && self.phases@[k] == old(self).phases@[k] by {
                        assert(before.phases@.contains_key(k));
                    }
                    assert forall|k: Seq<char>| #[trigger] self.phases@.contains_key(k) implies old(self).phases@.contains_key(k) || exists|q: Phase| key_of(q) == k by {
                        if k != key_of(p) {
                            assert(before.phases@.contains_key(k));
                        }
                    }
                }
            }
            i += 1;
        }
        proof {
            assert forall|p: Phase| self.phases@.contains_key(#[trigger] key_of(p)) by {
                let j: int = match p {
                    Phase::Home => 0,
                    Phase::Login => 1,
                    Phase::ServerSelect => 2,
                    Phase::CharacterCreate => 3,
                    Phase::Lobby => 4,
                    Phase::Loading => 5,
                    Phase::Play => 6,
                };
                assert(all@[j] == p);
            }
            let target = old(self).phases@.dom().union(Set::new(|k: Seq<char>| exists|p: Phase| key_of(p) == k));
            assert forall|k: Seq<char>| #[trigger] self.phases@.dom().contains(k) == target.contains(k) by {
                if target.contains(k) && !old(self).phases@.contains_key(k) {
                    let p = choose|p: Phase| key_of(p) == k;
                    assert(self.phases@.contains_key(key_of(p)));
                }
            }
            assert(self.phases@.dom() =~= target);
        }
        let ghost settled = *self;
        self.debounce_seconds = if self.debounce_seconds < 120 { self.debounce_seconds } else { 120 };
        self.min_update_seconds = clamp_u64(self.min_update_seconds, 5, 600);
        self.poll_seconds = clamp_u64(self.poll_seconds, 1, 60);
        self.profile.refresh_minutes = clamp_u64(self.profile.refresh_minutes, 15, 1440);
        assert forall|p: Phase| #[trigger] phase_view_of(*self, p) == phase_view_of(*old(self), p) by {
            assert(phase_view_of(*self, p) == phase_view_of(settled, p));
        }
        proof {
            if is_normal(*old(self)) {
                let target = old(self).phases@.dom().union(Set::new(|k: Seq<char>| exists|p: Phase| key_of(p) == k));
                assert(target =~= old(self).phases@.dom());
                assert(self.phases@ =~= old(self).phases@);
            }
        }
    }
}

pub open spec fn clamp(v: u64, lo: u64, hi: u64) -> u64 {
    if v < lo { lo } else if v > hi { hi } else { v }
}

/// Whether a config is as `normalize` leaves it: its timings within their
/// bounds and every phase set.
pub open spec fn is_normal(c: Config) -> bool {
    &&& c.debounce_seconds <= 120
    &&& 5 <= c.min_update_seconds <= 600
    &&& 1 <= c.poll_seconds <= 60
    &&& 15 <= c.profile.refresh_minutes <= 1440
    &&& forall|p: Phase| c.phases@.contains_key(#[trigger] key_of(p))
}

/// `v.clamp(lo, hi)`.
pub fn clamp_u64(v: u64, lo: u64, hi: u64) -> (r: u64)
    requires
        lo <= hi,
    ensures
        r == clamp(v, lo, hi),
{
    if v < lo { lo } else if v > hi { hi } else { v }
}

/// The two tables of names the user gives: servers by key, characters by ID.
#[derive(Debug, Clone, Copy, PartialEq, Eq, Structural)]
pub enum Table {
    Servers,
    Characters,
}

pub open spec fn table_of(table: Table, c: Config) -> KeyMap<String> {
    match table {
        Table::Servers => c.servers,
        Table::Characters => c.characters,
    }
}

impl Table {
    /// The table's names in `config`.
    pub fn entries(self, config: &Config) -> (r: &KeyMap<String>)
        ensures
            *r == table_of(self, *config),
    {
        match self {
            Table::Servers => &config.servers,
            Table::Characters => &config.characters,
        }
    }

    /// The table's names in `config`, to change.
    pub fn entries_mut(self, config: &mut Config) -> (r: &mut KeyMap<String>)
        ensures
            *r == table_of(self, *old(config)),
            *final(config) == (match self {
                Table::Servers => Config { servers: *final(r), ..*old(config) },
                Table::Characters => Config { characters: *final(r), ..*old(config) },
            }),
    {
        match self {
            Table::Servers => &mut config.servers,
            Table::Characters => &mut config.characters,
        }
    }

    /// What one entry of the table is called.
    pub fn noun(self) -> (r: &'static str)
        ensures
            r@ == match self {
                Table::Servers => "Server"@,
                Table::Characters => "Character"@,
            },
    {
        match self {
            Table::Servers => "Server",
            Table::Characters => "Character",
        }
    }
}


/// Clamping twice is clamping once, so settings read back unchanged.
pub proof fn lemma_clamp_idempotent(v: u64, lo: u64, hi: u64)
    requires
        lo <= hi,
    ensures
        clamp(clamp(v, lo, hi), lo, hi) == clamp(v, lo, hi),
        lo <= clamp(v, lo, hi) <= hi,
{
}

/// Clamping gives the value in the range nearest the one given: a value in
/// the range is kept, and no value in the range is closer. So it never moves
/// a larger value below a smaller one.
pub proof fn lemma_clamp_nearest(v: u64, lo: u64, hi: u64, x: u64, w: u64)
    requires
        lo <= hi,
    ensures
        lo <= clamp(v, lo, hi) <= hi,
        lo <= v <= hi ==> clamp(v, lo, hi) == v,
        lo <= x <= hi ==> {
            let c = clamp(v, lo, hi) as int;
            let d = if c >= v { c - v } else { v - c };
            let e = if x >= v { x - v } else { v - x };
            d <= e
        },
        v <= w ==> clamp(v, lo, hi) <= clamp(w, lo, hi),
{
}

/// A server given a name shows by that name.
pub proof fn lemma_named_server_shows(c: Config, key: Seq<char>, name: Seq<char>)
    requires
        names_view(c.servers).contains_key(key),
        names_view(c.servers)[key] == name,
    ensures
        server_name_of(c, key) == name,
{
}

} // verus!
