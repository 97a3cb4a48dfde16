//! The settings window's logic: which page has unsaved changes, the phase
//! fields and how each is checked, the first problem that blocks saving,
//! and the edits the window makes to the config.
use vstd::prelude::*;
use crate::check::{self, Problem, ProblemView, opt_problem};
use crate::config::{
    Config, Display, Identity, Paths, PhaseConfig, PhaseConfigView, ProfileConfig, Table, Theme,
    names_view, phase_view_of, table_of,
};
use crate::keymap::{KeyMap, key_in, text_eq};
use crate::phase::{Phase, all_phases, key_of, label_of};
use crate::text::{blank, concat, find_char, find_char_from, is_blank, push_text, string_of_range, chars_of, trim, trimmed};

verus! {

// ---------------------------------------------------------------------------
// Comparing settings.
// ---------------------------------------------------------------------------

/// Whether the `i`th entries of two tables of names are the same.
pub open spec fn same_name_at(a: KeyMap<String>, b: KeyMap<String>, i: int) -> bool {
    key_in(a.items(), i) == key_in(b.items(), i) && a.items()[i].1@ == b.items()[i].1@
}

/// Whether the `i`th entries of two tables of phases are the same.
pub open spec fn same_phase_at(a: KeyMap<PhaseConfig>, b: KeyMap<PhaseConfig>, i: int) -> bool {
    key_in(a.items(), i) == key_in(b.items(), i) && a.items()[i].1@ == b.items()[i].1@
}

/// Whether two tables of names hold the same entries, in order.
pub open spec fn same_names(a: KeyMap<String>, b: KeyMap<String>) -> bool {
    &&& a.items().len() == b.items().len()
    &&& forall|i: int| 0 <= i < a.items().len() ==> #[trigger] same_name_at(a, b, i)
}

/// Whether two tables of phases hold the same entries, in order.
pub open spec fn same_phases(a: KeyMap<PhaseConfig>, b: KeyMap<PhaseConfig>) -> bool {
    &&& a.items().len() == b.items().len()
    &&& forall|i: int| 0 <= i < a.items().len() ==> #[trigger] same_phase_at(a, b, i)
}

fn same_string(a: &String, b: &String) -> (r: bool)
    ensures
        r == (a@ == b@),
{
    text_eq(a.as_str(), b.as_str())
}

pub fn same_identity(a: &Identity, b: &Identity) -> (r: bool)
    ensures
        r == (a@ == b@),
{
    same_string(&a.family_name, &b.family_name) && a.show_family == b.show_family
        && a.show_character == b.show_character && same_string(&a.region_name, &b.region_name)
}

pub fn same_display(a: &Display, b: &Display) -> (r: bool)
    ensures
        r == (a@ == b@),
{
    a.show_server == b.show_server && a.show_region == b.show_region && same_string(
        &a.timer_mode,
        &b.timer_mode,
    ) && same_string(&a.game_icon, &b.game_icon) && same_string(&a.unknown, &b.unknown)
}

pub fn same_theme(a: &Theme, b: &Theme) -> (r: bool)
    ensures
        r == (a@ == b@),
{
    same_string(&a.mode, &b.mode) && same_string(&a.accent, &b.accent) && same_string(
        &a.palette,
        &b.palette,
    )
}

pub fn same_paths(a: &Paths, b: &Paths) -> (r: bool)
    ensures
        r == (a@ == b@),
{
    same_string(&a.game_root, &b.game_root) && same_string(&a.user_data_dir, &b.user_data_dir)
}

pub fn same_profile(a: &ProfileConfig, b: &ProfileConfig) -> (r: bool)
    ensures
        r == (a@ == b@),
{
    a.enabled == b.enabled && same_string(&a.url, &b.url) && a.refresh_minutes
        == b.refresh_minutes && same_string(&a.search_url, &b.search_url)
}

pub fn same_phase_config(a: &PhaseConfig, b: &PhaseConfig) -> (r: bool)
    ensures
        r == (a@ == b@),
{
    same_string(&a.details, &b.details) && same_string(&a.state, &b.state) && same_string(
        &a.large_image,
        &b.large_image,
    ) && same_string(&a.large_text, &b.large_text) && same_string(
        &a.small_image,
        &b.small_image,
    ) && same_string(&a.small_text, &b.small_text) && same_string(
        &a.button_label,
        &b.button_label,
    ) && same_string(&a.button_url, &b.button_url) && same_string(
        &a.second_button_label,
        &b.second_button_label,
    ) && same_string(&a.second_button_url, &b.second_button_url) && a.report == b.report
}

pub fn same_name_table(a: &KeyMap<String>, b: &KeyMap<String>) -> (r: bool)
    ensures
        r == same_names(*a, *b),
{
    if a.len() != b.len() {
        return false;
    }
    let n = a.len();
    let mut i: usize = 0;
    while i < n
        invariant
            i <= n == a.items().len() == b.items().len(),
            forall|j: int| 0 <= j < i ==> #[trigger] same_name_at(*a, *b, j),
        decreases n - i,
    {
        let same_key = same_string(a.key_at(i), b.key_at(i));
        let same_value = same_string(a.value_at(i), b.value_at(i));
        assert(same_key == (key_in(a.items(), i as int) == key_in(b.items(), i as int)));
        assert(same_value == (a.items()[i as int].1@ == b.items()[i as int].1@));
        if !same_key || !same_value {
            assert(!same_name_at(*a, *b, i as int));
            return false;
        }
        i += 1;
    }
    true
}

pub fn same_phase_table(a: &KeyMap<PhaseConfig>, b: &KeyMap<PhaseConfig>) -> (r: bool)
    ensures
        r == same_phases(*a, *b),
{
    if a.len() != b.len() {
        return false;
    }
    let n = a.len();
    let mut i: usize = 0;
    while i < n
        invariant
            i <= n == a.items().len() == b.items().len(),
            forall|j: int| 0 <= j < i ==> #[trigger] same_phase_at(*a, *b, j),
        decreases n - i,
    {
        let same_key = same_string(a.key_at(i), b.key_at(i));
        let same_value = same_phase_config(a.value_at(i), b.value_at(i));
        assert(same_key == (key_in(a.items(), i as int) == key_in(b.items(), i as int)));
        assert(same_value == (a.items()[i as int].1@ == b.items()[i as int].1@));
        if !same_key || !same_value {
            assert(!same_phase_at(*a, *b, i as int));
            return false;
        }
        i += 1;
    }
    true
}

/// Whether the General page's settings differ.
pub open spec fn general_differs(c: Config, s: Config) -> bool {
    c.enabled != s.enabled || c.client_id@ != s.client_id@ || c.debounce_seconds
        != s.debounce_seconds || c.min_update_seconds != s.min_update_seconds || c.poll_seconds
        != s.poll_seconds || c.prompt_unknown_server != s.prompt_unknown_server
        || c.prompt_unknown_character != s.prompt_unknown_character
}

/// Whether two configs differ anywhere.
pub open spec fn config_differs(c: Config, s: Config) -> bool {
    general_differs(c, s) || c.language@ != s.language@ || c.identity@ != s.identity@
        || c.display@ != s.display@ || c.theme@ != s.theme@ || c.paths@ != s.paths@
        || c.profile@ != s.profile@ || !same_names(c.servers, s.servers) || !same_names(
        c.characters,
        s.characters,
    ) || !same_phases(c.phases, s.phases)
}

fn general_changed(c: &Config, s: &Config) -> (r: bool)
    ensures
        r == general_differs(*c, *s),
{
    c.enabled != s.enabled || !same_string(&c.client_id, &s.client_id) || c.debounce_seconds
        != s.debounce_seconds || c.min_update_seconds != s.min_update_seconds || c.poll_seconds
        != s.poll_seconds || c.prompt_unknown_server != s.prompt_unknown_server
        || c.prompt_unknown_character != s.prompt_unknown_character
}

/// Whether the config being edited differs from the one saved.
pub fn config_changed(c: &Config, s: &Config) -> (r: bool)
    ensures
        r == config_differs(*c, *s),
{
    general_changed(c, s) || !same_string(&c.language, &s.language) || !same_identity(
        &c.identity,
        &s.identity,
    ) || !same_display(&c.display, &s.display) || !same_theme(&c.theme, &s.theme) || !same_paths(
        &c.paths,
        &s.paths,
    ) || !same_profile(&c.profile, &s.profile) || !same_name_table(&c.servers, &s.servers)
        || !same_name_table(&c.characters, &s.characters) || !same_phase_table(
        &c.phases,
        &s.phases,
    )
}

/// Whether the window holds changes not saved: there is no saved config to
/// compare with, or the configs differ.
pub fn dirty(config: &Config, saved: &Config, no_baseline: bool) -> (r: bool)
    ensures
        r == (no_baseline || config_differs(*config, *saved)),
{
    no_baseline || config_changed(config, saved)
}

/// A separate config with every setting of `c`.
fn copy_config(c: &Config) -> (r: Config)
    ensures
        !config_differs(r, *c),
{
    let servers = c.servers.duplicate();
    let characters = c.characters.duplicate();
    let phases = c.phases.duplicate();
    let r = Config {
        enabled: c.enabled,
        language: c.language.clone(),
        client_id: c.client_id.clone(),
        debounce_seconds: c.debounce_seconds,
        min_update_seconds: c.min_update_seconds,
        poll_seconds: c.poll_seconds,
        prompt_unknown_server: c.prompt_unknown_server,
        prompt_unknown_character: c.prompt_unknown_character,
        identity: Identity {
            family_name: c.identity.family_name.clone(),
            show_family: c.identity.show_family,
            show_character: c.identity.show_character,
            region_name: c.identity.region_name.clone(),
        },
        display: Display {
            show_server: c.display.show_server,
            show_region: c.display.show_region,
            timer_mode: c.display.timer_mode.clone(),
            game_icon: c.display.game_icon.clone(),
            unknown: c.display.unknown.clone(),
        },
        theme: Theme {
            mode: c.theme.mode.clone(),
            accent: c.theme.accent.clone(),
            palette: c.theme.palette.clone(),
        },
        paths: Paths { game_root: c.paths.game_root.clone(), user_data_dir: c.paths.user_data_dir.clone() },
        profile: ProfileConfig {
            enabled: c.profile.enabled,
            url: c.profile.url.clone(),
            refresh_minutes: c.profile.refresh_minutes,
            search_url: c.profile.search_url.clone(),
        },
        servers,
        characters,
        phases,
    };
    assert(same_names(r.servers, c.servers));
    assert(same_names(r.characters, c.characters));
    assert(same_phases(r.phases, c.phases));
    r
}

/// Drops the edits: the config being edited becomes the saved one again, in
/// every setting.
pub fn discard(config: &mut Config, saved: &Config)
    ensures
        !config_differs(*final(config), *saved),
{
    *config = copy_config(saved);
}

// ---------------------------------------------------------------------------
// Pages.
// ---------------------------------------------------------------------------

/// The settings window's pages.
#[derive(Debug, Clone, Copy, PartialEq, Eq, Structural)]
pub enum Page {
    Overview,
    General,
    Identity,
    Display,
    Theme,
    Profile,
    Paths,
    Servers,
    Characters,
    Phases,
    Log,
    About,
}

/// The pages, in the order the rail lists them.
pub open spec fn all_pages() -> Seq<Page> {
    seq![
        Page::Overview,
        Page::General,
        Page::Identity,
        Page::Display,
        Page::Theme,
        Page::Profile,
        Page::Paths,
        Page::Servers,
        Page::Characters,
        Page::Phases,
        Page::Log,
        Page::About,
    ]
}

/// Whether a page shows unsaved changes: pages that edit nothing never do;
/// without a saved config to compare with, every other page does; else a
/// page does when one of its settings differs.
pub open spec fn page_dirty(page: Page, c: Config, s: Config, no_baseline: bool) -> bool {
    match page {
        Page::Overview | Page::Log | Page::About => false,
        _ => no_baseline || match page {
            Page::General => general_differs(c, s),
            Page::Identity => c.identity@ != s.identity@,
            Page::Display => c.display@ != s.display@,
            Page::Theme => c.theme@ != s.theme@,
            Page::Profile => c.profile@ != s.profile@,
            Page::Paths => c.paths@ != s.paths@,
            Page::Servers => !same_names(c.servers, s.servers),
            Page::Characters => !same_names(c.characters, s.characters),
            _ => !same_phases(c.phases, s.phases),
        },
    }
}

impl Page {
    /// The pages, in the order the rail lists them.
    pub fn all() -> (r: Vec<Page>)
        ensures
            r@ == all_pages(),
    {
        let r = vec![
            Page::Overview,
            Page::General,
            Page::Identity,
            Page::Display,
            Page::Theme,
            Page::Profile,
            Page::Paths,
            Page::Servers,
            Page::Characters,
            Page::Phases,
            Page::Log,
            Page::About,
        ];
        assert(r@ == all_pages());
        r
    }

    /// Whether the page shows unsaved changes.
    pub fn dirty(self, config: &Config, saved: &Config, no_baseline: bool) -> (r: bool)
        ensures
            r == page_dirty(self, *config, *saved, no_baseline),
    {
        match self {
            Page::Overview | Page::Log | Page::About => false,
            _ => no_baseline || match self {
                Page::General => general_changed(config, saved),
                Page::Identity => !same_identity(&config.identity, &saved.identity),
                Page::Display => !same_display(&config.display, &saved.display),
                Page::Theme => !same_theme(&config.theme, &saved.theme),
                Page::Profile => !same_profile(&config.profile, &saved.profile),
                Page::Paths => !same_paths(&config.paths, &saved.paths),
                Page::Servers => !same_name_table(&config.servers, &saved.servers),
                Page::Characters => !same_name_table(&config.characters, &saved.characters),
                _ => !same_phase_table(&config.phases, &saved.phases),
            },
        }
    }

    /// The page's name in the rail.
    pub fn label(self) -> (r: &'static str)
        ensures
            r@ == match self {
                Page::Overview => "Overview"@,
                Page::General => "General"@,
                Page::Identity => "Identity"@,
                Page::Display => "Display"@,
                Page::Theme => "Theme"@,
                Page::Profile => "Adventurer Profile"@,
                Page::Paths => "Paths"@,
                Page::Servers => "Server Names"@,
                Page::Characters => "Character Names"@,
                Page::Phases => "Phases"@,
                Page::Log => "Log"@,
                Page::About => "About"@,
            },
    {
        match self {
            Page::Overview => "Overview",
            Page::General => "General",
            Page::Identity => "Identity",
            Page::Display => "Display",
            Page::Theme => "Theme",
            Page::Profile => "Adventurer Profile",
            Page::Paths => "Paths",
            Page::Servers => "Server Names",
            Page::Characters => "Character Names",
            Page::Phases => "Phases",
            Page::Log => "Log",
            Page::About => "About",
        }
    }
}

// ---------------------------------------------------------------------------
// A phase's fields.
// ---------------------------------------------------------------------------

/// The texts a phase shows, as the Phases page lists them.
#[derive(Debug, Clone, Copy, PartialEq, Eq, Structural)]
pub enum PhaseField {
    Details,
    State,
    LargeImage,
    LargeText,
    SmallImage,
    SmallText,
    ButtonLabel,
    ButtonUrl,
    SecondButtonLabel,
    SecondButtonUrl,
}

pub open spec fn all_fields() -> Seq<PhaseField> {
    seq![
        PhaseField::Details,
        PhaseField::State,
        PhaseField::LargeImage,
        PhaseField::LargeText,
        PhaseField::SmallImage,
        PhaseField::SmallText,
        PhaseField::ButtonLabel,
        PhaseField::ButtonUrl,
        PhaseField::SecondButtonLabel,
        PhaseField::SecondButtonUrl,
    ]
}

pub open spec fn field_label(f: PhaseField) -> Seq<char> {
    match f {
        PhaseField::Details => "Details"@,
        PhaseField::State => "State"@,
        PhaseField::LargeImage => "Large Image"@,
        PhaseField::LargeText => "Large Hover"@,
        PhaseField::SmallImage => "Small Image"@,
        PhaseField::SmallText => "Small Hover"@,
        PhaseField::ButtonLabel => "Button Label"@,
        PhaseField::ButtonUrl => "Button URL"@,
        PhaseField::SecondButtonLabel => "Second Button Label"@,
        PhaseField::SecondButtonUrl => "Second Button URL"@,
    }
}

/// A field's text in a phase.
pub open spec fn field_value(c: PhaseConfigView, f: PhaseField) -> Seq<char> {
    match f {
        PhaseField::Details => c.details,
        PhaseField::State => c.state,
        PhaseField::LargeImage => c.large_image,
        PhaseField::LargeText => c.large_text,
        PhaseField::SmallImage => c.small_image,
        PhaseField::SmallText => c.small_text,
        PhaseField::ButtonLabel => c.button_label,
        PhaseField::ButtonUrl => c.button_url,
        PhaseField::SecondButtonLabel => c.second_button_label,
        PhaseField::SecondButtonUrl => c.second_button_url,
    }
}

/// A phase with one field's text replaced.
pub open spec fn with_field(c: PhaseConfigView, f: PhaseField, v: Seq<char>) -> PhaseConfigView {
    match f {
        PhaseField::Details => PhaseConfigView { details: v, ..c },
        PhaseField::State => PhaseConfigView { state: v, ..c },
        PhaseField::LargeImage => PhaseConfigView { large_image: v, ..c },
        PhaseField::LargeText => PhaseConfigView { large_text: v, ..c },
        PhaseField::SmallImage => PhaseConfigView { small_image: v, ..c },
        PhaseField::SmallText => PhaseConfigView { small_text: v, ..c },
        PhaseField::ButtonLabel => PhaseConfigView { button_label: v, ..c },
        PhaseField::ButtonUrl => PhaseConfigView { button_url: v, ..c },
        PhaseField::SecondButtonLabel => PhaseConfigView { second_button_label: v, ..c },
        PhaseField::SecondButtonUrl => PhaseConfigView { second_button_url: v, ..c },
    }
}

/// What is wrong with a field's text: first whatever is wrong with it as a
/// template, then what its kind of field refuses.
pub open spec fn field_problem(f: PhaseField, value: Seq<char>) -> Option<ProblemView> {
    match check::template_problem(value) {
        Some(p) => Some(p),
        None => match f {
            PhaseField::LargeImage | PhaseField::SmallImage => check::image_problem(value),
            PhaseField::ButtonLabel | PhaseField::SecondButtonLabel => check::button_label_problem(value),
            PhaseField::ButtonUrl | PhaseField::SecondButtonUrl => check::button_url_problem(value),
            _ => None,
        },
    }
}

impl PhaseField {
    /// The fields, in the order the Phases page lists them.
    pub fn all() -> (r: Vec<PhaseField>)
        ensures
            r@ == all_fields(),
    {
        let r = vec![
            PhaseField::Details,
            PhaseField::State,
            PhaseField::LargeImage,
            PhaseField::LargeText,
            PhaseField::SmallImage,
            PhaseField::SmallText,
            PhaseField::ButtonLabel,
            PhaseField::ButtonUrl,
            PhaseField::SecondButtonLabel,
            PhaseField::SecondButtonUrl,
        ];
        assert(r@ == all_fields());
        r
    }

    /// The field's name on the page.
    pub fn label(self) -> (r: &'static str)
        ensures
            r@ == field_label(self),
    {
        match self {
            PhaseField::Details => "Details",
            PhaseField::State => "State",
            PhaseField::LargeImage => "Large Image",
            PhaseField::LargeText => "Large Hover",
            PhaseField::SmallImage => "Small Image",
            PhaseField::SmallText => "Small Hover",
            PhaseField::ButtonLabel => "Button Label",
            PhaseField::ButtonUrl => "Button URL",
            PhaseField::SecondButtonLabel => "Second Button Label",
            PhaseField::SecondButtonUrl => "Second Button URL",
        }
    }

    /// What an empty field does, shown in it.
    pub fn hint(self, cfg: &PhaseConfig) -> (r: &'static str)
        ensures
            r@ == match self {
                PhaseField::Details => "Top Line"@,
                PhaseField::State => "Second Line"@,
                PhaseField::LargeImage => "Uses the Game Icon"@,
                PhaseField::SmallImage => if is_blank(cfg.large_image@) {
                    "No Image"@
                } else {
                    "Uses the Game Icon"@
                },
                PhaseField::LargeText => ""@,
                PhaseField::SmallText => "Needs a Small Image to show"@,
                _ => "No Button"@,
            },
    {
        match self {
            PhaseField::Details => "Top Line",
            PhaseField::State => "Second Line",
            PhaseField::LargeImage => "Uses the Game Icon",
            PhaseField::SmallImage => if blank(cfg.large_image.as_str()) {
                "No Image"
            } else {
                "Uses the Game Icon"
            },
            PhaseField::LargeText => "",
            PhaseField::SmallText => "Needs a Small Image to show",
            _ => "No Button",
        }
    }

    /// What is wrong with the field's text.
    pub fn error(self, value: &str) -> (r: Option<Problem>)
        ensures
            opt_problem(r) == field_problem(self, value@),
    {
        match check::template(value) {
            Some(p) => Some(p),
            None => match self {
                PhaseField::LargeImage | PhaseField::SmallImage => check::image(value),
                PhaseField::ButtonLabel | PhaseField::SecondButtonLabel => check::button_label(value),
                PhaseField::ButtonUrl | PhaseField::SecondButtonUrl => check::button_url(value),
                _ => None,
            },
        }
    }

    /// The field's text in a phase.
    pub fn get(self, cfg: &PhaseConfig) -> (r: &String)
        ensures
            r@ == field_value(cfg@, self),
    {
        match self {
            PhaseField::Details => &cfg.details,
            PhaseField::State => &cfg.state,
            PhaseField::LargeImage => &cfg.large_image,
            PhaseField::LargeText => &cfg.large_text,
            PhaseField::SmallImage => &cfg.small_image,
            PhaseField::SmallText => &cfg.small_text,
            PhaseField::ButtonLabel => &cfg.button_label,
            PhaseField::ButtonUrl => &cfg.button_url,
            PhaseField::SecondButtonLabel => &cfg.second_button_label,
            PhaseField::SecondButtonUrl => &cfg.second_button_url,
        }
    }

    /// Replaces the field's text in a phase.
    pub fn set(self, cfg: &mut PhaseConfig, value: String)
        ensures
            final(cfg)@ == with_field(old(cfg)@, self, value@),
    {
        match self {
            PhaseField::Details => cfg.details = value,
            PhaseField::State => cfg.state = value,
            PhaseField::LargeImage => cfg.large_image = value,
            PhaseField::LargeText => cfg.large_text = value,
            PhaseField::SmallImage => cfg.small_image = value,
            PhaseField::SmallText => cfg.small_text = value,
            PhaseField::ButtonLabel => cfg.button_label = value,
            PhaseField::ButtonUrl => cfg.button_url = value,
            PhaseField::SecondButtonLabel => cfg.second_button_label = value,
            PhaseField::SecondButtonUrl => cfg.second_button_url = value,
        }
    }
}

/// Writing a field and reading it back gives what was written, and leaves
/// the other fields as they were.
pub proof fn lemma_field_set_get(c: PhaseConfigView, f: PhaseField, g: PhaseField, v: Seq<char>)
    ensures
        field_value(with_field(c, f, v), f) == v,
        f != g ==> field_value(with_field(c, f, v), g) == field_value(c, g),
        with_field(c, f, v).report == c.report,
{
}

// ---------------------------------------------------------------------------
// Edits.
// ---------------------------------------------------------------------------

/// Sets one field of a phase, starting from what the phase shows now: its
/// entry, or its defaults.
pub fn edit_phase_field(config: &mut Config, phase: Phase, field: PhaseField, value: String)
    ensures
        final(config).phases@.contains_key(key_of(phase)),
        final(config).phases@[key_of(phase)]@ == with_field(phase_view_of(*old(config), phase), field, value@),
        forall|k: Seq<char>| k != key_of(phase) ==> #[trigger] final(config).phases@.contains_key(k)
            == old(config).phases@.contains_key(k) && (old(config).phases@.contains_key(k)
            ==> final(config).phases@[k] == old(config).phases@[k]),
        final(config).servers == old(config).servers,
        final(config).characters == old(config).characters,
        final(config).identity == old(config).identity,
        final(config).display == old(config).display,
        final(config).theme == old(config).theme,
        final(config).paths == old(config).paths,
        final(config).profile == old(config).profile,
{
    let mut cfg = config.phase(phase);
    field.set(&mut cfg, value);
    config.phases.insert(String::from_str(phase.key()), cfg);
}

/// Sets whether a phase is shown, starting from what the phase shows now.
pub fn edit_phase_report(config: &mut Config, phase: Phase, report: bool)
    ensures
        final(config).phases@.contains_key(key_of(phase)),
        final(config).phases@[key_of(phase)]@ == (PhaseConfigView { report, ..phase_view_of(*old(config), phase) }),
        forall|k: Seq<char>| k != key_of(phase) ==> #[trigger] final(config).phases@.contains_key(k)
            == old(config).phases@.contains_key(k) && (old(config).phases@.contains_key(k)
            ==> final(config).phases@[k] == old(config).phases@[k]),
{
    let mut cfg = config.phase(phase);
    cfg.report = report;
    config.phases.insert(String::from_str(phase.key()), cfg);
}

/// Adds a name to a table, both key and name trimmed, when neither is
/// blank. Whether it was added.
pub fn add_name(config: &mut Config, table: Table, key: &str, name: &str) -> (r: bool)
    ensures
        r == (!is_blank(key@) && !is_blank(name@)),
        names_view(table_of(table, *final(config))) == if r {
            names_view(table_of(table, *old(config))).insert(trim(key@), trim(name@))
        } else {
            names_view(table_of(table, *old(config)))
        },
        table == Table::Servers ==> final(config).characters == old(config).characters,
        table == Table::Characters ==> final(config).servers == old(config).servers,
        final(config).phases == old(config).phases,
{
    let k = trimmed(key);
    let n = trimmed(name);
    proof {
        crate::text::lemma_blank_iff_trim_empty(key@);
        crate::text::lemma_blank_iff_trim_empty(name@);
    }
    if k.as_str().is_empty() || n.as_str().is_empty() {
        return false;
    }
    let ghost nv = n@;
    let entries = table.entries_mut(config);
    entries.insert(k, n);
    proof {
        assert(names_view(table_of(table, *config)) =~= names_view(table_of(table, *old(config))).insert(trim(key@), nv));
    }
    true
}

/// Renames an entry of a table that has it.
pub fn rename_name(config: &mut Config, table: Table, key: &str, name: String)
    ensures
        names_view(table_of(table, *final(config))) == if table_of(table, *old(config))@.contains_key(key@) {
            names_view(table_of(table, *old(config))).insert(key@, name@)
        } else {
            names_view(table_of(table, *old(config)))
        },
        table == Table::Servers ==> final(config).characters == old(config).characters,
        table == Table::Characters ==> final(config).servers == old(config).servers,
        final(config).phases == old(config).phases,
{
    let entries = table.entries_mut(config);
    if entries.contains_key(key) {
        let ghost nv = name@;
        entries.insert(String::from_str(key), name);
        proof {
            assert(names_view(table_of(table, *config)) =~= names_view(table_of(table, *old(config))).insert(key@, nv));
        }
    }
}

/// Takes an entry out of a table.
pub fn remove_name(config: &mut Config, table: Table, key: &str)
    ensures
        names_view(table_of(table, *final(config))) == names_view(table_of(table, *old(config))).remove(key@),
        table == Table::Servers ==> final(config).characters == old(config).characters,
        table == Table::Characters ==> final(config).servers == old(config).servers,
        final(config).phases == old(config).phases,
{
    let entries = table.entries_mut(config);
    entries.remove(key);
    proof {
        assert(names_view(table_of(table, *config)) =~= names_view(table_of(table, *old(config))).remove(key@));
    }
}

/// Brings back an entry as it was saved, when it was.
pub fn restore_name(config: &mut Config, saved: &Config, table: Table, key: &str)
    ensures
        names_view(table_of(table, *final(config))) == if table_of(table, *saved)@.contains_key(key@) {
            names_view(table_of(table, *old(config))).insert(key@, names_view(table_of(table, *saved))[key@])
        } else {
            names_view(table_of(table, *old(config)))
        },
        table == Table::Servers ==> final(config).characters == old(config).characters,
        table == Table::Characters ==> final(config).servers == old(config).servers,
        final(config).phases == old(config).phases,
{
    let found = match table.entries(saved).get(key) {
        Some(n) => Some(n.clone()),
        None => None,
    };
    match found {
        Some(n) => {
            let ghost nv = n@;
            let entries = table.entries_mut(config);
            entries.insert(String::from_str(key), n);
            proof {
                assert(names_view(table_of(table, *config)) =~= names_view(table_of(table, *old(config))).insert(key@, nv));
            }
        },
        None => {},
    }
}

/// The names the file on disk adds to a table while it is being edited:
/// each entry of `disk` that was neither saved nor is being edited.
pub open spec fn merged_names(
    editing: Map<Seq<char>, Seq<char>>,
    saved: Map<Seq<char>, Seq<char>>,
    disk: Map<Seq<char>, Seq<char>>,
) -> Map<Seq<char>, Seq<char>> {
    Map::new(
        |k: Seq<char>| editing.contains_key(k) || (disk.contains_key(k) && !saved.contains_key(k)),
        |k: Seq<char>| if editing.contains_key(k) {
            editing[k]
        } else {
            disk[k]
        },
    )
}

/// The keys of the first `i` entries.
pub open spec fn keys_before<V>(items: Seq<(String, V)>, i: int) -> Set<Seq<char>> {
    Set::new(|k: Seq<char>| exists|j: int| 0 <= j < i && key_in(items, j) == k)
}

/// The merge after the first `i` entries of `disk`.
pub open spec fn merged_upto(
    editing: Map<Seq<char>, Seq<char>>,
    saved: Map<Seq<char>, Seq<char>>,
    disk: KeyMap<String>,
    i: int,
) -> Map<Seq<char>, Seq<char>> {
    Map::new(
        |k: Seq<char>| editing.contains_key(k) || (keys_before(disk.items(), i).contains(k)
            && !saved.contains_key(k)),
        |k: Seq<char>| if editing.contains_key(k) {
            editing[k]
        } else {
            names_view(disk)[k]
        },
    )
}

proof fn lemma_keys_before_step<V>(items: Seq<(String, V)>, i: int)
    requires
        0 <= i < items.len(),
    ensures
        keys_before(items, i + 1) == keys_before(items, i).insert(key_in(items, i)),
{
    assert(keys_before(items, i + 1) =~= keys_before(items, i).insert(key_in(items, i))) by {
        assert forall|k: Seq<char>| keys_before(items, i + 1).contains(k) implies keys_before(items, i).insert(key_in(items, i)).contains(k) by {
            let j = choose|j: int| 0 <= j < i + 1 && key_in(items, j) == k;
            if j < i {
                assert(keys_before(items, i).contains(k));
            }
        }
        assert forall|k: Seq<char>| keys_before(items, i).insert(key_in(items, i)).contains(k) implies keys_before(items, i + 1).contains(k) by {
            if k == key_in(items, i) {
                assert(0 <= i < i + 1 && key_in(items, i) == k);
            } else {
                let j = choose|j: int| 0 <= j < i && key_in(items, j) == k;
                assert(0 <= j < i + 1 && key_in(items, j) == k);
            }
        }
    }
}

/// Takes in the names a change on disk added, keeping every edit.
pub fn merge_new_names(editing: &mut KeyMap<String>, saved: &KeyMap<String>, disk: &KeyMap<String>)
    ensures
        names_view(*final(editing)) == merged_names(names_view(*old(editing)), names_view(*saved), names_view(*disk)),
{
    disk.check_sorted();
    let ghost e0 = names_view(*editing);
    let ghost sv = names_view(*saved);
    let n = disk.len();
    let mut i: usize = 0;
    assert(names_view(*editing) =~= merged_upto(e0, sv, *disk, 0));
    while i < n
        invariant
            i <= n == disk.items().len(),
            crate::keymap::sorted_items(disk.items()),
            e0 == names_view(*old(editing)),
            sv == names_view(*saved),
            names_view(*editing) == merged_upto(e0, sv, *disk, i as int),
        decreases n - i,
    {
        let key = disk.key_at(i);
        let ghost kk = key@;
        let ghost before = names_view(*editing);
        proof {
            crate::keymap::lemma_map_at(disk.items(), i as int);
            lemma_keys_before_step(disk.items(), i as int);
        }
        let in_saved = saved.contains_key(key.as_str());
        let in_editing = editing.contains_key(key.as_str());
        assert(in_saved == sv.contains_key(kk));
        assert(in_editing == before.contains_key(kk));
        if !in_saved && !in_editing {
            let value = disk.value_at(i).clone();
            let ghost vv = value@;
            editing.insert(key.clone(), value);
            proof {
                assert(!e0.contains_key(kk));
                assert(names_view(*editing) =~= before.insert(kk, vv));
                assert(vv == names_view(*disk)[kk]);
                assert(before.insert(kk, vv) =~= merged_upto(e0, sv, *disk, i + 1));
            }
        } else {
            proof {
                assert forall|k: Seq<char>| #[trigger] merged_upto(e0, sv, *disk, i + 1).contains_key(k)
                    == before.contains_key(k) by {
                    if k == kk {
                        assert(keys_before(disk.items(), i + 1).contains(k));
                    }
                }
                assert(names_view(*editing) =~= merged_upto(e0, sv, *disk, i + 1));
            }
        }
        i += 1;
    }
    proof {
        assert(keys_before(disk.items(), n as int) =~= disk@.dom()) by {
            assert forall|k: Seq<char>| disk@.dom().contains(k) implies keys_before(disk.items(), n as int).contains(k) by {
                let j = choose|j: int| 0 <= j < disk.items().len() && key_in(disk.items(), j) == k;
                assert(0 <= j < n && key_in(disk.items(), j) == k);
            }
        }
        assert(names_view(*editing) =~= merged_names(e0, sv, names_view(*disk)));
    }
}

/// A row of a names page: the name a key has in the config being edited and
/// the one it has in the saved config, either missing where the key is not
/// there.
pub struct NameRow {
    pub name: Option<String>,
    pub saved: Option<String>,
}

pub open spec fn opt_name(o: Option<String>) -> Option<Seq<char>> {
    match o {
        Some(s) => Some(s@),
        None => None,
    }
}

/// What a names page shows: each key in either table, with its name in each.
pub open spec fn name_rows_of(
    current: Map<Seq<char>, Seq<char>>,
    saved: Map<Seq<char>, Seq<char>>,
) -> Map<Seq<char>, (Option<Seq<char>>, Option<Seq<char>>)> {
    Map::new(
        |k: Seq<char>| current.contains_key(k) || saved.contains_key(k),
        |k: Seq<char>| (
            if current.contains_key(k) { Some(current[k]) } else { None },
            if saved.contains_key(k) { Some(saved[k]) } else { None },
        ),
    )
}

pub open spec fn name_rows_view(m: KeyMap<NameRow>) -> Map<Seq<char>, (Option<Seq<char>>, Option<Seq<char>>)> {
    m@.map_values(|r: NameRow| (opt_name(r.name), opt_name(r.saved)))
}

/// The rows after the first `i` keys of the current table.
pub open spec fn rows_upto_current(
    current: KeyMap<String>,
    saved: Map<Seq<char>, Seq<char>>,
    i: int,
) -> Map<Seq<char>, (Option<Seq<char>>, Option<Seq<char>>)> {
    Map::new(
        |k: Seq<char>| keys_before(current.items(), i).contains(k),
        |k: Seq<char>| (
            Some(names_view(current)[k]),
            if saved.contains_key(k) { Some(saved[k]) } else { None },
        ),
    )
}

/// The rows after all current keys and the first `j` saved ones.
pub open spec fn rows_upto_saved(
    current: Map<Seq<char>, Seq<char>>,
    saved: KeyMap<String>,
    j: int,
) -> Map<Seq<char>, (Option<Seq<char>>, Option<Seq<char>>)> {
    Map::new(
        |k: Seq<char>| current.contains_key(k) || keys_before(saved.items(), j).contains(k),
        |k: Seq<char>| (
            if current.contains_key(k) { Some(current[k]) } else { None },
            if names_view(saved).contains_key(k) { Some(names_view(saved)[k]) } else { None },
        ),
    )
}

proof fn lemma_all_keys<V>(m: KeyMap<V>)
    ensures
        keys_before(m.items(), m.items().len() as int) =~= m@.dom(),
{
    assert forall|k: Seq<char>| m@.dom().contains(k) implies keys_before(m.items(), m.items().len() as int).contains(k) by {
        let j = choose|j: int| 0 <= j < m.items().len() && key_in(m.items(), j) == k;
        assert(0 <= j < m.items().len() && key_in(m.items(), j) == k);
    }
}

/// The rows of a names page, in key order: each key of the table being
/// edited or of the saved one, with its name in each.
pub fn name_page_rows(current: &KeyMap<String>, saved: &KeyMap<String>) -> (r: KeyMap<NameRow>)
    ensures
        name_rows_view(r) == name_rows_of(names_view(*current), names_view(*saved)),
{
    current.check_sorted();
    saved.check_sorted();
    let ghost cv = names_view(*current);
    let ghost sv = names_view(*saved);
    let mut out: KeyMap<NameRow> = KeyMap::new();
    assert(name_rows_view(out) =~= rows_upto_current(*current, sv, 0));
    let n = current.len();
    let mut i: usize = 0;
    while i < n
        invariant
            i <= n == current.items().len(),
            crate::keymap::sorted_items(current.items()),
            crate::keymap::sorted_items(saved.items()),
            cv == names_view(*current),
            sv == names_view(*saved),
            name_rows_view(out) == rows_upto_current(*current, sv, i as int),
        decreases n - i,
    {
        let key = current.key_at(i);
        let ghost kk = key@;
        let ghost before = name_rows_view(out);
        proof {
            crate::keymap::lemma_map_at(current.items(), i as int);
            lemma_keys_before_step(current.items(), i as int);
        }
        let was = match saved.get(key.as_str()) {
            Some(v) => Some(v.clone()),
            None => None,
        };
        let row = NameRow { name: Some(current.value_at(i).clone()), saved: was };
        let ghost rv = (opt_name(row.name), opt_name(row.saved));
        out.insert(key.clone(), row);
        proof {
            assert(name_rows_view(out) =~= before.insert(kk, rv));
            assert(name_rows_view(out) =~= rows_upto_current(*current, sv, i + 1));
        }
        i += 1;
    }
    proof {
        lemma_all_keys(*current);
        assert(name_rows_view(out) =~= rows_upto_saved(cv, *saved, 0));
    }
    let m = saved.len();
    let mut j: usize = 0;
    while j < m
        invariant
            j <= m == saved.items().len(),
            crate::keymap::sorted_items(saved.items()),
            cv == names_view(*current),
            sv == names_view(*saved),
            name_rows_view(out) == rows_upto_saved(cv, *saved, j as int),
        decreases m - j,
    {
        let key = saved.key_at(j);
        let ghost kk = key@;
        let ghost before = name_rows_view(out);
        proof {
            crate::keymap::lemma_map_at(saved.items(), j as int);
            lemma_keys_before_step(saved.items(), j as int);
        }
        if !current.contains_key(key.as_str()) {
            let row = NameRow { name: None, saved: Some(saved.value_at(j).clone()) };
            let ghost rv = (opt_name(row.name), opt_name(row.saved));
            out.insert(key.clone(), row);
            proof {
                assert(name_rows_view(out) =~= before.insert(kk, rv));
                assert(name_rows_view(out) =~= rows_upto_saved(cv, *saved, j + 1));
            }
        } else {
            proof {
                assert(name_rows_view(out) =~= rows_upto_saved(cv, *saved, j + 1));
            }
        }
        j += 1;
    }
    proof {
        lemma_all_keys(*saved);
        assert(name_rows_view(out) =~= name_rows_of(cv, sv));
    }
    out
}

/// The text the Log page shows of a log read from byte `start` on: from a
/// later start, what follows the first line break, which may be cut short.
pub open spec fn log_page_text(text: Seq<char>, start: u64) -> Seq<char> {
    match find_char(text, '\n') {
        Some(i) => if start > 0 {
            text.skip(i + 1)
        } else {
            text
        },
        None => text,
    }
}

pub fn log_tail_text(text: &str, start: u64) -> (r: String)
    ensures
        r@ == log_page_text(text@, start),
{
    let v = chars_of(text);
    assert(v@.subrange(0, v@.len() as int) == v@);
    match find_char_from(v.as_slice(), 0, '\n') {
        Some(i) => if start > 0 {
            let n = v.len();
            assert(i < n);
            assert(v@.subrange(i + 1, v@.len() as int) == v@.skip(i + 1));
            string_of_range(v.as_slice(), i + 1, n)
        } else {
            String::from_str(text)
        },
        None => String::from_str(text),
    }
}


// ---------------------------------------------------------------------------
// What blocks saving.
// ---------------------------------------------------------------------------

/// What the file system says of a folder setting: whether it is a folder,
/// and whether it holds its marker.
pub struct FolderProbe {
    pub is_dir: bool,
    pub has_marker: bool,
}

pub type CheckRow = (Seq<char>, Option<ProblemView>);

/// The settings checked first, each with its label.
pub open spec fn fixed_checks(c: Config, game: FolderProbe, user: FolderProbe) -> Seq<CheckRow> {
    seq![
        ("Accent Color"@, if crate::m3::hex_of(c.theme.accent@) is None { Some(ProblemView::Accent) } else { None }),
        ("Discord App ID"@, check::app_id_problem(c.client_id@)),
        ("Game Icon"@, check::image_problem(c.display.game_icon@)),
        ("Profile URL"@, check::url_problem(c.profile.url@)),
        ("Search URL"@, check::url_problem(c.profile.search_url@)),
        ("Game Folder"@, check::folder_problem(c.paths.game_root@, "bin64"@, game.is_dir, game.has_marker)),
        ("User Data Folder"@, check::folder_problem(c.paths.user_data_dir@, "GameOption.txt"@, user.is_dir, user.has_marker)),
    ]
}

/// A phase's fields, each labelled with the phase and field names.
pub open spec fn phase_rows(c: Config, p: Phase) -> Seq<CheckRow> {
    Seq::new(
        10,
        |f: int| (label_of(p) + " "@ + field_label(all_fields()[f]), field_problem(all_fields()[f], field_value(phase_view_of(c, p), all_fields()[f]))),
    )
}

/// The fields of the first `n` phases, in session order.
pub open spec fn phase_checks(c: Config, n: int) -> Seq<CheckRow>
    decreases n,
{
    if n <= 0 {
        seq![]
    } else {
        phase_checks(c, n - 1) + phase_rows(c, all_phases()[n - 1])
    }
}

/// A table's names, each labelled with its key, which must not be blank.
pub open spec fn name_rows(m: KeyMap<String>) -> Seq<CheckRow> {
    Seq::new(
        m.items().len(),
        |i: int| (key_in(m.items(), i), if is_blank(m.items()[i].1@) { Some(ProblemView::Blank) } else { None }),
    )
}

/// A table's keys, each labelled with itself, as character IDs.
pub open spec fn id_rows(m: KeyMap<String>) -> Seq<CheckRow> {
    Seq::new(m.items().len(), |i: int| (key_in(m.items(), i), check::character_id_problem(key_in(m.items(), i))))
}

/// Every check, in the order the settings window makes them.
pub open spec fn all_checks(c: Config, game: FolderProbe, user: FolderProbe) -> Seq<CheckRow> {
    fixed_checks(c, game, user) + phase_checks(c, 7) + name_rows(c.servers) + name_rows(c.characters) + id_rows(c.characters)
}

/// The first check that finds a problem.
pub open spec fn first_problem(rows: Seq<CheckRow>) -> Option<(Seq<char>, ProblemView)>
    decreases rows.len(),
{
    if rows.len() == 0 {
        None
    } else {
        match rows[0].1 {
            Some(p) => Some((rows[0].0, p)),
            None => first_problem(rows.drop_first()),
        }
    }
}

pub open spec fn rows_view(v: Seq<(String, Option<Problem>)>) -> Seq<CheckRow> {
    Seq::new(v.len(), |i: int| (v[i].0@, opt_problem(v[i].1)))
}

fn push_row(rows: &mut Vec<(String, Option<Problem>)>, label: String, problem: Option<Problem>)
    ensures
        rows_view(final(rows)@) == rows_view(old(rows)@).push((label@, opt_problem(problem))),
{
    let ghost row = (label@, opt_problem(problem));
    rows.push((label, problem));
    assert(rows_view(rows@) =~= rows_view(old(rows)@).push(row));
}

/// The first problem that keeps the config from being saved, with the
/// label of the setting it is in. Whether the folder settings are folders
/// holding their markers, the file system tells.
pub fn config_problem(config: &Config, game: FolderProbe, user: FolderProbe) -> (r: Option<(String, Problem)>)
    ensures
        match r {
            Some((label, p)) => first_problem(all_checks(*config, game, user)) == Some((label@, p@)),
            None => first_problem(all_checks(*config, game, user)) is None,
        },
{
    let c = config;
    let mut rows: Vec<(String, Option<Problem>)> = Vec::new();
    push_row(&mut rows, String::from_str("Accent Color"), check::accent(c.theme.accent.as_str()));
    push_row(&mut rows, String::from_str("Discord App ID"), check::app_id(c.client_id.as_str()));
    push_row(&mut rows, String::from_str("Game Icon"), check::image(c.display.game_icon.as_str()));
    push_row(&mut rows, String::from_str("Profile URL"), check::url(c.profile.url.as_str()));
    push_row(&mut rows, String::from_str("Search URL"), check::url(c.profile.search_url.as_str()));
    push_row(&mut rows, String::from_str("Game Folder"), check::game_folder(c.paths.game_root.as_str(), game.is_dir, game.has_marker));
    push_row(&mut rows, String::from_str("User Data Folder"), check::user_data(c.paths.user_data_dir.as_str(), user.is_dir, user.has_marker));
    assert(rows_view(rows@) =~= fixed_checks(*c, game, user));
    let ghost fixed = rows_view(rows@);
    let phases = Phase::all();
    let fields = PhaseField::all();
    let mut pi: usize = 0;
    while pi < 7
        invariant
            pi <= 7,
            phases@ == all_phases(),
            fields@ == all_fields(),
            fixed == fixed_checks(*c, game, user),
            rows_view(rows@) == fixed + phase_checks(*c, pi as int),
        decreases 7 - pi,
    {
        let p = phases[pi];
        let cfg = c.phase(p);
        let ghost base = rows_view(rows@);
        let mut fi: usize = 0;
        while fi < 10
            invariant
                fi <= 10,
                pi < 7,
                p == all_phases()[pi as int],
                fields@ == all_fields(),
                cfg@ == phase_view_of(*c, p),
                rows_view(rows@) == base + phase_rows(*c, p).take(fi as int),
            decreases 10 - fi,
        {
            let f = fields[fi];
            let mut label = concat(p.label(), " ");
            push_text(&mut label, f.label());
            let problem = f.error(f.get(&cfg).as_str());
            push_row(&mut rows, label, problem);
            proof {
                assert(phase_rows(*c, p).take(fi + 1) =~= phase_rows(*c, p).take(fi as int).push(phase_rows(*c, p)[fi as int]));
                assert(base + phase_rows(*c, p).take(fi + 1) =~= (base + phase_rows(*c, p).take(fi as int)).push(phase_rows(*c, p)[fi as int]));
            }
            fi += 1;
        }
        proof {
            assert(phase_rows(*c, p).take(10) =~= phase_rows(*c, p));
            assert(phase_checks(*c, pi + 1) == phase_checks(*c, pi as int) + phase_rows(*c, all_phases()[pi as int]));
            assert(fixed + phase_checks(*c, pi + 1) =~= base + phase_rows(*c, p));
        }
        pi += 1;
    }
    let ghost upto_phases = rows_view(rows@);
    push_name_rows(&mut rows, &c.servers);
    push_name_rows(&mut rows, &c.characters);
    push_id_rows(&mut rows, &c.characters);
    proof {
        assert(rows_view(rows@) =~= all_checks(*c, game, user));
    }
    let ghost all = rows_view(rows@);
    let mut i: usize = 0;
    assert(all.skip(0) == all);
    while i < rows.len()
        invariant
            i <= rows@.len(),
            all == rows_view(rows@),
            all == all_checks(*config, game, user),
            first_problem(all) == first_problem(all.skip(i as int)),
        decreases rows@.len() - i,
    {
        proof {
            assert(all.skip(i as int)[0] == all[i as int]);
            assert(all.skip(i as int).drop_first() == all.skip(i + 1));
        }
        match &rows[i].1 {
            Some(_) => {
                let ghost row = rows@[i as int];
                assert(all[i as int] == (row.0@, opt_problem(row.1)));
                let (label, problem) = rows.remove(i);
                assert(label == row.0 && problem == row.1);
                match problem {
                    Some(p) => {
                        assert(first_problem(all.skip(i as int)) == Some((label@, p@)));
                        return Some((label, p));
                    },
                    None => return None,
                }
            },
            None => {},
        }
        i += 1;
    }
    assert(all.skip(i as int).len() == 0);
    None
}

fn push_name_rows(rows: &mut Vec<(String, Option<Problem>)>, m: &KeyMap<String>)
    ensures
        rows_view(final(rows)@) == rows_view(old(rows)@) + name_rows(*m),
{
    let ghost base = rows_view(rows@);
    let n = m.len();
    let mut i: usize = 0;
    while i < n
        invariant
            i <= n == m.items().len(),
            rows_view(rows@) == base + name_rows(*m).take(i as int),
            base == rows_view(old(rows)@),
        decreases n - i,
    {
        let problem = check::name(m.value_at(i).as_str());
        push_row(rows, m.key_at(i).clone(), problem);
        proof {
            assert(base + name_rows(*m).take(i + 1) =~= (base + name_rows(*m).take(i as int)).push(name_rows(*m)[i as int]));
        }
        i += 1;
    }
    assert(name_rows(*m).take(n as int) =~= name_rows(*m));
}

fn push_id_rows(rows: &mut Vec<(String, Option<Problem>)>, m: &KeyMap<String>)
    ensures
        rows_view(final(rows)@) == rows_view(old(rows)@) + id_rows(*m),
{
    let ghost base = rows_view(rows@);
    let n = m.len();
    let mut i: usize = 0;
    while i < n
        invariant
            i <= n == m.items().len(),
            rows_view(rows@) == base + id_rows(*m).take(i as int),
            base == rows_view(old(rows)@),
        decreases n - i,
    {
        let problem = check::character_id(m.key_at(i).as_str());
        push_row(rows, m.key_at(i).clone(), problem);
        proof {
            assert(base + id_rows(*m).take(i + 1) =~= (base + id_rows(*m).take(i as int)).push(id_rows(*m)[i as int]));
        }
        i += 1;
    }
    assert(id_rows(*m).take(n as int) =~= id_rows(*m));
}


/// Taking in names from disk keeps every name being edited as it is, and
/// never brings back a name that was saved and then removed.
pub proof fn lemma_merge_keeps_edits(
    editing: Map<Seq<char>, Seq<char>>,
    saved: Map<Seq<char>, Seq<char>>,
    disk: Map<Seq<char>, Seq<char>>,
    k: Seq<char>,
)
    ensures
        editing.contains_key(k) ==> merged_names(editing, saved, disk).contains_key(k)
            && merged_names(editing, saved, disk)[k] == editing[k],
        !editing.contains_key(k) && saved.contains_key(k) ==> !merged_names(editing, saved, disk).contains_key(k),
        !editing.contains_key(k) && !saved.contains_key(k) && disk.contains_key(k) ==> merged_names(editing, saved, disk)[k] == disk[k],
{
}

} // verus!
