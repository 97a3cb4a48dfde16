//! The watcher's decisions: when to try again, which reading of the log has
//! settled, what the profile comes from, whom to ask for a name, and what
//! the status line says. Clocks reach it as numbers: a monotonic one and the
//! wall clock, each in nanoseconds.
use vstd::prelude::*;
use crate::config::{Config, Table, table_of};
use crate::keymap::{KeyMap, text_eq};
use crate::log_tail::{GameState, GameStateView, opt_seq};
use crate::phase::Phase;
use crate::presence::{PresenceFields, PresenceView, opt_view};
use crate::profile::{Character, Profile, main_of, named_of};
use crate::region::{Regions, region_of, region_name_of};
use crate::text::{blank, concat, is_blank, join, join_texts, push_text};
use crate::tray::Health;

verus! {

pub const NANOS_PER_SEC: u64 = 1_000_000_000;
/// The longest wait a schedule can hold, in seconds.
pub const MAX_WAIT_SECS: u64 = 4_294_967_296;
/// The latest monotonic time a schedule is asked about, in nanoseconds.
pub const MAX_CLOCK: u64 = 10_000_000_000_000_000_000;

pub const CONNECT_MIN_BACKOFF: u64 = 5;
pub const CONNECT_MAX_BACKOFF: u64 = 60;
pub const PROFILE_MIN_BACKOFF: u64 = 60;
pub const PROFILE_MAX_BACKOFF: u64 = 900;
pub const FAMILY_RECHECK_SECS: u64 = 30;
/// How long after entering the game a character's folder is read, in seconds.
pub const CHARACTER_READ_WINDOW_SECS: u64 = 10;

// ---------------------------------------------------------------------------
// Retry schedules.
// ---------------------------------------------------------------------------

/// A retry schedule: each failure doubles the wait up to `max`, a success
/// takes it back to `min`.
pub struct Backoff {
    min: u64,
    max: u64,
    secs: u64,
    next: u64,
}

pub struct BackoffView {
    pub min: u64,
    pub max: u64,
    pub secs: u64,
    pub next: u64,
}

impl View for Backoff {
    type V = BackoffView;

    closed spec fn view(&self) -> BackoffView {
        BackoffView { min: self.min, max: self.max, secs: self.secs, next: self.next }
    }
}

/// The wait after one more failure: twice the last, at most `max`.
pub open spec fn doubled(b: BackoffView) -> u64 {
    if 2 * b.secs < b.max {
        (2 * b.secs) as u64
    } else {
        b.max
    }
}

/// The schedule held from `now` for its present wait.
pub open spec fn held(b: BackoffView, now: u64) -> BackoffView {
    BackoffView { next: (now + b.secs * NANOS_PER_SEC) as u64, ..b }
}

impl Backoff {
    #[verifier::type_invariant]
    spec fn bounded(self) -> bool {
        self.min <= MAX_WAIT_SECS && self.max <= MAX_WAIT_SECS && self.secs <= MAX_WAIT_SECS
    }

    /// A schedule due at once, that waits `min` seconds after a first failure.
    pub fn new(min: u64, max: u64, now: u64) -> (r: Backoff)
        requires
            min <= MAX_WAIT_SECS,
            max <= MAX_WAIT_SECS,
        ensures
            r@ == (BackoffView { min, max, secs: min, next: now }),
    {
        Backoff { min, max, secs: min, next: now }
    }

    /// Whether the wait is over at `now`.
    pub fn due(&self, now: u64) -> (r: bool)
        ensures
            r == (now >= self@.next),
    {
        now >= self.next
    }

    /// Waits the present wait from `now` on.
    pub fn hold(&mut self, now: u64)
        requires
            now <= MAX_CLOCK,
        ensures
            final(self)@ == held(old(self)@, now),
    {
        proof { use_type_invariant(&*self); }
        self.next = now + self.secs * NANOS_PER_SEC;
    }

    /// A failed try at `now`: waits the present wait, and doubles the next
    /// one up to `max`. Returns the seconds waited.
    pub fn failed(&mut self, now: u64) -> (wait: u64)
        requires
            now <= MAX_CLOCK,
        ensures
            wait == old(self)@.secs,
            final(self)@ == (BackoffView { secs: doubled(old(self)@), ..held(old(self)@, now) }),
    {
        proof { use_type_invariant(&*self); }
        let wait = self.secs;
        self.hold(now);
        let twice = self.secs * 2;
        self.secs = if twice < self.max { twice } else { self.max };
        wait
    }

    /// A successful try: the next failure waits `min` again.
    pub fn succeeded(&mut self)
        ensures
            final(self)@ == (BackoffView { secs: old(self)@.min, ..old(self)@ }),
    {
        proof { use_type_invariant(&*self); }
        self.secs = self.min;
    }
}

/// A schedule whose wait lies between its bounds keeps it there through a
/// failure, and a failure never shortens it.
pub proof fn lemma_failure_stays_bounded(b: BackoffView, now: u64)
    requires
        b.min <= b.secs <= b.max,
    ensures
        b.min <= doubled(b) <= b.max,
        b.secs <= doubled(b),
{
}

/// After failures enough, the wait is `max` and stays there.
pub proof fn lemma_failures_reach_max(b: BackoffView)
    requires
        b.secs == b.max,
    ensures
        doubled(b) == b.max,
{
}

// ---------------------------------------------------------------------------
// The watcher's status.
// ---------------------------------------------------------------------------

/// What the tray shows: how the watcher is doing, and one line about it.
pub struct Status {
    pub health: Health,
    pub line: String,
}

impl Status {
    pub fn new(health: Health, line: &str) -> (r: Status)
        ensures
            r.health == health,
            r.line@ == line@,
    {
        Status { health, line: String::from_str(line) }
    }
}

/// How a profile refresh went.
#[derive(Copy, Clone, Debug, PartialEq, Eq, Structural)]
pub enum Fetch {
    Skipped,
    Fetched,
    Failed,
}

// ---------------------------------------------------------------------------
// What the config leaves open.
// ---------------------------------------------------------------------------

/// A setting's value, unless it is blank.
pub open spec fn non_empty_of(value: Seq<char>) -> Option<Seq<char>> {
    if is_blank(value) {
        None
    } else {
        Some(value)
    }
}

/// A setting's value, unless it is blank.
pub fn non_empty(value: &str) -> (r: Option<String>)
    ensures
        opt_seq(r) == non_empty_of(value@),
{
    if blank(value) {
        None
    } else {
        Some(String::from_str(value))
    }
}

pub open spec fn opt_str(o: Option<&str>) -> Option<Seq<char>> {
    match o {
        Some(s) => Some(s@),
        None => None,
    }
}

/// The region shown: the configured name, or the name of the game's
/// service region.
pub open spec fn resolve_region_of(config: Config, regions: Regions, service: Option<Seq<char>>) -> Option<Seq<char>> {
    match non_empty_of(config.identity.region_name@) {
        Some(n) => Some(n),
        None => match service {
            Some(code) => Some(region_name_of(regions, code)),
            None => None,
        },
    }
}

/// The region shown: the configured name, or the name of the region the
/// game's `service.ini` names.
pub fn resolve_region(config: &Config, regions: &Regions, service: Option<&str>) -> (r: Option<String>)
    ensures
        opt_seq(r) == resolve_region_of(*config, *regions, opt_str(service)),
{
    match non_empty(config.identity.region_name.as_str()) {
        Some(n) => Some(n),
        None => match service {
            Some(code) => Some(regions.name(code)),
            None => None,
        },
    }
}

/// Where a family's profile is searched for: the configured address, or
/// the game's region's, or nowhere.
pub open spec fn search_url_of(config: Config, regions: Regions, service: Option<Seq<char>>) -> Seq<char> {
    match non_empty_of(config.profile.search_url@) {
        Some(u) => u,
        None => match service {
            Some(code) => match region_of(regions, code) {
                Some(r) => r.search@,
                None => seq![],
            },
            None => seq![],
        },
    }
}

/// Where a family's profile is searched for: the configured address, or
/// the one for the region the game runs in; empty when neither is known.
pub fn search_url(config: &Config, regions: &Regions, service: Option<&str>) -> (r: String)
    ensures
        r@ == search_url_of(*config, *regions, opt_str(service)),
{
    match non_empty(config.profile.search_url.as_str()) {
        Some(u) => u,
        None => {
            let found = match service {
                Some(code) => regions.get(code),
                None => None,
            };
            match found {
                Some(r) => r.search.clone(),
                None => String::new(),
            }
        },
    }
}

// ---------------------------------------------------------------------------
// The profile.
// ---------------------------------------------------------------------------

/// Whether a profile is new enough to keep: fetched less than the refresh
/// interval before `now`, both in Unix seconds.
pub open spec fn profile_fresh_at(config: Config, profile: Option<Profile>, now: i64) -> bool {
    match profile {
        Some(p) => now - p.fetched_at < ((config.profile.refresh_minutes * 60) as i64),
        None => false,
    }
}

/// Whether the profile in hand is new enough to keep at `now`, in Unix seconds.
pub fn profile_fresh(config: &Config, profile: &Option<Profile>, now: i64) -> (r: bool)
    requires
        config.profile.refresh_minutes <= u64::MAX / 60,
    ensures
        r == profile_fresh_at(*config, *profile, now),
{
    match profile {
        Some(p) => {
            let limit = (config.profile.refresh_minutes * 60) as i64;
            (now as i128) - (p.fetched_at as i128) < (limit as i128)
        },
        None => false,
    }
}

/// Whether the profile is read at all: only while it is switched on; while
/// it is off, the profile held is dropped.
pub fn profile_wanted(config: &Config, profile: &mut Option<Profile>) -> (r: bool)
    ensures
        r == config.profile.enabled,
        r ==> *final(profile) == *old(profile),
        !r ==> *final(profile) is None,
{
    if !config.profile.enabled {
        *profile = None;
        return false;
    }
    true
}

/// Where the profile is to be read from.
pub enum ProfileTarget {
    /// A known profile page.
    Page(String),
    /// A page still to be found, by searching `search` for `family`.
    Search { search: String, family: String },
    /// Nowhere for now.
    Skip,
}

pub open spec fn target_view(t: ProfileTarget) -> (int, Seq<char>, Seq<char>) {
    match t {
        ProfileTarget::Page(p) => (0, p@, seq![]),
        ProfileTarget::Search { search, family } => (1, search@, family@),
        ProfileTarget::Skip => (2, seq![], seq![]),
    }
}

/// Where the profile comes from: the page found before, the configured
/// page, the page the cached profile came from, or a search by family name
/// in the region's search; nowhere when none of these is known.
pub open spec fn target_of(
    config: Config,
    regions: Regions,
    family: Option<Seq<char>>,
    service: Option<Seq<char>>,
    url: Option<Seq<char>>,
    profile: Option<Profile>,
) -> (int, Seq<char>, Seq<char>) {
    match url {
        Some(u) => (0, u, seq![]),
        None => if !is_blank(config.profile.url@) {
            (0, config.profile.url@, seq![])
        } else if profile matches Some(p) && p.url is Some {
            (0, profile->0.url->0@, seq![])
        } else {
            match family {
                Some(f) => {
                    let search = search_url_of(config, regions, service);
                    if search.len() == 0 {
                        (2, seq![], seq![])
                    } else {
                        (1, search, f)
                    }
                },
                None => (2, seq![], seq![]),
            }
        },
    }
}

/// Where the profile is read from. A page found here without searching
/// becomes the page to use from now on.
pub fn profile_target(
    config: &Config,
    regions: &Regions,
    family: Option<&str>,
    service: Option<&str>,
    url: &mut Option<String>,
    profile: &Option<Profile>,
) -> (r: ProfileTarget)
    ensures
        target_view(r) == target_of(*config, *regions, opt_str(family), opt_str(service), opt_seq(*old(url)), *profile),
        opt_seq(*final(url)) == match opt_seq(*old(url)) {
            Some(u) => Some(u),
            None => if target_view(r).0 == 0 { Some(target_view(r).1) } else { None },
        },
{
    match url {
        Some(u) => return ProfileTarget::Page(u.clone()),
        None => {},
    }
    let page = if !blank(config.profile.url.as_str()) {
        Some(config.profile.url.clone())
    } else {
        match profile {
            Some(p) => match &p.url {
                Some(u) => Some(u.clone()),
                None => None,
            },
            None => None,
        }
    };
    match page {
        Some(p) => {
            *url = Some(p.clone());
            ProfileTarget::Page(p)
        },
        None => match family {
            Some(f) => {
                let search = search_url(config, regions, service);
                if search.as_str().is_empty() {
                    ProfileTarget::Skip
                } else {
                    ProfileTarget::Search { search, family: String::from_str(f) }
                }
            },
            None => ProfileTarget::Skip,
        },
    }
}

// ---------------------------------------------------------------------------
// Times.
// ---------------------------------------------------------------------------

/// When the present stay in the game began, in nanoseconds since the Unix
/// epoch: only while in the game, and only from a time after the epoch.
pub open spec fn play_started_of(s: GameStateView) -> Option<i128> {
    if s.phase != Some(Phase::Play) {
        None
    } else {
        match s.phase_since {
            Some(t) => if t >= 0 {
                Some((t * 1_000_000_000) as i128)
            } else {
                None
            },
            None => None,
        }
    }
}

/// When the present stay in the game began, in nanoseconds since the Unix epoch.
pub fn play_started_at(state: &GameState) -> (r: Option<i128>)
    ensures
        r == play_started_of(state@),
{
    let playing = match state.phase {
        Some(Phase::Play) => true,
        _ => false,
    };
    if !playing {
        return None;
    }
    match state.phase_since {
        Some(t) => if t >= 0 {
            Some((t as i128) * 1_000_000_000)
        } else {
            None
        },
        None => None,
    }
}

/// Whether the character's folder can no longer be read: more than the
/// read window and five seconds more have passed since `play_started`, on
/// the wall clock `now`. A clock behind the start has not passed it.
pub open spec fn past_read_window_at(play_started: i128, now: i128) -> bool {
    now >= play_started && now - play_started > (CHARACTER_READ_WINDOW_SECS + 5) * NANOS_PER_SEC
}

pub fn past_read_window(play_started: i128, now: i128) -> (r: bool)
    ensures
        r == past_read_window_at(play_started, now),
{
    let window = ((CHARACTER_READ_WINDOW_SECS + 5) * NANOS_PER_SEC) as i128;
    now >= play_started && play_started <= i128::MAX - window && now > play_started + window
}

/// Whole seconds from `since` to `now` on a monotonic clock, none when the
/// clock reads earlier.
pub open spec fn elapsed_secs(since: u64, now: u64) -> u64 {
    if now >= since {
        ((now - since) / (NANOS_PER_SEC as int)) as u64
    } else {
        0
    }
}

pub fn elapsed_whole_secs(since: u64, now: u64) -> (r: u64)
    ensures
        r == elapsed_secs(since, now),
{
    if now >= since {
        (now - since) / NANOS_PER_SEC
    } else {
        0
    }
}


// ---------------------------------------------------------------------------
// The session: what the log says, and what has settled.
// ---------------------------------------------------------------------------

/// Whether two optional texts hold the same characters.
pub fn same_text(a: &Option<String>, b: &Option<String>) -> (r: bool)
    ensures
        r == (opt_seq(*a) == opt_seq(*b)),
{
    match (a, b) {
        (Some(x), Some(y)) => text_eq(x.as_str(), y.as_str()),
        (None, None) => true,
        _ => false,
    }
}

pub fn same_phase(a: Option<Phase>, b: Option<Phase>) -> (r: bool)
    ensures
        r == (a == b),
{
    match (a, b) {
        (Some(x), Some(y)) => x == y,
        (None, None) => true,
        _ => false,
    }
}

fn copy_text(a: &Option<String>) -> (r: Option<String>)
    ensures
        opt_seq(r) == opt_seq(*a),
{
    match a {
        Some(s) => Some(s.clone()),
        None => None,
    }
}

/// One game session as the watcher follows it: the state the log gives,
/// the state that has held long enough to show, and the character played.
pub struct Session {
    pub state: GameState,
    pub stable: GameState,
    pub observed_phase: Option<Phase>,
    pub observed_server: Option<String>,
    pub observed_since: u64,
    pub character: Option<String>,
    pub read_for: Option<i64>,
    pub missed_for: Option<i64>,
}

pub struct SessionView {
    pub state: GameStateView,
    pub stable: GameStateView,
    pub observed: (Option<Phase>, Option<Seq<char>>),
    pub observed_since: u64,
    pub character: Option<Seq<char>>,
    pub read_for: Option<i64>,
    pub missed_for: Option<i64>,
}

impl View for Session {
    type V = SessionView;

    open spec fn view(&self) -> SessionView {
        SessionView {
            state: self.state@,
            stable: self.stable@,
            observed: (self.observed_phase, opt_seq(self.observed_server)),
            observed_since: self.observed_since,
            character: opt_seq(self.character),
            read_for: self.read_for,
            missed_for: self.missed_for,
        }
    }
}

/// What settled in one look.
pub struct Settled {
    /// A new phase is shown.
    pub phase_changed: bool,
    /// A new game server is shown.
    pub server_changed: bool,
}

/// The session after a look at `now`: the phase and server the log gives
/// settle once they have held for `debounce` seconds, or at once when they
/// are the first phase read; the session's start is always the log's.
pub open spec fn debounced(s: SessionView, now: u64, debounce: u64) -> SessionView {
    let key = (s.state.phase, s.state.game_server);
    let since = if key != s.observed { now } else { s.observed_since };
    let first = s.stable.phase is None && s.state.phase is Some;
    let stable = if first || elapsed_secs(since, now) >= debounce {
        GameStateView {
            phase: s.state.phase,
            game_server: s.state.game_server,
            phase_since: s.state.phase_since,
            session_start: s.state.session_start,
        }
    } else {
        GameStateView { session_start: s.state.session_start, ..s.stable }
    };
    SessionView { observed: key, observed_since: since, stable, ..s }
}

/// Whether the look at `now` settles the log's reading.
pub open spec fn settles(s: SessionView, now: u64, debounce: u64) -> bool {
    let key = (s.state.phase, s.state.game_server);
    let since = if key != s.observed { now } else { s.observed_since };
    (s.stable.phase is None && s.state.phase is Some) || elapsed_secs(since, now) >= debounce
}

/// When the character's folder is worth reading: characters are shown, this
/// stay in the game has not been read yet, and it has a start.
pub open spec fn character_wanted_of(s: SessionView, show_character: bool) -> Option<i128> {
    if !show_character || s.state.phase_since == s.read_for {
        None
    } else {
        play_started_of(s.state)
    }
}

/// What reading the character's folder came to.
pub enum CharacterRead {
    /// A character was read; `changed` when it is another one.
    Found { changed: bool },
    /// None could be read in time for this stay in the game.
    Missed,
    /// Nothing to tell yet.
    Pending,
}

impl Session {
    /// A session with nothing read yet, observed from `now`.
    pub fn new(now: u64) -> (r: Session)
        ensures
            r@.state == crate::log_tail::empty_state(),
            r@.stable == crate::log_tail::empty_state(),
            r@.observed == (None::<Phase>, None::<Seq<char>>),
            r@.observed_since == now,
            r@.character is None,
            r@.read_for is None,
            r@.missed_for is None,
    {
        Session {
            state: GameState::new(),
            stable: GameState::new(),
            observed_phase: None,
            observed_server: None,
            observed_since: now,
            character: None,
            read_for: None,
            missed_for: None,
        }
    }

    /// Lets the log's reading settle: a phase or server shows once it has
    /// held for `debounce_seconds`, the first phase at once.
    pub fn debounce(&mut self, now: u64, debounce_seconds: u64) -> (r: Settled)
        ensures
            final(self)@ == debounced(old(self)@, now, debounce_seconds),
            r.phase_changed == (settles(old(self)@, now, debounce_seconds)
                && old(self)@.stable.phase != old(self)@.state.phase),
            r.server_changed == (settles(old(self)@, now, debounce_seconds)
                && old(self)@.stable.game_server != old(self)@.state.game_server
                && old(self)@.state.game_server is Some),
    {
        let same_key = same_phase(self.state.phase, self.observed_phase) && same_text(
            &self.state.game_server,
            &self.observed_server,
        );
        if !same_key {
            self.observed_phase = self.state.phase;
            self.observed_server = copy_text(&self.state.game_server);
            self.observed_since = now;
        }
        let first = self.stable.phase.is_none() && self.state.phase.is_some();
        let mut settled = Settled { phase_changed: false, server_changed: false };
        if first || elapsed_whole_secs(self.observed_since, now) >= debounce_seconds {
            settled.phase_changed = !same_phase(self.stable.phase, self.state.phase);
            settled.server_changed = !same_text(&self.stable.game_server, &self.state.game_server)
                && self.state.game_server.is_some();
            self.stable.phase = self.state.phase;
            self.stable.game_server = copy_text(&self.state.game_server);
            self.stable.phase_since = self.state.phase_since;
        }
        self.stable.session_start = self.state.session_start;
        settled
    }

    /// When the character's folder is worth reading, the play start to read
    /// it against.
    pub fn character_wanted(&self, show_character: bool) -> (r: Option<i128>)
        ensures
            r == character_wanted_of(self@, show_character),
    {
        let same = match (self.state.phase_since, self.read_for) {
            (Some(a), Some(b)) => a == b,
            (None, None) => true,
            _ => false,
        };
        if !show_character || same {
            return None;
        }
        play_started_at(&self.state)
    }

    /// Takes in what reading the character's folder found, for the stay in
    /// the game that began at `play_started`, at wall-clock `now`.
    pub fn character_read(&mut self, found: Option<String>, play_started: i128, now: i128) -> (r: CharacterRead)
        ensures
            match found {
                Some(key) => {
                    &&& final(self)@ == SessionView {
                        read_for: old(self)@.state.phase_since,
                        missed_for: None,
                        character: Some(key@),
                        ..old(self)@
                    }
                    &&& r == CharacterRead::Found { changed: old(self)@.character != Some(key@) }
                },
                None => if old(self)@.missed_for != old(self)@.state.phase_since
                    && past_read_window_at(play_started, now) {
                    &&& final(self)@ == SessionView { missed_for: old(self)@.state.phase_since, ..old(self)@ }
                    &&& r == CharacterRead::Missed
                } else {
                    &&& final(self)@ == old(self)@
                    &&& r == CharacterRead::Pending
                },
            },
    {
        match found {
            Some(key) => {
                self.read_for = self.state.phase_since;
                self.missed_for = None;
                let changed = match &self.character {
                    Some(c) => !text_eq(c.as_str(), key.as_str()),
                    None => true,
                };
                self.character = Some(key);
                CharacterRead::Found { changed }
            },
            None => {
                let same = match (self.missed_for, self.state.phase_since) {
                    (Some(a), Some(b)) => a == b,
                    (None, None) => true,
                    _ => false,
                };
                if !same && past_read_window(play_started, now) {
                    self.missed_for = self.state.phase_since;
                    CharacterRead::Missed
                } else {
                    CharacterRead::Pending
                }
            },
        }
    }
}

// ---------------------------------------------------------------------------
// Names.
// ---------------------------------------------------------------------------

/// Whether a profile lists a name: there is no profile, it lists no one,
/// or a character of that name.
pub open spec fn listed(profile: Option<Profile>, name: Seq<char>) -> bool {
    match profile {
        Some(p) => p.characters@.len() == 0 || named_of(p.characters@, name) is Some,
        None => true,
    }
}

/// The name the user gave the character played, when the profile does not
/// list it.
pub open spec fn unmatched_of(config: Config, character: Option<Seq<char>>, profile: Option<Profile>) -> Option<Seq<char>> {
    match character {
        Some(key) => if config.identity.show_character && config.characters@.contains_key(key) {
            let name = config.characters@[key]@;
            if listed(profile, name) {
                None
            } else {
                Some(name)
            }
        } else {
            None
        },
        None => None,
    }
}

/// The name the user gave the character played, when the profile does not
/// list it: such a character shows with unknown class and level.
pub fn unmatched_character(config: &Config, character: &Option<String>, profile: &Option<Profile>) -> (r: Option<String>)
    ensures
        opt_seq(r) == unmatched_of(*config, opt_seq(*character), *profile),
{
    let key = match character {
        Some(k) => k,
        None => return None,
    };
    if !config.identity.show_character {
        return None;
    }
    let name = match config.characters.get(key.as_str()) {
        Some(n) => n,
        None => return None,
    };
    let is_listed = match profile {
        Some(p) => p.characters.len() == 0 || p.character(name.as_str()).is_some(),
        None => true,
    };
    if is_listed {
        None
    } else {
        Some(name.clone())
    }
}

/// Whether to ask for a name for `key`: it is not in the table, and was not
/// asked about before. Either way a key not in the table counts as asked.
pub fn should_ask(config: &Config, table: Table, key: &str, prompted: &mut KeyMap<bool>) -> (r: bool)
    ensures
        r == (!table_of(table, *config)@.contains_key(key@) && !old(prompted)@.contains_key(key@)),
        final(prompted)@ == if table_of(table, *config)@.contains_key(key@) {
            old(prompted)@
        } else {
            old(prompted)@.insert(key@, true)
        },
{
    if table.entries(config).contains_key(key) {
        return false;
    }
    let fresh = !prompted.contains_key(key);
    prompted.insert(String::from_str(key), true);
    fresh
}

/// The prompt's command line: the table's flag, the key, and the game's
/// service region when known.
pub fn prompt_args(table: Table, key: &str, service: Option<&str>) -> (r: Vec<String>)
    ensures
        r@.len() == if service is Some { 3int } else { 2int },
        r@[0]@ == crate::prompt::flag_of(table),
        r@[1]@ == key@,
        service matches Some(s) ==> r@[2]@ == s@,
{
    let mut args: Vec<String> = Vec::new();
    args.push(String::from_str(crate::prompt::flag(table)));
    args.push(String::from_str(key));
    match service {
        Some(s) => args.push(String::from_str(s)),
        None => {},
    }
    args
}

// ---------------------------------------------------------------------------
// Pushing the presence.
// ---------------------------------------------------------------------------

/// Whether a push is allowed at `now`: none yet, or the last one is at
/// least `min_update` seconds old.
pub open spec fn push_due_at(last_push: Option<u64>, now: u64, min_update: u64) -> bool {
    match last_push {
        Some(t) => elapsed_secs(t, now) >= min_update,
        None => true,
    }
}

pub fn push_due(last_push: Option<u64>, now: u64, min_update_seconds: u64) -> (r: bool)
    ensures
        r == push_due_at(last_push, now, min_update_seconds),
{
    match last_push {
        Some(t) => elapsed_whole_secs(t, now) >= min_update_seconds,
        None => true,
    }
}

pub open spec fn opt_presence(p: Option<PresenceFields>) -> Option<PresenceView> {
    match p {
        Some(f) => Some(f@),
        None => None,
    }
}

fn same_buttons(a: &Vec<(String, String)>, b: &Vec<(String, String)>) -> (r: bool)
    ensures
        r == (a@.map_values(|x: (String, String)| (x.0@, x.1@)) == b@.map_values(
            |x: (String, String)| (x.0@, x.1@),
        )),
{
    let ghost va = a@.map_values(|x: (String, String)| (x.0@, x.1@));
    let ghost vb = b@.map_values(|x: (String, String)| (x.0@, x.1@));
    if a.len() != b.len() {
        assert(va.len() != vb.len());
        return false;
    }
    let mut i: usize = 0;
    while i < a.len()
        invariant
            i <= a@.len() == b@.len(),
            va == a@.map_values(|x: (String, String)| (x.0@, x.1@)),
            vb == b@.map_values(|x: (String, String)| (x.0@, x.1@)),
            forall|j: int| 0 <= j < i ==> #[trigger] va[j] == vb[j],
        decreases a@.len() - i,
    {
        let same = text_eq(a[i].0.as_str(), b[i].0.as_str()) && text_eq(a[i].1.as_str(), b[i].1.as_str());
        if !same {
            assert(va[i as int] != vb[i as int]);
            return false;
        }
        i += 1;
    }
    assert(va =~= vb);
    true
}

/// Whether two presences show the same.
pub fn same_presence(a: &Option<PresenceFields>, b: &Option<PresenceFields>) -> (r: bool)
    ensures
        r == (opt_presence(*a) == opt_presence(*b)),
{
    match (a, b) {
        (Some(x), Some(y)) => {
            let r = same_text(&x.details, &y.details) && same_text(&x.state, &y.state) && match (
                x.start,
                y.start,
            ) {
                (Some(p), Some(q)) => p == q,
                (None, None) => true,
                _ => false,
            } && same_text(&x.large_image, &y.large_image) && same_text(
                &x.large_text,
                &y.large_text,
            ) && same_text(&x.small_image, &y.small_image) && same_text(
                &x.small_text,
                &y.small_text,
            ) && same_buttons(&x.buttons, &y.buttons);
            proof {
                if !r {
                    assert(x@ != y@);
                }
            }
            r
        },
        (None, None) => true,
        _ => false,
    }
}

/// A presence in one line, for the log: `details | state`, or `Cleared`.
pub open spec fn summary_of(wanted: Option<PresenceView>) -> Seq<char> {
    match wanted {
        None => "Cleared"@,
        Some(f) => {
            let details = match f.details {
                Some(d) => d,
                None => seq![],
            };
            match f.state {
                Some(s) => details + " | "@ + s,
                None => details,
            }
        },
    }
}

pub fn summarize(wanted: &Option<PresenceFields>) -> (r: String)
    ensures
        r@ == summary_of(opt_presence(*wanted)),
{
    let fields = match wanted {
        Some(f) => f,
        None => return String::from_str("Cleared"),
    };
    let mut out = match &fields.details {
        Some(d) => d.clone(),
        None => String::new(),
    };
    match &fields.state {
        Some(s) => {
            push_text(&mut out, " | ");
            push_text(&mut out, s.as_str());
        },
        None => {},
    }
    out
}

// ---------------------------------------------------------------------------
// The status line.
// ---------------------------------------------------------------------------

/// Who is played: the name of the character read, or the configured
/// "Unknown" when it has none; else the profile's main character.
pub open spec fn who_of(config: Config, character: Option<Seq<char>>, profile: Option<Profile>) -> Option<Seq<char>> {
    match character {
        Some(key) => if config.characters@.contains_key(key) {
            Some(config.characters@[key]@)
        } else {
            Some(config.display.unknown@)
        },
        None => match profile {
            Some(p) => match main_of(p.characters@) {
                Some(m) => Some(m.name@),
                None => None,
            },
            None => None,
        },
    }
}

/// The status line's parts: the phase as shown, the server's name, the
/// family, and who is played, each when known.
pub open spec fn status_parts(
    config: Config,
    phase_text: Seq<char>,
    stable: GameStateView,
    family: Option<Seq<char>>,
    character: Option<Seq<char>>,
    profile: Option<Profile>,
) -> Seq<Seq<char>> {
    let p1 = seq![phase_text];
    let p2 = match stable.game_server {
        Some(key) => p1.push(crate::config::server_name_of(config, key)),
        None => p1,
    };
    let p3 = match family {
        Some(f) => p2.push(f),
        None => p2,
    };
    match who_of(config, character, profile) {
        Some(w) => p3.push(w),
        None => p3,
    }
}

/// The line the tray shows while live, its parts joined by `  ·  `; the
/// phase comes as the words it is shown by.
pub fn status_line(
    config: &Config,
    phase_text: &str,
    stable: &GameState,
    family: &Option<String>,
    character: &Option<String>,
    profile: &Option<Profile>,
) -> (r: String)
    ensures
        r@ == join(
            status_parts(*config, phase_text@, stable@, opt_seq(*family), opt_seq(*character), *profile),
            "  ·  "@,
        ),
{
    let mut parts: Vec<String> = Vec::new();
    parts.push(String::from_str(phase_text));
    match &stable.game_server {
        Some(key) => parts.push(config.server_name(key.as_str())),
        None => {},
    }
    match family {
        Some(f) => parts.push(f.clone()),
        None => {},
    }
    let who: Option<String> = match character {
        Some(key) => match config.characters.get(key.as_str()) {
            Some(name) => Some(name.clone()),
            None => Some(config.display.unknown.clone()),
        },
        None => match profile {
            Some(p) => match p.main() {
                Some(m) => Some(m.name.clone()),
                None => None,
            },
            None => None,
        },
    };
    match who {
        Some(w) => parts.push(w),
        None => {},
    }
    proof {
        let want = status_parts(*config, phase_text@, stable@, opt_seq(*family), opt_seq(*character), *profile);
        assert(parts@.map_values(|s: String| s@) =~= want);
    }
    join_texts(&parts, "  ·  ")
}

// ---------------------------------------------------------------------------
// The watcher's cycle.
// ---------------------------------------------------------------------------

/// Whether the config is to be read again: asked for, or the file's
/// modification time is known and differs from the one read.
pub open spec fn reload_due_of(asked: bool, mtime: Option<i128>, known: Option<i128>) -> bool {
    asked || (mtime is Some && mtime != known)
}

pub fn reload_due(asked: bool, mtime: Option<i128>, known: Option<i128>) -> (r: bool)
    ensures
        r == reload_due_of(asked, mtime, known),
{
    let changed = match (mtime, known) {
        (Some(a), Some(b)) => a != b,
        (Some(_), None) => true,
        (None, _) => false,
    };
    asked || changed
}

/// Where a cycle of the watcher stands before it looks at the game.
pub enum Gate {
    /// The config does not parse; nothing runs until it does.
    ConfigError,
    /// Switched off; `just_now` on the first cycle so, when the session is
    /// dropped.
    Disabled { just_now: bool },
    /// Running; `again` on the first cycle after being switched back on.
    Running { again: bool },
}

/// Where a cycle stands, and whether it counts as switched off afterwards.
pub fn gate(loaded: bool, enabled: bool, disabled: bool) -> (r: (Gate, bool))
    ensures
        !loaded ==> r.0 == Gate::ConfigError && r.1 == disabled,
        loaded && !enabled ==> r.0 == (Gate::Disabled { just_now: !disabled }) && r.1,
        loaded && enabled ==> r.0 == (Gate::Running { again: disabled }) && !r.1,
{
    if !loaded {
        (Gate::ConfigError, disabled)
    } else if !enabled {
        (Gate::Disabled { just_now: !disabled }, true)
    } else {
        (Gate::Running { again: disabled }, false)
    }
}

/// The health a cycle ends in: waiting on a config that does not parse,
/// idle when switched off or while no game runs, live with Discord
/// connected, and else waiting for Discord.
pub fn cycle_health(gate: &Gate, game_found: bool, connected: bool) -> (r: Health)
    ensures
        r == match gate {
            Gate::ConfigError => Health::Waiting,
            Gate::Disabled { .. } => Health::Idle,
            Gate::Running { .. } => if !game_found {
                Health::Idle
            } else if connected {
                Health::Live
            } else {
                Health::Waiting
            },
        },
{
    match gate {
        Gate::ConfigError => Health::Waiting,
        Gate::Disabled { .. } => Health::Idle,
        Gate::Running { .. } => if !game_found {
            Health::Idle
        } else if connected {
            Health::Live
        } else {
            Health::Waiting
        },
    }
}

/// What a profile refresh does to its retry schedule: a fetch makes the
/// next failure wait the least again, a failure at `now` waits and doubles
/// the wait, and a skip changes nothing. The seconds waited after a failure.
pub fn record_fetch(retry: &mut Backoff, outcome: Fetch, now: u64) -> (wait: Option<u64>)
    requires
        now <= MAX_CLOCK,
    ensures
        match outcome {
            Fetch::Skipped => wait is None && final(retry)@ == old(retry)@,
            Fetch::Fetched => wait is None && final(retry)@ == (BackoffView { secs: old(retry)@.min, ..old(retry)@ }),
            Fetch::Failed => wait == Some(old(retry)@.secs)
                && final(retry)@ == (BackoffView { secs: doubled(old(retry)@), ..held(old(retry)@, now) }),
        },
{
    match outcome {
        Fetch::Skipped => None,
        Fetch::Fetched => {
            retry.succeeded();
            None
        },
        Fetch::Failed => Some(retry.failed(now)),
    }
}

/// What a push leaves behind: once Discord took it, what was sent and when;
/// once it refused, nothing counts as sent and reconnecting waits the
/// present wait from `now`.
pub fn record_push(
    last_sent: &mut Option<PresenceFields>,
    last_push: &mut Option<u64>,
    retry: &mut Backoff,
    wanted: Option<PresenceFields>,
    taken: bool,
    now: u64,
)
    requires
        now <= MAX_CLOCK,
    ensures
        taken ==> *final(last_sent) == wanted && *final(last_push) == Some(now) && final(retry)@ == old(retry)@,
        !taken ==> *final(last_sent) is None && *final(last_push) == *old(last_push) && final(retry)@ == held(old(retry)@, now),
{
    if taken {
        *last_sent = wanted;
        *last_push = Some(now);
    } else {
        *last_sent = None;
        retry.hold(now);
    }
}

/// Whether the family name is looked for again: none is known yet, the
/// family is shown, and the last look, if any, is half a minute old.
pub open spec fn family_check_due_of(known: bool, show_family: bool, last: Option<u64>, now: u64) -> bool {
    !known && show_family && match last {
        Some(t) => elapsed_secs(t, now) >= FAMILY_RECHECK_SECS,
        None => true,
    }
}

pub fn family_check_due(known: bool, show_family: bool, last: Option<u64>, now: u64) -> (r: bool)
    ensures
        r == family_check_due_of(known, show_family, last, now),
{
    let due = match last {
        Some(t) => elapsed_whole_secs(t, now) >= FAMILY_RECHECK_SECS,
        None => true,
    };
    !known && show_family && due
}


// ---------------------------------------------------------------------------
// What the overview shows.
// ---------------------------------------------------------------------------

/// A character as the overview describes it.
pub struct Described {
    pub name: String,
    pub class: String,
    pub level: Option<u32>,
}

/// The character played, as the overview shows it: its key, the name the
/// user gave it, whether that name is missing from the profile, and the
/// profile's entry for it.
pub struct CharacterRow {
    pub key: String,
    pub name: Option<String>,
    pub not_on_profile: bool,
    pub entry: Option<Described>,
}

/// What the overview shows of the game, the session and the player; the
/// windows put it into words.
pub struct Overview {
    pub folder: Option<String>,
    pub region: Option<String>,
    pub log_file: Option<String>,
    pub phase: Option<Phase>,
    pub phase_since: Option<i64>,
    pub session_start: Option<i64>,
    pub server: Option<(String, Option<String>)>,
    pub family: Option<String>,
    pub character: Option<CharacterRow>,
    pub main: Option<Described>,
    pub main_energy: Option<String>,
    pub guild: Option<String>,
    pub gear_score: Option<String>,
    pub contribution: Option<String>,
    pub created: Option<String>,
    pub fetched_at: Option<i64>,
    pub life_skills: Vec<Option<String>>,
}

pub open spec fn described_view(d: Described) -> (Seq<char>, Seq<char>, Option<u32>) {
    (d.name@, d.class@, d.level)
}

pub open spec fn opt_described(d: Option<Described>) -> Option<(Seq<char>, Seq<char>, Option<u32>)> {
    match d {
        Some(x) => Some(described_view(x)),
        None => None,
    }
}

pub open spec fn character_described(c: Option<Character>) -> Option<(Seq<char>, Seq<char>, Option<u32>)> {
    match c {
        Some(x) => Some((x.name@, x.class@, x.level)),
        None => None,
    }
}

fn describe(c: &Character) -> (r: Described)
    ensures
        described_view(r) == (c.name@, c.class@, c.level),
{
    Described { name: c.name.clone(), class: c.class.clone(), level: c.level }
}

fn profile_field(profile: &Option<Profile>, pick: u8) -> (r: Option<String>)
    ensures
        opt_seq(r) == match profile {
            Some(p) => opt_seq(
                if pick == 0 { p.energy } else if pick == 1 { p.guild } else if pick == 2 { p.gear_score } else if pick == 3 { p.contribution } else { p.created },
            ),
            None => None,
        },
{
    match profile {
        Some(p) => copy_text(
            if pick == 0 { &p.energy } else if pick == 1 { &p.guild } else if pick == 2 { &p.gear_score } else if pick == 3 { &p.contribution } else { &p.created },
        ),
        None => None,
    }
}

/// The game as the overview knows it: its folder, its service region, and
/// the name of the log file followed.
pub struct GameView {
    pub root: String,
    pub service: Option<String>,
    pub log_file: Option<String>,
}

/// What the overview shows. The region shows only while the game runs.
pub fn overview(
    config: &Config,
    regions: &Regions,
    game: &Option<GameView>,
    session: &Session,
    family: &Option<String>,
    unmatched: &Option<String>,
    profile: &Option<Profile>,
) -> (r: Overview)
    ensures
        opt_seq(r.folder) == match game { Some(g) => Some(g.root@), None => None },
        opt_seq(r.region) == match game {
            Some(g) => resolve_region_of(*config, *regions, opt_seq(g.service)),
            None => None,
        },
        opt_seq(r.log_file) == match game { Some(g) => opt_seq(g.log_file), None => None },
        r.phase == session@.stable.phase,
        r.phase_since == session@.stable.phase_since,
        r.session_start == session@.stable.session_start,
        match r.server {
            Some((key, name)) => session@.stable.game_server == Some(key@) && opt_seq(name) == (
                if config.servers@.contains_key(key@) { Some(config.servers@[key@]@) } else { None }),
            None => session@.stable.game_server is None,
        },
        opt_seq(r.family) == opt_seq(*family),
        match r.character {
            Some(row) => {
                &&& session@.character == Some(row.key@)
                &&& opt_seq(row.name) == if config.characters@.contains_key(row.key@) {
                    Some(config.characters@[row.key@]@)
                } else {
                    None
                }
                &&& row.not_on_profile == (row.name is Some && opt_seq(*unmatched) == opt_seq(row.name))
                &&& opt_described(row.entry) == match (row.name, profile) {
                    (Some(n), Some(p)) => if row.not_on_profile { None } else { character_described(named_of(p.characters@, n@)) },
                    _ => None,
                }
            },
            None => session@.character is None,
        },
        opt_described(r.main) == match profile { Some(p) => character_described(main_of(p.characters@)), None => None },
        opt_seq(r.main_energy) == match profile { Some(p) => opt_seq(p.energy), None => None },
        opt_seq(r.guild) == match profile { Some(p) => opt_seq(p.guild), None => None },
        opt_seq(r.gear_score) == match profile { Some(p) => opt_seq(p.gear_score), None => None },
        opt_seq(r.contribution) == match profile { Some(p) => opt_seq(p.contribution), None => None },
        opt_seq(r.created) == match profile { Some(p) => opt_seq(p.created), None => None },
        r.fetched_at == match profile { Some(p) => Some(p.fetched_at), None => None::<i64> },
        r.life_skills@.len() == 11,
        forall|i: int| 0 <= i < 11 ==> opt_seq(#[trigger] r.life_skills@[i]) == match profile {
            Some(p) => if p.life_skills@.contains_key(crate::profile::life_skill_names()[i]) {
                Some(p.life_skills@[crate::profile::life_skill_names()[i]]@)
            } else {
                None
            },
            None => None,
        },
{
    let (folder, region, log_file) = match game {
        Some(g) => {
            let service = match &g.service {
                Some(s) => Some(s.as_str()),
                None => None,
            };
            (Some(g.root.clone()), resolve_region(config, regions, service), copy_text(&g.log_file))
        },
        None => (None, None, None),
    };
    let stable = &session.stable;
    let server = match &stable.game_server {
        Some(key) => Some((key.clone(), copy_text(&match config.servers.get(key.as_str()) {
            Some(n) => Some(n.clone()),
            None => None,
        }))),
        None => None,
    };
    let character = match &session.character {
        Some(key) => {
            let name = match config.characters.get(key.as_str()) {
                Some(n) => Some(n.clone()),
                None => None,
            };
            let not_on_profile = name.is_some() && same_text(unmatched, &name);
            let entry = match (&name, profile) {
                (Some(n), Some(p)) => if not_on_profile {
                    None
                } else {
                    match p.character(n.as_str()) {
                        Some(c) => Some(describe(c)),
                        None => None,
                    }
                },
                _ => None,
            };
            Some(CharacterRow { key: key.clone(), name, not_on_profile, entry })
        },
        None => None,
    };
    let main = match profile {
        Some(p) => match p.main() {
            Some(m) => Some(describe(m)),
            None => None,
        },
        None => None,
    };
    let names = crate::profile::life_skills();
    let mut skills: Vec<Option<String>> = Vec::new();
    let mut i: usize = 0;
    while i < 11
        invariant
            i <= 11,
            names@.len() == 11,
            forall|k: int| 0 <= k < 11 ==> #[trigger] names@[k]@ == crate::profile::life_skill_names()[k],
            skills@.len() == i,
            forall|k: int| 0 <= k < i ==> opt_seq(#[trigger] skills@[k]) == match profile {
                Some(p) => if p.life_skills@.contains_key(crate::profile::life_skill_names()[k]) {
                    Some(p.life_skills@[crate::profile::life_skill_names()[k]]@)
                } else {
                    None
                },
                None => None,
            },
        decreases 11 - i,
    {
        let grade = match profile {
            Some(p) => match p.life_skills.get(names[i]) {
                Some(g) => Some(g.clone()),
                None => None,
            },
            None => None,
        };
        skills.push(grade);
        i += 1;
    }
    Overview {
        folder,
        region,
        log_file,
        phase: stable.phase,
        phase_since: stable.phase_since,
        session_start: stable.session_start,
        server,
        family: copy_text(family),
        character,
        main,
        main_energy: profile_field(profile, 0),
        guild: profile_field(profile, 1),
        gear_score: profile_field(profile, 2),
        contribution: profile_field(profile, 3),
        created: profile_field(profile, 4),
        fetched_at: match profile {
            Some(p) => Some(p.fetched_at),
            None => None,
        },
        life_skills: skills,
    }
}


/// With no debounce, a look settles on what the log says at once.
pub proof fn lemma_debounce_zero(s: SessionView, now: u64)
    ensures
        debounced(s, now, 0).stable == s.state,
{
}

/// Whatever the debounce, the session's start is always the log's.
pub proof fn lemma_session_start_follows(s: SessionView, now: u64, debounce: u64)
    ensures
        debounced(s, now, debounce).stable.session_start == s.state.session_start,
{
}

/// A key asked about once is not asked about again.
pub proof fn lemma_asked_once(in_table: bool, prompted: Map<Seq<char>, bool>, key: Seq<char>)
    ensures
        !in_table ==> prompted.insert(key, true).contains_key(key),
{
}

} // verus!
