//! What Discord is shown: the placeholders a template can use, how a
//! template is filled in, and the presence a phase yields.
use vstd::prelude::*;
use crate::config::{Config, PhaseConfigView, phase_view_of, server_name_of};
use crate::keymap::text_eq;
use crate::log_tail::GameState;
use crate::phase::key_of;
use crate::profile::{Character, Profile, main_of, named_of};
use crate::text::{char_is_space, chars_of, collapse, contains, decimal, is_blank, starts_with, find_char, find_char_from, first_at, is_space, string_of, string_of_range};

verus! {

/// The values a template's placeholders stand for.
pub struct Context {
    pub family: String,
    pub region: String,
    pub server: String,
    pub phase: String,
    pub character: String,
    pub class: String,
    pub level: String,
    pub class_image: String,
    pub main_character: String,
    pub main_class: String,
    pub main_level: String,
    pub main_class_image: String,
    pub guild: String,
    pub gear_score: String,
    pub energy: String,
    pub contribution: String,
    pub profile_url: String,
}

pub struct ContextView {
    pub family: Seq<char>,
    pub region: Seq<char>,
    pub server: Seq<char>,
    pub phase: Seq<char>,
    pub character: Seq<char>,
    pub class: Seq<char>,
    pub level: Seq<char>,
    pub class_image: Seq<char>,
    pub main_character: Seq<char>,
    pub main_class: Seq<char>,
    pub main_level: Seq<char>,
    pub main_class_image: Seq<char>,
    pub guild: Seq<char>,
    pub gear_score: Seq<char>,
    pub energy: Seq<char>,
    pub contribution: Seq<char>,
    pub profile_url: Seq<char>,
}

impl View for Context {
    type V = ContextView;

    open spec fn view(&self) -> ContextView {
        ContextView {
            family: self.family@,
            region: self.region@,
            server: self.server@,
            phase: self.phase@,
            character: self.character@,
            class: self.class@,
            level: self.level@,
            class_image: self.class_image@,
            main_character: self.main_character@,
            main_class: self.main_class@,
            main_level: self.main_level@,
            main_class_image: self.main_class_image@,
            guild: self.guild@,
            gear_score: self.gear_score@,
            energy: self.energy@,
            contribution: self.contribution@,
            profile_url: self.profile_url@,
        }
    }
}

/// The placeholders, in the order the settings list them.
pub open spec fn placeholder_names() -> Seq<Seq<char>> {
    seq![
        "family"@, "region"@, "server"@, "phase"@, "character"@, "class"@, "level"@,
        "class_image"@, "main_character"@, "main_class"@, "main_class_image"@, "main_level"@,
        "guild"@, "gear_score"@, "energy"@, "contribution"@, "profile_url"@,
    ]
}

/// What a placeholder stands for, if `name` is one.
pub open spec fn placeholder_value(c: ContextView, name: Seq<char>) -> Option<Seq<char>> {
    if name == "family"@ { Some(c.family) }
    else if name == "region"@ { Some(c.region) }
    else if name == "server"@ { Some(c.server) }
    else if name == "phase"@ { Some(c.phase) }
    else if name == "character"@ { Some(c.character) }
    else if name == "class"@ { Some(c.class) }
    else if name == "level"@ { Some(c.level) }
    else if name == "class_image"@ { Some(c.class_image) }
    else if name == "main_character"@ { Some(c.main_character) }
    else if name == "main_class"@ { Some(c.main_class) }
    else if name == "main_class_image"@ { Some(c.main_class_image) }
    else if name == "main_level"@ { Some(c.main_level) }
    else if name == "guild"@ { Some(c.guild) }
    else if name == "gear_score"@ { Some(c.gear_score) }
    else if name == "energy"@ { Some(c.energy) }
    else if name == "contribution"@ { Some(c.contribution) }
    else if name == "profile_url"@ { Some(c.profile_url) }
    else { None }
}

pub open spec fn is_placeholder_name(name: Seq<char>) -> bool {
    placeholder_names().contains(name)
}

/// The names of the placeholders, in the order the settings list them.
pub fn placeholder_list() -> (r: Vec<&'static str>)
    ensures
        r@.len() == placeholder_names().len(),
        forall|i: int| 0 <= i < r@.len() ==> (#[trigger] r@[i])@ == placeholder_names()[i],
{
    let r = vec![
        "family", "region", "server", "phase", "character", "class", "level", "class_image",
        "main_character", "main_class", "main_class_image", "main_level", "guild", "gear_score",
        "energy", "contribution", "profile_url",
    ];
    assert forall|i: int| 0 <= i < r@.len() implies (#[trigger] r@[i])@ == placeholder_names()[i] by {
        assert(r@[i] == r[i]);
    }
    r
}

/// What a placeholder stands for in `ctx`, if `name` is one.
pub fn placeholder_of<'a>(ctx: &'a Context, name: &str) -> (r: Option<&'a String>)
    ensures
        r matches Some(v) ==> placeholder_value(ctx@, name@) == Some(v@),
        r is None ==> placeholder_value(ctx@, name@) is None,
{
    if text_eq(name, "family") { Some(&ctx.family) }
    else if text_eq(name, "region") { Some(&ctx.region) }
    else if text_eq(name, "server") { Some(&ctx.server) }
    else if text_eq(name, "phase") { Some(&ctx.phase) }
    else if text_eq(name, "character") { Some(&ctx.character) }
    else if text_eq(name, "class") { Some(&ctx.class) }
    else if text_eq(name, "level") { Some(&ctx.level) }
    else if text_eq(name, "class_image") { Some(&ctx.class_image) }
    else if text_eq(name, "main_character") { Some(&ctx.main_character) }
    else if text_eq(name, "main_class") { Some(&ctx.main_class) }
    else if text_eq(name, "main_class_image") { Some(&ctx.main_class_image) }
    else if text_eq(name, "main_level") { Some(&ctx.main_level) }
    else if text_eq(name, "guild") { Some(&ctx.guild) }
    else if text_eq(name, "gear_score") { Some(&ctx.gear_score) }
    else if text_eq(name, "energy") { Some(&ctx.energy) }
    else if text_eq(name, "contribution") { Some(&ctx.contribution) }
    else if text_eq(name, "profile_url") { Some(&ctx.profile_url) }
    else { None }
}

/// Whether a template may use `{name}`.
pub fn is_placeholder(name: &str) -> (r: bool)
    ensures
        r == is_placeholder_name(name@),
{
    let names = placeholder_list();
    let mut i: usize = 0;
    while i < names.len()
        invariant
            i <= names@.len(),
            names@.len() == placeholder_names().len(),
            forall|k: int| 0 <= k < names@.len() ==> (#[trigger] names@[k])@ == placeholder_names()[k],
            forall|k: int| 0 <= k < i ==> placeholder_names()[k] != name@,
        decreases names@.len() - i,
    {
        if text_eq(names[i], name) {
            assert(placeholder_names()[i as int] == name@);
            return true;
        }
        i += 1;
    }
    proof {
        if placeholder_names().contains(name@) {
            let k = choose|k: int| 0 <= k < placeholder_names().len() && placeholder_names()[k] == name@;
            assert(placeholder_names()[k] != name@);
        }
    }
    false
}

pub proof fn lemma_find_char_bounds(t: Seq<char>, c: char)
    ensures
        find_char(t, c) matches Some(i) ==> 0 <= i < t.len() && t[i] == c,
{
    if let Some(i) = find_char(t, c) {
        assert(first_at(t, seq![c], i));
        assert(t.subrange(i, i + 1)[0] == t[i]);
    }
}

/// A template with each `{placeholder}` replaced by its value. A `{name}`
/// that is no placeholder stays as written, and from an `{` that no `}`
/// closes the rest stays as written.
pub open spec fn substitute(t: Seq<char>, c: ContextView) -> Seq<char>
    decreases t.len(),
{
    match find_char(t, '{') {
        None => t,
        Some(open) => {
            let after = t.subrange(open, t.len() as int);
            match find_char(after, '}') {
                None => t,
                Some(close) => {
                    proof {
                        lemma_find_char_bounds(t, '{');
                        lemma_find_char_bounds(after, '}');
                    }
                    let name = after.subrange(1, close);
                    let piece = match placeholder_value(c, name) {
                        Some(v) => v,
                        None => after.take(close + 1),
                    };
                    t.take(open) + piece + substitute(after.skip(close + 1), c)
                }
            }
        }
    }
}

pub open spec fn is_separator(c: char) -> bool {
    c == '-' || c == ':' || c == '|' || c == ','
}

/// Characters that carry text: neither whitespace nor a separator.
pub open spec fn is_content(c: char) -> bool {
    !is_space(c) && !is_separator(c)
}

pub open spec fn drop_front(t: Seq<char>) -> Seq<char>
    decreases t.len(),
{
    if t.len() > 0 && !is_content(t[0]) {
        drop_front(t.drop_first())
    } else {
        t
    }
}

pub open spec fn drop_back(t: Seq<char>) -> Seq<char>
    decreases t.len(),
{
    if t.len() > 0 && !is_content(t.last()) {
        drop_back(t.drop_last())
    } else {
        t
    }
}

/// Text with its whitespace collapsed and the separators and spaces that
/// lead or trail the words cut off, so a template whose placeholders came
/// out empty does not show a dangling "-".
pub open spec fn tidy(text: Seq<char>) -> Seq<char> {
    drop_back(drop_front(collapse(text)))
}

/// A template filled in from `c`, then tidied.
pub open spec fn expand_view(t: Seq<char>, c: ContextView) -> Seq<char> {
    tidy(substitute(t, c))
}

/// `split_whitespace().join(" ")`.
pub fn collapse_chars(v: &[char]) -> (r: Vec<char>)
    ensures
        r@ == collapse(v@),
{
    let mut out: Vec<char> = Vec::new();
    let mut i: usize = 0;
    assert(v@.take(0) == Seq::<char>::empty());
    while i < v.len()
        invariant
            i <= v@.len(),
            out@ == collapse(v@.take(i as int)),
        decreases v@.len() - i,
    {
        let c = v[i];
        proof {
            let t = v@.take(i + 1);
            assert(t.drop_last() == v@.take(i as int));
            assert(t.last() == c);
            if i >= 1 {
                assert(t[t.len() - 2] == v@[i - 1]);
            }
        }
        if char_is_space(c) {
        } else if i >= 1 && !char_is_space(v[i - 1]) {
            out.push(c);
        } else if out.len() == 0 {
            out.push(c);
        } else {
            out.push(' ');
            out.push(c);
        }
        i += 1;
    }
    assert(v@.take(v@.len() as int) == v@);
    out
}

/// The words of a string joined by single spaces.
pub fn collapse_text(s: &str) -> (r: String)
    ensures
        r@ == collapse(s@),
{
    let v = chars_of(s);
    let c = collapse_chars(v.as_slice());
    string_of(c.as_slice())
}

fn char_is_content(c: char) -> (r: bool)
    ensures
        r == is_content(c),
{
    !char_is_space(c) && !(c == '-' || c == ':' || c == '|' || c == ',')
}

/// Where the text of `v` starts and ends once the non-content characters
/// on either side are cut off.
fn content_bounds(v: &[char]) -> (r: (usize, usize))
    ensures
        r.0 <= r.1 <= v@.len(),
        v@.subrange(r.0 as int, r.1 as int) == drop_back(drop_front(v@)),
{
    let n = v.len();
    let mut i: usize = 0;
    assert(v@.subrange(0, n as int) == v@);
    while i < n && !char_is_content(v[i])
        invariant
            0 <= i <= n == v@.len(),
            drop_front(v@) == drop_front(v@.subrange(i as int, n as int)),
        decreases n - i,
    {
        proof {
            let t = v@.subrange(i as int, n as int);
            assert(t.drop_first() == v@.subrange(i + 1, n as int));
        }
        i += 1;
    }
    let ghost t = v@.subrange(i as int, n as int);
    assert(drop_front(v@) == t) by {
        if i < n {
            assert(t[0] == v@[i as int]);
        }
    }
    let mut j: usize = n;
    assert(t.take(t.len() as int) == t);
    while j > i && !char_is_content(v[j - 1])
        invariant
            i <= j <= n == v@.len(),
            t == v@.subrange(i as int, n as int),
            drop_back(t) == drop_back(t.take(j - i)),
        decreases j,
    {
        proof {
            assert(t[j - 1 - i] == v@[j - 1]);
            assert(t.take(j - i).drop_last() == t.take(j - 1 - i));
        }
        j -= 1;
    }
    assert(t.take(j - i) == v@.subrange(i as int, j as int));
    proof {
        if j > i {
            assert(t.take(j - i).last() == v@[j - 1]);
        }
    }
    (i, j)
}

/// Tidies text for display: whitespace collapsed, and leading or trailing
/// separators dropped.
pub fn tidy_text(v: &[char]) -> (r: String)
    ensures
        r@ == tidy(v@),
{
    let c = collapse_chars(v);
    let (a, b) = content_bounds(c.as_slice());
    string_of_range(c.as_slice(), a, b)
}

fn append_range(out: &mut Vec<char>, v: &[char], from: usize, to: usize)
    requires
        from <= to <= v@.len(),
    ensures
        final(out)@ == old(out)@ + v@.subrange(from as int, to as int),
{
    let mut i = from;
    while i < to
        invariant
            from <= i <= to <= v@.len(),
            out@ == old(out)@ + v@.subrange(from as int, i as int),
        decreases to - i,
    {
        out.push(v[i]);
        assert(v@.subrange(from as int, i + 1) == v@.subrange(from as int, i as int).push(v@[i as int]));
        i += 1;
    }
}

fn append_text(out: &mut Vec<char>, s: &str)
    ensures
        final(out)@ == old(out)@ + s@,
{
    let v = chars_of(s);
    append_range(out, v.as_slice(), 0, v.len());
    assert(v@.subrange(0, v@.len() as int) == v@);
}

/// Fills in a template's placeholders from `ctx`, then tidies the result.
pub fn expand(template: &str, ctx: &Context) -> (r: String)
    ensures
        r@ == expand_view(template@, ctx@),
{
    let v = chars_of(template);
    let n = v.len();
    let mut out: Vec<char> = Vec::new();
    let mut pos: usize = 0;
    assert(v@.subrange(0, n as int) == v@);
    loop
        invariant_except_break
            n == v@.len(),
            pos <= n,
            v@ == template@,
            out@ + substitute(v@.subrange(pos as int, n as int), ctx@) == substitute(template@, ctx@),
        ensures
            out@ == substitute(template@, ctx@),
        decreases n - pos,
    {
        let ghost t = v@.subrange(pos as int, n as int);
        match find_char_from(v.as_slice(), pos, '{') {
            None => {
                let ghost before = out@;
                append_range(&mut out, v.as_slice(), pos, n);
                assert(substitute(t, ctx@) == t);
                assert(out@ == before + t);
                break;
            },
            Some(open) => {
                let ghost after = t.subrange(open - pos, t.len() as int);
                assert(after == v@.subrange(open as int, n as int));
                match find_char_from(v.as_slice(), open, '}') {
                    None => {
                        let ghost before = out@;
                        append_range(&mut out, v.as_slice(), pos, n);
                        assert(substitute(t, ctx@) == t);
                        assert(out@ == before + t);
                        break;
                    },
                    Some(close) => {
                        proof {
                            lemma_find_char_bounds(t, '{');
                            lemma_find_char_bounds(after, '}');
                            assert(close > open);
                        }
                        append_range(&mut out, v.as_slice(), pos, open);
                        let name = string_of_range(v.as_slice(), open + 1, close);
                        proof {
                            assert(t.take(open - pos) == v@.subrange(pos as int, open as int));
                            assert(after.subrange(1, close - open) == v@.subrange(open + 1, close as int));
                            assert(after.take(close - open + 1) == v@.subrange(open as int, close + 1));
                            assert(after.skip(close - open + 1) == v@.subrange(close + 1, n as int));
                        }
                        match placeholder_of(ctx, name.as_str()) {
                            Some(value) => append_text(&mut out, value.as_str()),
                            None => append_range(&mut out, v.as_slice(), open, close + 1),
                        }
                        pos = close + 1;
                    },
                }
            },
        }
    }
    assert(out@ == substitute(template@, ctx@));
    tidy_text(out.as_slice())
}


/// The presence Discord is asked to show.
pub struct PresenceFields {
    pub details: Option<String>,
    pub state: Option<String>,
    pub start: Option<i64>,
    pub large_image: Option<String>,
    pub large_text: Option<String>,
    pub small_image: Option<String>,
    pub small_text: Option<String>,
    pub buttons: Vec<(String, String)>,
}

pub struct PresenceView {
    pub details: Option<Seq<char>>,
    pub state: Option<Seq<char>>,
    pub start: Option<i64>,
    pub large_image: Option<Seq<char>>,
    pub large_text: Option<Seq<char>>,
    pub small_image: Option<Seq<char>>,
    pub small_text: Option<Seq<char>>,
    pub buttons: Seq<(Seq<char>, Seq<char>)>,
}

pub open spec fn opt_view(o: Option<String>) -> Option<Seq<char>> {
    match o {
        Some(s) => Some(s@),
        None => None,
    }
}

impl View for PresenceFields {
    type V = PresenceView;

    open spec fn view(&self) -> PresenceView {
        PresenceView {
            details: opt_view(self.details),
            state: opt_view(self.state),
            start: self.start,
            large_image: opt_view(self.large_image),
            large_text: opt_view(self.large_text),
            small_image: opt_view(self.small_image),
            small_text: opt_view(self.small_text),
            buttons: self.buttons@.map_values(|b: (String, String)| (b.0@, b.1@)),
        }
    }
}

/// The most characters a button's label may have.
pub const BUTTON_LABEL_MAX: usize = 32;
/// The most bytes a button's URL may have.
pub const BUTTON_URL_MAX: usize = 512;

/// A web address Discord accepts for a button.
pub open spec fn button_url_ok(url: Seq<char>) -> bool {
    &&& vstd::utf8::encode_utf8(url).len() <= 512
    &&& (starts_with(url, "https://"@) || starts_with(url, "http://"@))
}

/// Whether Discord takes `url` for a button: http or https, and 512 bytes at most.
pub fn is_button_url(url: &str) -> (r: bool)
    ensures
        r == button_url_ok(url@),
{
    url.as_bytes().len() <= BUTTON_URL_MAX && (crate::text::text_starts_with(url, "https://")
        || crate::text::text_starts_with(url, "http://"))
}

/// A button with its label and URL filled in, if Discord would take it:
/// a label of 1 to 32 characters and a usable URL. One bad button makes
/// Discord refuse the whole presence, so a bad one is left out.
pub open spec fn button_view(label: Seq<char>, url: Seq<char>, c: ContextView) -> Option<(Seq<char>, Seq<char>)> {
    let l = expand_view(label, c);
    let u = expand_view(url, c);
    if l.len() > 0 && l.len() <= 32 && button_url_ok(u) {
        Some((l, u))
    } else {
        None
    }
}

fn button(label: &str, url: &str, ctx: &Context) -> (r: Option<(String, String)>)
    ensures
        match r {
            Some(b) => button_view(label@, url@, ctx@) == Some((b.0@, b.1@)),
            None => button_view(label@, url@, ctx@) is None,
        },
{
    let label = expand(label, ctx);
    let url = expand(url, ctx);
    let count = chars_of(label.as_str()).len();
    let fits = count > 0 && count <= BUTTON_LABEL_MAX;
    if fits && is_button_url(url.as_str()) {
        Some((label, url))
    } else {
        None
    }
}

/// A value worth showing: two characters at least.
pub open spec fn usable_view(v: Seq<char>) -> Option<Seq<char>> {
    if v.len() >= 2 { Some(v) } else { None }
}

fn usable(value: String) -> (r: Option<String>)
    ensures
        opt_view(r) == usable_view(value@),
{
    if chars_of(value.as_str()).len() >= 2 {
        Some(value)
    } else {
        None
    }
}

/// When the elapsed timer counts from.
pub open spec fn start_of(mode: Seq<char>, state: GameState) -> Option<i64> {
    if mode == "session"@ {
        state.session_start
    } else if mode == "phase"@ {
        state.phase_since
    } else {
        None
    }
}

/// The presence a phase yields: nothing before a phase is known or for a
/// phase that is not reported; otherwise its texts filled in, with the game
/// icon and name standing in for a large image that came out empty (and its
/// caption dropped with it, if the image was asked for), the game icon as
/// the small image otherwise, and the buttons Discord would take.
pub open spec fn build_view(config: Config, state: GameState, c: ContextView) -> Option<PresenceView> {
    match state.phase {
        None => None,
        Some(phase) => {
            let pc = phase_view_of(config, phase);
            if !pc.report {
                None
            } else {
                let large_image = usable_view(expand_view(pc.large_image, c));
                let large_text = usable_view(expand_view(pc.large_text, c));
                let small_image = usable_view(expand_view(pc.small_image, c));
                let game_icon = usable_view(expand_view(config.display.game_icon@, c));
                let (large_image, large_text, small_image) = if large_image is None {
                    let kept = if !is_blank(pc.large_image) { None } else { large_text };
                    (game_icon, if kept is Some { kept } else { Some("Black Desert"@) }, small_image)
                } else {
                    (large_image, large_text, if small_image is Some { small_image } else { game_icon })
                };
                let first = button_view(pc.button_label, pc.button_url, c);
                let second = button_view(pc.second_button_label, pc.second_button_url, c);
                let buttons = match (first, second) {
                    (Some(a), Some(b)) => seq![a, b],
                    (Some(a), None) => seq![a],
                    (None, Some(b)) => seq![b],
                    (None, None) => seq![],
                };
                Some(PresenceView {
                    details: usable_view(expand_view(pc.details, c)),
                    state: usable_view(expand_view(pc.state, c)),
                    start: start_of(config.display.timer_mode@, state),
                    large_image,
                    large_text,
                    small_image,
                    small_text: usable_view(expand_view(pc.small_text, c)),
                    buttons,
                })
            }
        },
    }
}

/// The presence the current phase yields, or `None` when nothing is to be shown.
pub fn build(config: &Config, state: &GameState, ctx: &Context) -> (r: Option<PresenceFields>)
    ensures
        match r {
            Some(f) => build_view(*config, *state, ctx@) == Some(f@),
            None => build_view(*config, *state, ctx@) is None,
        },
{
    let phase = match state.phase {
        Some(p) => p,
        None => return None,
    };
    let pc = config.phase(phase);
    if !pc.report {
        return None;
    }
    let start = if text_eq(config.display.timer_mode.as_str(), "session") {
        state.session_start
    } else if text_eq(config.display.timer_mode.as_str(), "phase") {
        state.phase_since
    } else {
        None
    };
    let mut large_image = usable(expand(pc.large_image.as_str(), ctx));
    let mut large_text = usable(expand(pc.large_text.as_str(), ctx));
    let mut small_image = usable(expand(pc.small_image.as_str(), ctx));
    let game_icon = usable(expand(config.display.game_icon.as_str(), ctx));
    if large_image.is_none() {
        if !crate::text::blank(pc.large_image.as_str()) {
            large_text = None;
        }
        large_image = game_icon;
        if large_text.is_none() {
            large_text = Some(String::from_str("Black Desert"));
        }
    } else if small_image.is_none() {
        small_image = game_icon;
    }
    let mut buttons: Vec<(String, String)> = Vec::new();
    let first = button(pc.button_label.as_str(), pc.button_url.as_str(), ctx);
    let second = button(pc.second_button_label.as_str(), pc.second_button_url.as_str(), ctx);
    if let Some(b) = first {
        buttons.push(b);
    }
    if let Some(b) = second {
        buttons.push(b);
    }
    let r = PresenceFields {
        details: usable(expand(pc.details.as_str(), ctx)),
        state: usable(expand(pc.state.as_str(), ctx)),
        start,
        large_image,
        large_text,
        small_image,
        small_text: usable(expand(pc.small_text.as_str(), ctx)),
        buttons,
    };
    proof {
        let bv = build_view(*config, *state, ctx@).unwrap();
        assert(r@.buttons =~= bv.buttons);
    }
    Some(r)
}


pub open spec fn text_or_empty(o: Option<String>) -> Seq<char> {
    match o {
        Some(s) => s@,
        None => seq![],
    }
}

pub open spec fn profile_main(profile: Option<Profile>) -> Option<Character> {
    match profile {
        Some(p) => main_of(p.characters@),
        None => None,
    }
}

/// The character key the presence goes by: the one detected, when
/// characters are shown.
pub open spec fn detected_of(config: Config, character: Option<Seq<char>>) -> Option<Seq<char>> {
    if config.identity.show_character { character } else { None }
}

/// The name the user gave the detected character.
pub open spec fn named_key(config: Config, detected: Option<Seq<char>>) -> Option<Seq<char>> {
    match detected {
        Some(key) => if config.characters@.contains_key(key) {
            Some(config.characters@[key]@)
        } else {
            None
        },
        None => None,
    }
}

/// The character whose class and level are shown: the detected one as the
/// profile lists it under its given name, or the main one when none was
/// detected. A detected character never borrows the main's details.
pub open spec fn current_of(config: Config, detected: Option<Seq<char>>, profile: Option<Profile>) -> Option<Character> {
    match detected {
        Some(_) => match (named_key(config, detected), profile) {
            (Some(name), Some(p)) => named_of(p.characters@, name),
            _ => None,
        },
        None => profile_main(profile),
    }
}

/// A detail of the current character: for a detected character a missing
/// one reads as the configured "Unknown", otherwise as empty.
pub open spec fn known_of(config: Config, detected: Option<Seq<char>>, value: Option<Seq<char>>) -> Seq<char> {
    match (detected, value) {
        (_, Some(v)) => v,
        (Some(_), None) => config.display.unknown@,
        (None, None) => seq![],
    }
}

pub open spec fn level_text(level: Option<u32>) -> Option<Seq<char>> {
    match level {
        Some(l) => Some(decimal(l as nat)),
        None => None,
    }
}

/// What each placeholder stands for, from the config's choices of what to
/// show, the session so far and the profile.
pub open spec fn context_view(
    config: Config,
    state: GameState,
    family: Option<Seq<char>>,
    region: Seq<char>,
    character: Option<Seq<char>>,
    profile: Option<Profile>,
) -> ContextView {
    let main = profile_main(profile);
    let detected = detected_of(config, character);
    let current = current_of(config, detected, profile);
    ContextView {
        family: if config.identity.show_family {
            match family {
                Some(f) => f,
                None => match profile {
                    Some(p) => text_or_empty(p.family),
                    None => seq![],
                },
            }
        } else {
            seq![]
        },
        region: if config.display.show_region { region } else { seq![] },
        server: match (config.display.show_server, state.game_server) {
            (true, Some(host)) => server_name_of(config, host@),
            _ => seq![],
        },
        phase: match state.phase {
            Some(p) => key_of(p),
            None => seq![],
        },
        character: match detected {
            Some(_) => known_of(config, detected, named_key(config, detected)),
            None => if config.identity.show_character {
                match main { Some(m) => m.name@, None => seq![] }
            } else {
                seq![]
            },
        },
        class: known_of(config, detected, match current {
            Some(c) => if c.class@.len() > 0 { Some(c.class@) } else { None },
            None => None,
        }),
        level: known_of(config, detected, match current {
            Some(c) => level_text(c.level),
            None => None,
        }),
        class_image: match current {
            Some(c) => text_or_empty(c.class_image),
            None => seq![],
        },
        main_character: if config.identity.show_character {
            match main { Some(m) => m.name@, None => seq![] }
        } else {
            seq![]
        },
        main_class: match main { Some(m) => m.class@, None => seq![] },
        main_class_image: match main { Some(m) => text_or_empty(m.class_image), None => seq![] },
        main_level: match main {
            Some(m) => match level_text(m.level) { Some(t) => t, None => seq![] },
            None => seq![],
        },
        guild: match profile { Some(p) => text_or_empty(p.guild), None => seq![] },
        gear_score: match profile { Some(p) => text_or_empty(p.gear_score), None => seq![] },
        energy: match profile { Some(p) => text_or_empty(p.energy), None => seq![] },
        contribution: match profile { Some(p) => text_or_empty(p.contribution), None => seq![] },
        profile_url: match profile { Some(p) => text_or_empty(p.url), None => seq![] },
    }
}

/// The profile's placeholders each carry the profile's field of the same
/// name, the family details as the page wrote them and the address the
/// profile was read from: empty when the field is missing or there is no
/// profile.
pub proof fn lemma_profile_placeholders(
    config: Config,
    state: GameState,
    family: Option<Seq<char>>,
    region: Seq<char>,
    character: Option<Seq<char>>,
    profile: Option<Profile>,
)
    ensures
        ({
            let c = context_view(config, state, family, region, character, profile);
            &&& c.guild == match profile {
                Some(p) => match p.guild { Some(t) => t@, None => seq![] },
                None => seq![],
            }
            &&& c.gear_score == match profile {
                Some(p) => match p.gear_score { Some(t) => t@, None => seq![] },
                None => seq![],
            }
            &&& c.energy == match profile {
                Some(p) => match p.energy { Some(t) => t@, None => seq![] },
                None => seq![],
            }
            &&& c.contribution == match profile {
                Some(p) => match p.contribution { Some(t) => t@, None => seq![] },
                None => seq![],
            }
            &&& c.profile_url == match profile {
                Some(p) => match p.url { Some(t) => t@, None => seq![] },
                None => seq![],
            }
        }),
{
}

/// The timer of a reported phase counts from when the phase began in
/// `phase` mode and from when the session began in `session` mode; in any
/// other mode there is no timer.
pub proof fn lemma_timer_start(config: Config, state: GameState, c: ContextView)
    ensures
        build_view(config, state, c) matches Some(v) ==> {
            &&& config.display.timer_mode@ == "phase"@ ==> v.start == state.phase_since
            &&& config.display.timer_mode@ == "session"@ ==> v.start == state.session_start
            &&& (config.display.timer_mode@ != "phase"@ && config.display.timer_mode@ != "session"@)
                ==> v.start is None
        },
{
    reveal_strlit("phase");
    reveal_strlit("session");
    assert("phase"@.len() != "session"@.len());
}

fn copy_or_empty(o: &Option<String>) -> (r: String)
    ensures
        r@ == text_or_empty(*o),
{
    match o {
        Some(s) => s.clone(),
        None => String::new(),
    }
}

fn profile_text(profile: Option<&Profile>, pick: u8) -> (r: String)
    requires
        pick < 5,
    ensures
        r@ == match profile {
            Some(p) => text_or_empty(
                if pick == 0 { p.guild } else if pick == 1 { p.gear_score } else if pick == 2 { p.energy } else if pick == 3 { p.contribution } else { p.url },
            ),
            None => seq![],
        },
{
    match profile {
        Some(p) => copy_or_empty(
            if pick == 0 { &p.guild } else if pick == 1 { &p.gear_score } else if pick == 2 { &p.energy } else if pick == 3 { &p.contribution } else { &p.url },
        ),
        None => String::new(),
    }
}

fn known(config: &Config, detected: Option<&str>, value: Option<String>) -> (r: String)
    ensures
        r@ == known_of(*config, match detected { Some(d) => Some(d@), None => None }, opt_view(value)),
{
    match value {
        Some(v) => v,
        None => match detected {
            Some(_) => config.display.unknown.clone(),
            None => String::new(),
        },
    }
}

/// What each placeholder stands for, from the config's choices of what to
/// show, the session so far, and the profile.
pub fn context(
    config: &Config,
    state: &GameState,
    family: Option<&str>,
    region: &str,
    character: Option<&str>,
    profile: Option<&Profile>,
) -> (r: Context)
    ensures
        r@ == context_view(
            *config,
            *state,
            match family { Some(f) => Some(f@), None => None },
            region@,
            match character { Some(c) => Some(c@), None => None },
            match profile { Some(p) => Some(*p), None => None },
        ),
{
    let ghost family_v = match family { Some(f) => Some(f@), None => None };
    let ghost character_v = match character { Some(c) => Some(c@), None => None };
    let ghost profile_v = match profile { Some(p) => Some(*p), None => None };
    let main: Option<&Character> = match profile {
        Some(p) => p.main(),
        None => None,
    };
    assert(match main { Some(m) => profile_main(profile_v) == Some(*m), None => profile_main(profile_v) is None });
    let detected: Option<&str> = if config.identity.show_character { character } else { None };
    assert(match detected { Some(d) => Some(d@), None => None::<Seq<char>> } == detected_of(*config, character_v));
    let named: Option<&String> = match detected {
        Some(key) => config.characters.get(key),
        None => None,
    };
    assert(match named { Some(n) => Some(n@), None => None::<Seq<char>> } == named_key(*config, detected_of(*config, character_v)));
    let current: Option<&Character> = match detected {
        Some(_) => match (named, profile) {
            (Some(name), Some(p)) => p.character(name.as_str()),
            _ => None,
        },
        None => main,
    };
    assert(match current {
        Some(c) => current_of(*config, detected_of(*config, character_v), profile_v) == Some(*c),
        None => current_of(*config, detected_of(*config, character_v), profile_v) is None,
    });

    let family_text = if config.identity.show_family {
        match family {
            Some(f) => String::from_str(f),
            None => match profile {
                Some(p) => copy_or_empty(&p.family),
                None => String::new(),
            },
        }
    } else {
        String::new()
    };
    let region_text = if config.display.show_region { String::from_str(region) } else { String::new() };
    let server_text = match (config.display.show_server, &state.game_server) {
        (true, Some(host)) => config.server_name(host.as_str()),
        _ => String::new(),
    };
    let phase_text = match state.phase {
        Some(p) => String::from_str(p.key()),
        None => String::new(),
    };
    let main_name = if config.identity.show_character {
        match main {
            Some(m) => m.name.clone(),
            None => String::new(),
        }
    } else {
        String::new()
    };
    let character_text = match detected {
        Some(_) => known(config, detected, match named { Some(n) => Some(n.clone()), None => None }),
        None => main_name.clone(),
    };
    let class_value: Option<String> = match current {
        Some(c) => if !c.class.as_str().is_empty() { Some(c.class.clone()) } else { None },
        None => None,
    };
    let class_text = known(config, detected, class_value);
    let level_value: Option<String> = match current {
        Some(c) => match c.level {
            Some(l) => Some(crate::text::decimal_string(l as u64)),
            None => None,
        },
        None => None,
    };
    let level_text_value = known(config, detected, level_value);
    let class_image = match current {
        Some(c) => copy_or_empty(&c.class_image),
        None => String::new(),
    };
    let main_class = match main {
        Some(m) => m.class.clone(),
        None => String::new(),
    };
    let main_class_image = match main {
        Some(m) => copy_or_empty(&m.class_image),
        None => String::new(),
    };
    let main_level = match main {
        Some(m) => match m.level {
            Some(l) => crate::text::decimal_string(l as u64),
            None => String::new(),
        },
        None => String::new(),
    };
    let r = Context {
        family: family_text,
        region: region_text,
        server: server_text,
        phase: phase_text,
        character: character_text,
        class: class_text,
        level: level_text_value,
        class_image,
        main_character: main_name,
        main_class,
        main_level,
        main_class_image,
        guild: profile_text(profile, 0),
        gear_score: profile_text(profile, 1),
        energy: profile_text(profile, 2),
        contribution: profile_text(profile, 3),
        profile_url: profile_text(profile, 4),
    };
    proof {
        let v = context_view(*config, *state, family_v, region@, character_v, profile_v);
        assert(r@.family == v.family);
        assert(r@.region == v.region);
        assert(r@.server == v.server);
        assert(r@.phase == v.phase);
        assert(r@.character == v.character);
        assert(r@.class == v.class);
        assert(r@.level == v.level);
        assert(r@.class_image == v.class_image);
        assert(r@.main_character == v.main_character);
        assert(r@.main_class == v.main_class);
        assert(r@.main_level == v.main_level);
        assert(r@.main_class_image == v.main_class_image);
    }
    r
}


proof fn lemma_drop_front_content(t: Seq<char>)
    ensures
        drop_front(t).len() > 0 ==> is_content(drop_front(t)[0]),
        drop_front(t).len() <= t.len(),
    decreases t.len(),
{
    if t.len() > 0 && !is_content(t[0]) {
        lemma_drop_front_content(t.drop_first());
    }
}

proof fn lemma_drop_back_keeps_front(t: Seq<char>)
    requires
        t.len() > 0 ==> is_content(t[0]),
    ensures
        drop_back(t).len() > 0 ==> is_content(drop_back(t)[0]) && is_content(drop_back(t).last()),
    decreases t.len(),
{
    if t.len() > 0 && !is_content(t.last()) {
        let u = t.drop_last();
        if u.len() > 0 {
            assert(u[0] == t[0]);
        }
        lemma_drop_back_keeps_front(u);
    }
}

/// A tidied text, when not empty, starts and ends with a character that
/// carries text: never with whitespace or a `-`, `:`, `|` or `,`.
pub proof fn lemma_tidy_trimmed(text: Seq<char>)
    ensures
        tidy(text).len() > 0 ==> is_content(tidy(text)[0]) && is_content(tidy(text).last()),
{
    lemma_drop_front_content(collapse(text));
    lemma_drop_back_keeps_front(drop_front(collapse(text)));
}

/// Text whose whitespace is single plain spaces between other characters,
/// possibly with one trailing.
pub open spec fn single_spaced(z: Seq<char>) -> bool {
    &&& forall|i: int| 0 <= i < z.len() && is_space(#[trigger] z[i]) ==> z[i] == ' '
    &&& forall|i: int| 1 <= i < z.len() && is_space(#[trigger] z[i]) ==> !is_space(z[i - 1])
    &&& z.len() > 0 ==> !is_space(z[0])
}

proof fn lemma_collapse_single_spaced(s: Seq<char>)
    ensures
        single_spaced(collapse(s)),
        collapse(s).len() > 0 ==> !is_space(collapse(s).last()),
    decreases s.len(),
{
    if s.len() > 0 {
        lemma_collapse_single_spaced(s.drop_last());
    }
}

proof fn lemma_collapse_keeps(z: Seq<char>)
    requires
        single_spaced(z),
    ensures
        collapse(z) == if z.len() > 0 && is_space(z.last()) { z.drop_last() } else { z },
    decreases z.len(),
{
    if z.len() > 0 {
        let d = z.drop_last();
        assert(single_spaced(d)) by {
            assert forall|i: int| 1 <= i < d.len() && is_space(#[trigger] d[i]) implies !is_space(d[i - 1]) by {
                assert(d[i] == z[i] && d[i - 1] == z[i - 1]);
            }
        }
        lemma_collapse_keeps(d);
        if is_space(z.last()) {
            assert(z.len() >= 2);
            assert(!is_space(d.last()));
        } else if z.len() >= 2 && is_space(z[z.len() - 2]) {
            assert(z[z.len() - 2] == ' ');
            assert(z.len() >= 3);
            assert(d.drop_last().push(' ').push(z.last()) =~= z);
        } else if z.len() >= 2 {
            assert(d.push(z.last()) =~= z);
        } else {
            assert(seq![z.last()] =~= z);
        }
    }
}

proof fn lemma_drop_front_suffix(t: Seq<char>)
    ensures
        drop_front(t) == t.skip(t.len() - drop_front(t).len()),
        drop_front(t).len() <= t.len(),
    decreases t.len(),
{
    if t.len() > 0 && !is_content(t[0]) {
        lemma_drop_front_suffix(t.drop_first());
        assert(t.drop_first().skip(t.drop_first().len() - drop_front(t).len()) =~= t.skip(t.len() - drop_front(t).len()));
    } else {
        assert(t.skip(0) =~= t);
    }
}

proof fn lemma_drop_back_prefix(t: Seq<char>)
    ensures
        drop_back(t) == t.take(drop_back(t).len() as int),
        drop_back(t).len() <= t.len(),
    decreases t.len(),
{
    if t.len() > 0 && !is_content(t.last()) {
        lemma_drop_back_prefix(t.drop_last());
        assert(t.drop_last().take(drop_back(t).len() as int) =~= t.take(drop_back(t).len() as int));
    } else {
        assert(t.take(t.len() as int) =~= t);
    }
}

/// Tidying a tidied text changes nothing.
pub proof fn lemma_tidy_idempotent(x: Seq<char>)
    ensures
        tidy(tidy(x)) == tidy(x),
{
    let y = collapse(x);
    let f = drop_front(y);
    let g = drop_back(f);
    lemma_collapse_single_spaced(x);
    lemma_drop_front_suffix(y);
    lemma_drop_back_prefix(f);
    lemma_tidy_trimmed(x);
    let a = y.len() - f.len();
    assert forall|i: int| 0 <= i < g.len() implies #[trigger] g[i] == y[a + i] by {
        assert(g[i] == f[i]);
        assert(f[i] == y[a + i]);
    }
    assert(single_spaced(g)) by {
        assert forall|i: int| 0 <= i < g.len() && is_space(#[trigger] g[i]) implies g[i] == ' ' by {
            assert(g[i] == y[a + i]);
        }
        assert forall|i: int| 1 <= i < g.len() && is_space(#[trigger] g[i]) implies !is_space(g[i - 1]) by {
            assert(g[i] == y[a + i]);
            assert(g[i - 1] == y[a + i - 1]);
        }
    }
    lemma_collapse_keeps(g);
    assert(collapse(g) == g);
}

/// Filling in a template a second time, when the first filled-in text has
/// no `{` left, gives the same text.
pub proof fn lemma_expand_twice(t: Seq<char>, c: ContextView)
    requires
        !contains(expand_view(t, c), seq!['{']),
    ensures
        expand_view(expand_view(t, c), c) == expand_view(t, c),
{
    let e = expand_view(t, c);
    assert(substitute(e, c) == e);
    lemma_tidy_idempotent(substitute(t, c));
}

/// Whatever a phase shows is something Discord takes: each text two
/// characters at least, each button with a label of 1 to 32 characters and
/// an http or https address of 512 bytes at most, two buttons at most.
pub proof fn lemma_presence_acceptable(config: Config, state: GameState, c: ContextView)
    ensures
        build_view(config, state, c) matches Some(v) ==> {
            &&& (v.details matches Some(t) ==> t.len() >= 2)
            &&& (v.state matches Some(t) ==> t.len() >= 2)
            &&& (v.large_image matches Some(t) ==> t.len() >= 2)
            &&& (v.large_text matches Some(t) ==> t.len() >= 2)
            &&& (v.small_image matches Some(t) ==> t.len() >= 2)
            &&& (v.small_text matches Some(t) ==> t.len() >= 2)
            &&& v.buttons.len() <= 2
            &&& forall|i: int| 0 <= i < v.buttons.len() ==> 0 < (#[trigger] v.buttons[i]).0.len() <= 32 && button_url_ok(v.buttons[i].1)
        },
{
    reveal_strlit("Black Desert");
}

/// A phase switched off shows nothing, and nothing shows before a phase is
/// known.
pub proof fn lemma_nothing_unreported(config: Config, state: GameState, c: ContextView)
    ensures
        state.phase is None ==> build_view(config, state, c) is None,
        state.phase matches Some(p) && !phase_view_of(config, p).report ==> build_view(config, state, c) is None,
{
}

} // verus!
