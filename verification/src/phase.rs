//! The stages of a game session, as the client's log names them.
use vstd::prelude::*;
use crate::text::{eq_ignore_case, lower_ascii};

verus! {

#[derive(Copy, Clone, Debug, PartialEq, Eq, Structural)]
pub enum Phase {
    Home,
    Login,
    ServerSelect,
    CharacterCreate,
    Lobby,
    Loading,
    Play,
}

/// Every phase, in the order a session goes through them.
pub open spec fn all_phases() -> Seq<Phase> {
    seq![
        Phase::Home,
        Phase::Login,
        Phase::ServerSelect,
        Phase::CharacterCreate,
        Phase::Lobby,
        Phase::Loading,
        Phase::Play,
    ]
}

pub open spec fn key_of(p: Phase) -> Seq<char> {
    match p {
        Phase::Home => "home"@,
        Phase::Login => "login"@,
        Phase::ServerSelect => "server_select"@,
        Phase::CharacterCreate => "character_create"@,
        Phase::Lobby => "lobby"@,
        Phase::Loading => "loading"@,
        Phase::Play => "play"@,
    }
}

pub open spec fn label_of(p: Phase) -> Seq<char> {
    match p {
        Phase::Home => "Starting up"@,
        Phase::Login => "Main Menu"@,
        Phase::ServerSelect => "Server Select"@,
        Phase::CharacterCreate => "Character Creation"@,
        Phase::Lobby => "Character Select"@,
        Phase::Loading => "Loading"@,
        Phase::Play => "In Game"@,
    }
}

/// The phase a log's `eProcessor_<name>` stands for.
pub open spec fn processor_phase(name: Seq<char>) -> Option<Phase> {
    if name == "Home"@ {
        Some(Phase::Home)
    } else if name == "Login"@ {
        Some(Phase::Login)
    } else if name == "ServerSelect"@ {
        Some(Phase::ServerSelect)
    } else if name == "CaptureFace"@ {
        Some(Phase::CharacterCreate)
    } else if name == "Lobby"@ {
        Some(Phase::Lobby)
    } else if name == "Loading"@ {
        Some(Phase::Loading)
    } else if name == "Play"@ {
        Some(Phase::Play)
    } else {
        None
    }
}

impl Phase {
    /// Every phase, in session order.
    pub fn all() -> (r: Vec<Phase>)
        ensures
            r@ == all_phases(),
    {
        let r = vec![
            Phase::Home,
            Phase::Login,
            Phase::ServerSelect,
            Phase::CharacterCreate,
            Phase::Lobby,
            Phase::Loading,
            Phase::Play,
        ];
        assert(r@ == all_phases());
        r
    }

    /// The phase's name in the config.
    pub fn key(self) -> (r: &'static str)
        ensures
            r@ == key_of(self),
    {
        match self {
            Phase::Home => "home",
            Phase::Login => "login",
            Phase::ServerSelect => "server_select",
            Phase::CharacterCreate => "character_create",
            Phase::Lobby => "lobby",
            Phase::Loading => "loading",
            Phase::Play => "play",
        }
    }

    /// The phase's English name, for the log.
    pub fn label(self) -> (r: &'static str)
        ensures
            r@ == label_of(self),
    {
        match self {
            Phase::Home => "Starting up",
            Phase::Login => "Main Menu",
            Phase::ServerSelect => "Server Select",
            Phase::CharacterCreate => "Character Creation",
            Phase::Lobby => "Character Select",
            Phase::Loading => "Loading",
            Phase::Play => "In Game",
        }
    }

    /// The phase a processor name from the log stands for, if any.
    pub fn from_processor(name: &str) -> (r: Option<Phase>)
        ensures
            r == processor_phase(name@),
    {
        if crate::keymap::text_eq(name, "Home") {
            Some(Phase::Home)
        } else if crate::keymap::text_eq(name, "Login") {
            Some(Phase::Login)
        } else if crate::keymap::text_eq(name, "ServerSelect") {
            Some(Phase::ServerSelect)
        } else if crate::keymap::text_eq(name, "CaptureFace") {
            Some(Phase::CharacterCreate)
        } else if crate::keymap::text_eq(name, "Lobby") {
            Some(Phase::Lobby)
        } else if crate::keymap::text_eq(name, "Loading") {
            Some(Phase::Loading)
        } else if crate::keymap::text_eq(name, "Play") {
            Some(Phase::Play)
        } else {
            None
        }
    }
}

/// A phase's English name, or "Unknown" before any is known.
pub fn label(phase: Option<Phase>) -> (r: &'static str)
    ensures
        r@ == match phase {
            Some(p) => label_of(p),
            None => "Unknown"@,
        },
{
    match phase {
        Some(phase) => phase.label(),
        None => "Unknown",
    }
}

/// Distinct phases have distinct keys, so a key names one phase.
pub proof fn lemma_keys_distinct(a: Phase, b: Phase)
    requires
        a != b,
    ensures
        key_of(a) != key_of(b),
{
    reveal_strlit("home");
    reveal_strlit("login");
    reveal_strlit("server_select");
    reveal_strlit("character_create");
    reveal_strlit("lobby");
    reveal_strlit("loading");
    reveal_strlit("play");
    if key_of(a) == key_of(b) {
        assert(key_of(a).len() == key_of(b).len());
        assert(key_of(a)[0] == key_of(b)[0]);
        assert(key_of(a)[1] == key_of(b)[1]);
        assert(key_of(a)[3] == key_of(b)[3]);
    }
}


/// The log's processor names stand for the phases one to one: two names
/// that stand for the same phase are the same name, every phase has a name,
/// and the name of a phase whose config key has no `_` is that key, ASCII
/// case aside.
pub proof fn lemma_processor_names(a: Seq<char>, b: Seq<char>, p: Phase)
    ensures
        processor_phase(a) == Some(p) && processor_phase(b) == Some(p) ==> a == b,
        exists|n: Seq<char>| processor_phase(n) == Some(p),
        processor_phase(a) == Some(p) && !key_of(p).contains('_') ==> eq_ignore_case(a, key_of(p)),
{
    reveal_strlit("Home");
    reveal_strlit("Login");
    reveal_strlit("ServerSelect");
    reveal_strlit("CaptureFace");
    reveal_strlit("Lobby");
    reveal_strlit("Loading");
    reveal_strlit("Play");
    reveal_strlit("home");
    reveal_strlit("login");
    reveal_strlit("server_select");
    reveal_strlit("character_create");
    reveal_strlit("lobby");
    reveal_strlit("loading");
    reveal_strlit("play");
    let n = match p {
        Phase::Home => "Home"@,
        Phase::Login => "Login"@,
        Phase::ServerSelect => "ServerSelect"@,
        Phase::CharacterCreate => "CaptureFace"@,
        Phase::Lobby => "Lobby"@,
        Phase::Loading => "Loading"@,
        Phase::Play => "Play"@,
    };
    assert(processor_phase(n) == Some(p)) by {
        assert("Home"@[0] == 'H' && "Login"@[1] == 'o' && "ServerSelect"@[0] == 'S' && "CaptureFace"@[0] == 'C');
        assert("Lobby"@[2] == 'b' && "Loading"@[2] == 'a' && "Play"@[0] == 'P');
        if p == Phase::Login {
            assert(n[0] != "Home"@[0]);
        } else if p == Phase::ServerSelect {
            assert(n[0] != "Home"@[0] && n[0] != "Login"@[0]);
        } else if p == Phase::CharacterCreate {
            assert(n[0] != "Home"@[0] && n[0] != "Login"@[0] && n[0] != "ServerSelect"@[0]);
        } else if p == Phase::Lobby {
            assert(n[0] != "Home"@[0] && n[0] != "ServerSelect"@[0] && n[0] != "CaptureFace"@[0]);
            assert(n[2] != "Login"@[2]);
        } else if p == Phase::Loading {
            assert(n[0] != "Home"@[0] && n[0] != "ServerSelect"@[0] && n[0] != "CaptureFace"@[0]);
            assert(n.len() != "Login"@.len() && n.len() != "Lobby"@.len());
        } else if p == Phase::Play {
            assert(n[0] != "Home"@[0] && n[0] != "ServerSelect"@[0] && n[0] != "CaptureFace"@[0]);
            assert(n[0] != "Login"@[0] && n[0] != "Lobby"@[0] && n[0] != "Loading"@[0]);
        }
    }
    if processor_phase(a) == Some(p) {
        assert(a == n);
        match p {
            Phase::ServerSelect => {
                assert(key_of(p)[6] == '_');
            },
            Phase::CharacterCreate => {
                assert(key_of(p)[9] == '_');
            },
            _ => {
                assert forall|i: int| 0 <= i < a.len() implies lower_ascii(#[trigger] a[i]) == lower_ascii(key_of(p)[i]) by {
                    if i == 0 {
                        assert(lower_ascii(a[0]) == key_of(p)[0]);
                    }
                }
            },
        }
    }
}

/// The key the windows look a phase's shown name up by: `phase.<key>`, or
/// `phase.unknown` before any phase is known.
pub fn display_key(phase: Option<Phase>) -> (r: String)
    ensures
        r@ == "phase."@ + match phase {
            Some(p) => key_of(p),
            None => "unknown"@,
        },
{
    let key = match phase {
        Some(p) => p.key(),
        None => "unknown",
    };
    crate::text::concat("phase.", key)
}

} // verus!
