use vstd::prelude::*;
use crate::rng::random_index;
use crate::text::{
    ascii_upper, char_is_alphanumeric, is_alphanumeric, push_char, to_ascii_upper, utf8_len_below, utf8_len_of,
};

verus! {

/// What to do once the match settings screen is confirmed.
#[derive(Clone, Copy, Debug, PartialEq, Eq, Structural)]
pub enum MatchSettingsNext {
    CreateRoom,
    VsAi,
}

/// Which screen of the lobby is showing.
#[derive(Clone, Copy, Debug, PartialEq, Eq, Structural)]
pub enum LobbyMode {
    Menu,
    Settings,
    MatchSettings { next_action: MatchSettingsNext },
    EnteringCode,
    WaitingForPeer,
    Connected,
    ColorPick,
}

/// Result of lobby update - what should the game do next?
#[derive(Clone, Copy, Debug, PartialEq, Eq, Structural)]
pub enum LobbyResult {
    /// Still in lobby, keep waiting
    Waiting,
    /// Start multiplayer game (net state is in lobby.net)
    StartMultiplayer,
    /// Start single-player vs AI
    StartVsAi,
}

/// Length of a room code.
pub const ROOM_CODE_LEN: usize = 4;

/// Characters room codes are made of.
pub open spec fn room_code_alphabet() -> Seq<char> {
    seq![
        'A', 'B', 'C', 'D', 'E', 'F', 'G', 'H', 'I', 'J', 'K', 'L', 'M', 'N', 'O', 'P', 'Q', 'R',
        'S', 'T', 'U', 'V', 'W', 'X', 'Y', 'Z', '0', '1', '2', '3', '4', '5', '6', '7', '8', '9',
    ]
}

fn alphabet() -> (a: &'static [char])
    ensures
        a@ == room_code_alphabet(),
{
    &[
        'A', 'B', 'C', 'D', 'E', 'F', 'G', 'H', 'I', 'J', 'K', 'L', 'M', 'N', 'O', 'P', 'Q', 'R',
        'S', 'T', 'U', 'V', 'W', 'X', 'Y', 'Z', '0', '1', '2', '3', '4', '5', '6', '7', '8', '9',
    ]
}

/// The room code that the draws `draws` give: character `i` is the
/// alphabet's entry at `draws[i]`.
pub fn room_code_from_draws(draws: &[usize]) -> (code: String)
    requires
        draws@.len() == ROOM_CODE_LEN,
        forall|i: int| 0 <= i < ROOM_CODE_LEN ==> #[trigger] draws@[i] < room_code_alphabet().len(),
    ensures
        code@.len() == ROOM_CODE_LEN,
        forall|i: int| 0 <= i < ROOM_CODE_LEN ==> #[trigger] code@[i] == room_code_alphabet()[draws@[i] as int],
{
    let chars = alphabet();
    let mut code = String::new();
    let mut k: usize = 0;
    while k < ROOM_CODE_LEN
        invariant
            chars@ == room_code_alphabet(),
            draws@.len() == ROOM_CODE_LEN,
            forall|i: int| 0 <= i < ROOM_CODE_LEN ==> #[trigger] draws@[i] < room_code_alphabet().len(),
            k <= ROOM_CODE_LEN,
            code@.len() == k,
            forall|i: int| 0 <= i < k ==> #[trigger] code@[i] == room_code_alphabet()[draws@[i] as int],
        decreases ROOM_CODE_LEN - k,
    {
        let c = chars[draws[k]];
        push_char(&mut code, c);
        k = k + 1;
    }
    code
}

/// A fresh random room code: four characters drawn from A-Z and 0-9, each
/// by an independent draw of an index into the alphabet.
pub fn generate_room_code() -> (code: String)
    ensures
        code@.len() == ROOM_CODE_LEN,
        forall|i: int| 0 <= i < ROOM_CODE_LEN ==> room_code_alphabet().contains(#[trigger] code@[i]),
{
    let mut draws: Vec<usize> = Vec::new();
    let mut k: usize = 0;
    while k < ROOM_CODE_LEN
        invariant
            k <= ROOM_CODE_LEN,
            draws@.len() == k,
            forall|i: int| 0 <= i < k ==> #[trigger] draws@[i] < room_code_alphabet().len(),
        decreases ROOM_CODE_LEN - k,
    {
        draws.push(random_index(36));
        k = k + 1;
    }
    let code = room_code_from_draws(draws.as_slice());
    proof {
        assert forall|i: int| 0 <= i < ROOM_CODE_LEN implies room_code_alphabet().contains(#[trigger] code@[i]) by {
            assert(code@[i] == room_code_alphabet()[draws@[i] as int]);
        }
    }
    code
}


/// What happened in the lobby this frame, as far as its rules care. The
/// caller reports events in this order: pointer and keys, then the network.
#[derive(Clone, Copy, Debug, PartialEq, Eq, Structural)]
pub enum LobbyEvent {
    CreateRoomClicked,
    JoinRoomClicked,
    PlayVsAiClicked,
    SettingsClicked,
    Escape,
    /// Connect clicked or Enter pressed on the room-code screen.
    ConnectRequested,
    /// "Start Game" clicked on the match settings panel.
    StartGameClicked,
    /// The connection failed or the peer left.
    Disconnected,
    /// A peer joined the room.
    PeerConnected,
    /// The host's match settings arrived.
    HostSettingsArrived,
    /// The peer said it is ready to start.
    PeerReady,
    /// "Ready" clicked on the colour screen.
    ReadyClicked,
}

/// What the caller does in answer to a lobby event.
#[derive(Clone, Copy, Debug, PartialEq, Eq, Structural)]
pub enum LobbyAction {
    Nothing,
    /// Forget the room code typed so far.
    ClearCode,
    /// Become the room's creator: draw a code and open the room.
    CreateRoom,
    /// Join the room whose code was typed.
    JoinRoom,
    /// Drop the connection and return to the menu.
    ResetLobby,
    /// Tell the player the connection failed.
    ConnectionFailed,
    /// Introduce ourselves to the peer (settings first when creating).
    GreetPeer,
    /// Tell the player the opponent left.
    PeerLeft,
    /// Take over the host's match settings.
    AdoptHostSettings,
    /// Start the networked match.
    StartMultiplayer,
    /// Start a match against the AI.
    StartVsAi,
}

/// The lobby's rules: the screen after `event` on screen `mode`, and what
/// to do. `code_len` is the length of the room code typed so far; only the
/// room's creator keeps its own settings when the host's arrive.
pub open spec fn lobby_next(mode: LobbyMode, is_room_creator: bool, code_len: nat, event: LobbyEvent) -> (LobbyMode, LobbyAction) {
    match (mode, event) {
        (LobbyMode::Menu, LobbyEvent::CreateRoomClicked) => (LobbyMode::MatchSettings { next_action: MatchSettingsNext::CreateRoom }, LobbyAction::Nothing),
        (LobbyMode::Menu, LobbyEvent::JoinRoomClicked) => (LobbyMode::EnteringCode, LobbyAction::ClearCode),
        (LobbyMode::Menu, LobbyEvent::PlayVsAiClicked) => (LobbyMode::MatchSettings { next_action: MatchSettingsNext::VsAi }, LobbyAction::Nothing),
        (LobbyMode::Menu, LobbyEvent::SettingsClicked) => (LobbyMode::Settings, LobbyAction::Nothing),
        (LobbyMode::Settings, LobbyEvent::Escape) => (LobbyMode::Menu, LobbyAction::Nothing),
        (LobbyMode::MatchSettings { .. }, LobbyEvent::Escape) => (LobbyMode::Menu, LobbyAction::Nothing),
        (LobbyMode::MatchSettings { next_action: MatchSettingsNext::CreateRoom }, LobbyEvent::StartGameClicked) => (LobbyMode::WaitingForPeer, LobbyAction::CreateRoom),
        (LobbyMode::MatchSettings { next_action: MatchSettingsNext::VsAi }, LobbyEvent::StartGameClicked) => (mode, LobbyAction::StartVsAi),
        (LobbyMode::EnteringCode, LobbyEvent::Escape) => (LobbyMode::Menu, LobbyAction::Nothing),
        (LobbyMode::EnteringCode, LobbyEvent::ConnectRequested) => if code_len == ROOM_CODE_LEN {
            (LobbyMode::WaitingForPeer, LobbyAction::JoinRoom)
        } else {
            (mode, LobbyAction::Nothing)
        },
        (LobbyMode::WaitingForPeer, LobbyEvent::Escape) => (LobbyMode::Menu, LobbyAction::ResetLobby),
        (LobbyMode::WaitingForPeer, LobbyEvent::Disconnected) => (mode, LobbyAction::ConnectionFailed),
        (LobbyMode::WaitingForPeer, LobbyEvent::PeerConnected) => (LobbyMode::Connected, LobbyAction::GreetPeer),
        (LobbyMode::Connected, LobbyEvent::Disconnected) => (mode, LobbyAction::PeerLeft),
        (LobbyMode::Connected, LobbyEvent::HostSettingsArrived) => if is_room_creator {
            (mode, LobbyAction::Nothing)
        } else {
            (LobbyMode::ColorPick, LobbyAction::AdoptHostSettings)
        },
        (LobbyMode::Connected, LobbyEvent::PeerReady) => (mode, LobbyAction::StartMultiplayer),
        (LobbyMode::ColorPick, LobbyEvent::ReadyClicked) => (mode, LobbyAction::StartMultiplayer),
        _ => (mode, LobbyAction::Nothing),
    }
}

impl LobbyMode {
    /// One step of the lobby: the next screen and what to do (see
    /// `lobby_next`).
    pub fn step(self, is_room_creator: bool, code_len: usize, event: LobbyEvent) -> (r: (LobbyMode, LobbyAction))
        ensures
            r == lobby_next(self, is_room_creator, code_len as nat, event),
    {
        let stay = (self, LobbyAction::Nothing);
        match event {
            LobbyEvent::CreateRoomClicked | LobbyEvent::JoinRoomClicked | LobbyEvent::PlayVsAiClicked | LobbyEvent::SettingsClicked => {
                if self != LobbyMode::Menu {
                    return stay;
                }
                match event {
                    LobbyEvent::CreateRoomClicked => (LobbyMode::MatchSettings { next_action: MatchSettingsNext::CreateRoom }, LobbyAction::Nothing),
                    LobbyEvent::JoinRoomClicked => (LobbyMode::EnteringCode, LobbyAction::ClearCode),
                    LobbyEvent::PlayVsAiClicked => (LobbyMode::MatchSettings { next_action: MatchSettingsNext::VsAi }, LobbyAction::Nothing),
                    _ => (LobbyMode::Settings, LobbyAction::Nothing),
                }
            },
            LobbyEvent::Escape => match self {
                LobbyMode::Settings | LobbyMode::MatchSettings { .. } | LobbyMode::EnteringCode => (LobbyMode::Menu, LobbyAction::Nothing),
                LobbyMode::WaitingForPeer => (LobbyMode::Menu, LobbyAction::ResetLobby),
                _ => stay,
            },
            LobbyEvent::ConnectRequested => {
                if self == LobbyMode::EnteringCode && code_len == ROOM_CODE_LEN {
                    (LobbyMode::WaitingForPeer, LobbyAction::JoinRoom)
                } else {
                    stay
                }
            },
            LobbyEvent::StartGameClicked => match self {
                LobbyMode::MatchSettings { next_action: MatchSettingsNext::CreateRoom } => (LobbyMode::WaitingForPeer, LobbyAction::CreateRoom),
                LobbyMode::MatchSettings { next_action: MatchSettingsNext::VsAi } => (self, LobbyAction::StartVsAi),
                _ => stay,
            },
            LobbyEvent::Disconnected => match self {
                LobbyMode::WaitingForPeer => (self, LobbyAction::ConnectionFailed),
                LobbyMode::Connected => (self, LobbyAction::PeerLeft),
                _ => stay,
            },
            LobbyEvent::PeerConnected => {
                if self == LobbyMode::WaitingForPeer {
                    (LobbyMode::Connected, LobbyAction::GreetPeer)
                } else {
                    stay
                }
            },
            LobbyEvent::HostSettingsArrived => {
                if self == LobbyMode::Connected && !is_room_creator {
                    (LobbyMode::ColorPick, LobbyAction::AdoptHostSettings)
                } else {
                    stay
                }
            },
            LobbyEvent::PeerReady => {
                if self == LobbyMode::Connected {
                    (self, LobbyAction::StartMultiplayer)
                } else {
                    stay
                }
            },
            LobbyEvent::ReadyClicked => {
                if self == LobbyMode::ColorPick {
                    (self, LobbyAction::StartMultiplayer)
                } else {
                    stay
                }
            },
        }
    }
}

/// Escape leaves every lobby screen that offers it for the menu.
pub proof fn lemma_escape_returns_to_menu(mode: LobbyMode, is_room_creator: bool, code_len: nat)
    requires
        mode is Settings || mode is MatchSettings || mode is EnteringCode || mode is WaitingForPeer,
    ensures
        lobby_next(mode, is_room_creator, code_len, LobbyEvent::Escape).0 == LobbyMode::Menu,
{
}

/// A networked match starts only once the peer is ready (creator) or the
/// joiner has picked its colour; a match against the AI only from its
/// settings screen.
pub proof fn lemma_starts_need_agreement(mode: LobbyMode, is_room_creator: bool, code_len: nat, event: LobbyEvent)
    ensures
        lobby_next(mode, is_room_creator, code_len, event).1 == LobbyAction::StartMultiplayer ==> {
            ||| (mode == LobbyMode::Connected && event == LobbyEvent::PeerReady)
            ||| (mode == LobbyMode::ColorPick && event == LobbyEvent::ReadyClicked)
        },
        lobby_next(mode, is_room_creator, code_len, event).1 == LobbyAction::StartVsAi ==> mode == (LobbyMode::MatchSettings {
            next_action: MatchSettingsNext::VsAi,
        }) && event == LobbyEvent::StartGameClicked,
{
}

/// Only a joiner takes over the host's settings, and it then picks its colour.
pub proof fn lemma_only_joiner_adopts(mode: LobbyMode, is_room_creator: bool, code_len: nat, event: LobbyEvent)
    ensures
        lobby_next(mode, is_room_creator, code_len, event).1 == LobbyAction::AdoptHostSettings ==> {
            &&& !is_room_creator
            &&& mode == LobbyMode::Connected
            &&& lobby_next(mode, is_room_creator, code_len, event).0 == LobbyMode::ColorPick
        },
{
}

/// A room is joined only with a complete code.
pub proof fn lemma_join_needs_full_code(mode: LobbyMode, is_room_creator: bool, code_len: nat, event: LobbyEvent)
    ensures
        lobby_next(mode, is_room_creator, code_len, event).1 == LobbyAction::JoinRoom ==> code_len == ROOM_CODE_LEN,
{
}

/// The menu's match buttons keep their promise, whatever the room flags
/// and code length at each step: Play vs AI opens the match settings (and
/// nothing else), and Start Game there starts a match against the AI;
/// Create Room opens the match settings, and Start Game there opens a room
/// and waits for a peer. Neither path starts the other kind of match.
pub proof fn lemma_menu_buttons_keep_their_promise(c1: bool, l1: nat, c2: bool, l2: nat)
    ensures
        ({
            let (screen, act) = lobby_next(LobbyMode::Menu, c1, l1, LobbyEvent::PlayVsAiClicked);
            &&& screen is MatchSettings
            &&& act == LobbyAction::Nothing
            &&& lobby_next(screen, c2, l2, LobbyEvent::StartGameClicked).1 == LobbyAction::StartVsAi
        }),
        ({
            let (screen, act) = lobby_next(LobbyMode::Menu, c1, l1, LobbyEvent::CreateRoomClicked);
            &&& screen is MatchSettings
            &&& act == LobbyAction::Nothing
            &&& lobby_next(screen, c2, l2, LobbyEvent::StartGameClicked)
                == (LobbyMode::WaitingForPeer, LobbyAction::CreateRoom)
        }),
{
}

/// The two match buttons of the menu lead to different screens.
pub proof fn lemma_match_settings_remember_the_button(c1: bool, l1: nat)
    ensures
        lobby_next(LobbyMode::Menu, c1, l1, LobbyEvent::PlayVsAiClicked).0
            != lobby_next(LobbyMode::Menu, c1, l1, LobbyEvent::CreateRoomClicked).0,
{
}

/// The joiner's way into a match: Join Room clears the code and asks for
/// one; with a full code, Connect joins that room and waits; when the peer
/// arrives we greet it; the host's settings are taken over and the colour
/// screen shown; Ready there starts the networked match. A short code
/// joins nothing.
pub proof fn lemma_joiner_path(l1: nat)
    ensures
        lobby_next(LobbyMode::Menu, false, l1, LobbyEvent::JoinRoomClicked) == (LobbyMode::EnteringCode, LobbyAction::ClearCode),
        lobby_next(LobbyMode::EnteringCode, false, ROOM_CODE_LEN as nat, LobbyEvent::ConnectRequested)
            == (LobbyMode::WaitingForPeer, LobbyAction::JoinRoom),
        l1 != ROOM_CODE_LEN ==> lobby_next(LobbyMode::EnteringCode, false, l1, LobbyEvent::ConnectRequested)
            == (LobbyMode::EnteringCode, LobbyAction::Nothing),
        lobby_next(LobbyMode::WaitingForPeer, false, l1, LobbyEvent::PeerConnected) == (LobbyMode::Connected, LobbyAction::GreetPeer),
        lobby_next(LobbyMode::Connected, false, l1, LobbyEvent::HostSettingsArrived)
            == (LobbyMode::ColorPick, LobbyAction::AdoptHostSettings),
        lobby_next(LobbyMode::ColorPick, false, l1, LobbyEvent::ReadyClicked).1 == LobbyAction::StartMultiplayer,
{
}

/// The creator's way into a match: once its room has a peer it greets it,
/// keeps its own settings when settings arrive, and starts the networked
/// match when the peer is ready; a lost connection is reported, not
/// started.
pub proof fn lemma_creator_path(l1: nat)
    ensures
        lobby_next(LobbyMode::WaitingForPeer, true, l1, LobbyEvent::PeerConnected) == (LobbyMode::Connected, LobbyAction::GreetPeer),
        lobby_next(LobbyMode::Connected, true, l1, LobbyEvent::HostSettingsArrived) == (LobbyMode::Connected, LobbyAction::Nothing),
        lobby_next(LobbyMode::Connected, true, l1, LobbyEvent::PeerReady) == (LobbyMode::Connected, LobbyAction::StartMultiplayer),
        lobby_next(LobbyMode::WaitingForPeer, true, l1, LobbyEvent::Disconnected).1 == LobbyAction::ConnectionFailed,
        lobby_next(LobbyMode::Connected, true, l1, LobbyEvent::Disconnected).1 == LobbyAction::PeerLeft,
{
}

/// Longest player name, in UTF-8 bytes.
pub const MAX_NAME_LEN: usize = 16;

/// Characters a player name may hold besides letters and digits: `_`, `-`, space.
pub open spec fn name_char_allowed(c: char) -> bool {
    char_is_alphanumeric(c) || c == '_' || c == '-' || c == ' '
}

/// The name being typed after the key `c`: backspace (`'\u{8}'`) deletes
/// the last character; an allowed character is added while the name takes
/// fewer than `MAX_NAME_LEN` bytes; anything else is ignored.
pub open spec fn name_after(name: Seq<char>, c: char) -> Seq<char> {
    if c == '\u{8}' {
        if name.len() > 0 { name.drop_last() } else { name }
    } else if utf8_len_of(name) < MAX_NAME_LEN && name_char_allowed(c) {
        name.push(c)
    } else {
        name
    }
}

/// Typing `c` into the name field.
pub fn type_name_char(name: &mut Vec<char>, c: char)
    ensures
        final(name)@ == name_after(old(name)@, c),
{
    if c == '\u{8}' {
        let _ = name.pop();
    } else if utf8_len_below(name, MAX_NAME_LEN) && (is_alphanumeric(c) || c == '_' || c == '-' || c == ' ') {
        name.push(c);
    }
}

/// The room code being typed after the character `c`: a letter or digit
/// is added, upper-cased, while the code takes fewer than `ROOM_CODE_LEN`
/// bytes; anything else is ignored.
pub open spec fn code_after(code: Seq<char>, c: char) -> Seq<char> {
    if char_is_alphanumeric(c) && utf8_len_of(code) < ROOM_CODE_LEN {
        code.push(ascii_upper(c))
    } else {
        code
    }
}

/// Typing `c` into the room-code field.
pub fn type_code_char(code: &mut Vec<char>, c: char)
    ensures
        final(code)@ == code_after(old(code)@, c),
{
    if is_alphanumeric(c) && utf8_len_below(code, ROOM_CODE_LEN) {
        code.push(to_ascii_upper(c));
    }
}

} // verus!
