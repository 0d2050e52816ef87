//! The mathematical model of the engine: ghost-level images of the shared
//! state and of one dispatch step.  [`spec_step`] is the authoritative
//! statement of the whole transition table; the executable engine is proved
//! to produce exactly its result, and every law of the library is proved
//! about it.

use crate::resolver::{keyword, spec_resolve, Command};
use crate::text::first_token;
use vstd::prelude::*;

verus! {

/// Category code of a history replay line.
pub const CATEGORY_HISTORY: u32 = 0;

/// Category code of a system or error notice.
pub const CATEGORY_SYSTEM: u32 = 1;

/// Category code of a public chat line.
pub const CATEGORY_CHAT: u32 = 2;

/// Category code of the login prompt.
pub const CATEGORY_PROMPT: u32 = 3;

/// Health a character starts with.
pub const LOGIN_HEALTH: i32 = 44;

/// Health ceiling a character starts with.
pub const LOGIN_MAX_HEALTH: i32 = 47;

/// Health lost on a kick.
pub const KICK_DAMAGE: i32 = 3;

/// A playing character, as the model sees it.
#[verifier::ext_equal]
pub struct CharacterModel {
    pub name: Seq<char>,
    pub health: int,
    pub max_health: int,
}

/// Per-connection session state: a connection logs in once, then plays.
#[verifier::ext_equal]
pub enum PlayerModel {
    Login,
    Playing(CharacterModel),
}

/// An outbound wire message: a chat line with its category code, or a
/// health update `(current, max)`.
#[verifier::ext_equal]
pub enum MessageModel {
    Chat(Seq<char>, u32),
    Health(int, int),
}

/// One transport-level effect the engine asks for, in the order the
/// transport must perform them.
#[verifier::ext_equal]
pub enum ActionModel {
    Unicast(u32, MessageModel),
    Broadcast(MessageModel),
    CloseConnection(u32),
}

/// One unit of work handed to the engine, already stripped of its source
/// connection identifier.
#[verifier::ext_equal]
pub enum PayloadModel {
    Opened,
    CommandText(Seq<char>),
    Closed,
    Tick,
}

/// The authoritative shared state: player directory, name registry, chat
/// history and tick counter.
#[verifier::ext_equal]
pub struct EngineModel {
    pub players: Map<u32, PlayerModel>,
    pub names: Map<Seq<char>, u32>,
    pub history: Seq<Seq<char>>,
    pub ticks: nat,
}

/// The state the engine starts in: no players, no names, no history.
pub open spec fn init_model() -> EngineModel {
    EngineModel {
        players: Map::empty(),
        names: Map::empty(),
        history: Seq::empty(),
        ticks: 0,
    }
}

/// Well-formedness: every registered name denotes exactly the playing
/// character of that name, and every playing character is registered under
/// its name.  (A map holds at most one player per connection by itself.)
pub open spec fn wf(m: EngineModel) -> bool {
    &&& forall|n: Seq<char>| #[trigger] m.names.contains_key(n) ==> {
        &&& m.players.contains_key(m.names[n])
        &&& m.players[m.names[n]] matches PlayerModel::Playing(c) && c.name == n
    }
    &&& forall|id: u32| #[trigger] m.players.contains_key(id)
        ==> (m.players[id] matches PlayerModel::Playing(c) ==> m.names.contains_key(c.name)
        && m.names[c.name] == id)
}

pub open spec fn prompt_text() -> Seq<char> {
    "Please enter a name"@
}

pub open spec fn rejection_text(name: Seq<char>) -> Seq<char> {
    "The name "@ + name + " is already taken, do better this time"@
}

pub open spec fn join_text(name: Seq<char>) -> Seq<char> {
    name + " has joined"@
}

pub open spec fn depart_text(name: Seq<char>) -> Seq<char> {
    name + " has departed"@
}

pub open spec fn chat_line_text(name: Seq<char>, kw: Seq<char>) -> Seq<char> {
    name + ": \""@ + kw + "\""@
}

pub open spec fn unknown_text(tok: Seq<char>) -> Seq<char> {
    "I don't know what \""@ + tok + "\" means"@
}

pub open spec fn kick_flavor_text() -> Seq<char> {
    "You kick yourself, ouch"@
}

pub open spec fn farewell_text() -> Seq<char> {
    "No, goodbye"@
}

pub open spec fn not_implemented_text(kw: Seq<char>) -> Seq<char> {
    kw + " is not implemented yet"@
}

/// The full chat history replayed to `id`, oldest line first.
pub open spec fn replay_actions(h: Seq<Seq<char>>, id: u32) -> Seq<ActionModel> {
    h.map_values(|line: Seq<char>| ActionModel::Unicast(id, MessageModel::Chat(line, CATEGORY_HISTORY)))
}

/// A fresh connection gets a login prompt and a directory entry in `Login`.
/// The transport never reuses a live identifier; an `Opened` for one is
/// ignored defensively rather than clobbering the player.
pub open spec fn step_opened(m: EngineModel, id: u32) -> (EngineModel, Seq<ActionModel>) {
    if m.players.contains_key(id) {
        (m, Seq::empty())
    } else {
        (
            EngineModel { players: m.players.insert(id, PlayerModel::Login), ..m },
            seq![ActionModel::Unicast(id, MessageModel::Chat(prompt_text(), CATEGORY_PROMPT))],
        )
    }
}

/// A login attempt with `name`: rejected when taken, otherwise the player
/// starts playing, hears its health and the whole chat history in order,
/// and everyone hears the join notice.
pub open spec fn step_login(m: EngineModel, id: u32, name: Seq<char>) -> (
    EngineModel,
    Seq<ActionModel>,
) {
    if m.names.contains_key(name) {
        (
            m,
            seq![ActionModel::Unicast(id, MessageModel::Chat(rejection_text(name), CATEGORY_SYSTEM))],
        )
    } else {
        let c = CharacterModel {
            name,
            health: LOGIN_HEALTH as int,
            max_health: LOGIN_MAX_HEALTH as int,
        };
        (
            EngineModel {
                players: m.players.insert(id, PlayerModel::Playing(c)),
                names: m.names.insert(name, id),
                ..m
            },
            seq![
                ActionModel::Unicast(
                    id,
                    MessageModel::Health(LOGIN_HEALTH as int, LOGIN_MAX_HEALTH as int),
                ),
            ] + replay_actions(m.history, id) + seq![
                ActionModel::Broadcast(MessageModel::Chat(join_text(name), CATEGORY_SYSTEM)),
            ],
        )
    }
}

/// Health after a kick: down by [`KICK_DAMAGE`].  Health is deliberately
/// unclamped — it may go negative without bound — and only the machine
/// floor itself stops the fall.
pub open spec fn damaged_health(h: int) -> int {
    if h - KICK_DAMAGE >= i32::MIN {
        h - KICK_DAMAGE
    } else {
        i32::MIN as int
    }
}

/// A playing character's command text: the first token is resolved; on a
/// match the formatted line joins the history and is broadcast, after the
/// command's own unicasts; otherwise only the sender hears a notice.
/// Text without any token has nothing to resolve and gets the notice too.
pub open spec fn step_playing(
    m: EngineModel,
    id: u32,
    c: CharacterModel,
    text: Seq<char>,
) -> (EngineModel, Seq<ActionModel>) {
    let tok = first_token(text);
    if tok.len() == 0 {
        (
            m,
            seq![ActionModel::Unicast(id, MessageModel::Chat(unknown_text(tok), CATEGORY_SYSTEM))],
        )
    } else {
        step_resolved(m, id, c, tok)
    }
}

/// The resolver's verdict on a non-empty token, applied.
pub open spec fn step_resolved(
    m: EngineModel,
    id: u32,
    c: CharacterModel,
    tok: Seq<char>,
) -> (EngineModel, Seq<ActionModel>) {
    match spec_resolve(tok) {
        Option::None => (
            m,
            seq![ActionModel::Unicast(id, MessageModel::Chat(unknown_text(tok), CATEGORY_SYSTEM))],
        ),
        Option::Some(k) => {
            let line = chat_line_text(c.name, keyword(k));
            let m1 = EngineModel { history: m.history.push(line), ..m };
            let line_broadcast = ActionModel::Broadcast(MessageModel::Chat(line, CATEGORY_CHAT));
            match k {
                Command::Kick => {
                    let h2 = damaged_health(c.health);
                    let c2 = CharacterModel { health: h2, ..c };
                    (
                        EngineModel { players: m1.players.insert(id, PlayerModel::Playing(c2)), ..m1 },
                        seq![
                            ActionModel::Unicast(
                                id,
                                MessageModel::Chat(kick_flavor_text(), CATEGORY_SYSTEM),
                            ),
                            ActionModel::Unicast(id, MessageModel::Health(h2, c.max_health)),
                            line_broadcast,
                        ],
                    )
                },
                Command::Quit => (
                    m1,
                    seq![
                        ActionModel::Unicast(id, MessageModel::Chat(farewell_text(), CATEGORY_SYSTEM)),
                        line_broadcast,
                        ActionModel::CloseConnection(id),
                    ],
                ),
                _ => (
                    m1,
                    seq![
                        ActionModel::Unicast(
                            id,
                            MessageModel::Chat(not_implemented_text(keyword(k)), CATEGORY_SYSTEM),
                        ),
                        line_broadcast,
                    ],
                ),
            }
        },
    }
}

/// A closed connection leaves the directory; a playing one also frees its
/// name and everyone hears the departure notice.
pub open spec fn step_closed(m: EngineModel, id: u32) -> (EngineModel, Seq<ActionModel>) {
    if !m.players.contains_key(id) {
        (m, Seq::empty())
    } else {
        match m.players[id] {
            PlayerModel::Login => (
                EngineModel { players: m.players.remove(id), ..m },
                Seq::empty(),
            ),
            PlayerModel::Playing(c) => (
                EngineModel {
                    players: m.players.remove(id),
                    names: m.names.remove(c.name),
                    ..m
                },
                seq![
                    ActionModel::Broadcast(MessageModel::Chat(depart_text(c.name), CATEGORY_SYSTEM)),
                ],
            ),
        }
    }
}

/// One dispatch step of the engine loop: the whole transition table.  An
/// envelope for an unknown connection is a defensive no-op; the tick
/// counter saturates at the machine ceiling instead of wrapping.
pub open spec fn spec_step(m: EngineModel, id: u32, p: PayloadModel) -> (
    EngineModel,
    Seq<ActionModel>,
) {
    match p {
        PayloadModel::Opened => step_opened(m, id),
        PayloadModel::CommandText(text) => {
            if !m.players.contains_key(id) {
                (m, Seq::empty())
            } else {
                match m.players[id] {
                    PlayerModel::Login => step_login(m, id, text),
                    PlayerModel::Playing(c) => step_playing(m, id, c, text),
                }
            }
        },
        PayloadModel::Closed => step_closed(m, id),
        PayloadModel::Tick => (
            EngineModel {
                ticks: if m.ticks < u64::MAX { (m.ticks + 1) as nat } else { m.ticks },
                ..m
            },
            Seq::empty(),
        ),
    }
}

/// The engine loop over a whole mailbox prefix: each envelope is processed
/// to completion, in serialization order, before the next is taken; the
/// actions are concatenated in emission order.
pub open spec fn run_steps(m: EngineModel, envs: Seq<(u32, PayloadModel)>) -> (
    EngineModel,
    Seq<ActionModel>,
)
    decreases envs.len(),
{
    if envs.len() == 0 {
        (m, Seq::empty())
    } else {
        let head = spec_step(m, envs[0].0, envs[0].1);
        let rest = run_steps(head.0, envs.drop_first());
        (rest.0, head.1 + rest.1)
    }
}

/// How many tick envelopes a mailbox prefix holds.
pub open spec fn tick_envelopes(envs: Seq<(u32, PayloadModel)>) -> nat
    decreases envs.len(),
{
    if envs.len() == 0 {
        0
    } else {
        (if envs[0].1 is Tick {
            1nat
        } else {
            0nat
        }) + tick_envelopes(envs.drop_first())
    }
}

/// The public chat lines broadcast by a list of actions, in order.
pub open spec fn chat_lines(acts: Seq<ActionModel>) -> Seq<Seq<char>>
    decreases acts.len(),
{
    if acts.len() == 0 {
        Seq::empty()
    } else {
        let rest = chat_lines(acts.drop_first());
        match acts[0] {
            ActionModel::Broadcast(MessageModel::Chat(t, cat)) => if cat == CATEGORY_CHAT {
                seq![t] + rest
            } else {
                rest
            },
            _ => rest,
        }
    }
}

/// Whether an action is aimed at connection `id` in particular.  Broadcasts
/// are excluded: the transport delivers them only to live connections.
pub open spec fn targets(a: ActionModel, id: u32) -> bool {
    match a {
        ActionModel::Unicast(i, _) => i == id,
        ActionModel::Broadcast(_) => false,
        ActionModel::CloseConnection(i) => i == id,
    }
}

} // verus!
