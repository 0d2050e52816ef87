//! The executable engine: the single authoritative consumer of envelopes.
//! [`Engine::step`] processes one envelope to completion and returns the
//! transport actions it calls for; it is proved to produce exactly what the
//! model's [`spec_step`] prescribes, and to keep the state well-formed.

use crate::laws::lemma_step_preserves_wf;
use crate::model::{
    init_model, spec_step, step_closed, step_login, step_opened, step_playing, wf, ActionModel,
    CharacterModel, EngineModel, MessageModel, PayloadModel, PlayerModel, CATEGORY_CHAT,
    CATEGORY_HISTORY, CATEGORY_PROMPT, CATEGORY_SYSTEM, KICK_DAMAGE, LOGIN_HEALTH,
    LOGIN_MAX_HEALTH,
};
use crate::resolver::{keyword_str, resolve, Command};
use crate::text::first_token_str;
use vstd::hash_map::{HashMapWithView, StringHashMap};
use vstd::prelude::*;
use vstd::string::StringExecFns;

verus! {

broadcast use vstd::std_specs::hash::group_hash_axioms;

/// A playing character: the name it is publicly known under and its
/// (deliberately unclamped) health.
pub struct Character {
    pub name: String,
    pub health: i32,
    pub max_health: i32,
}

impl View for Character {
    type V = CharacterModel;

    open spec fn view(&self) -> CharacterModel {
        CharacterModel { name: self.name@, health: self.health as int, max_health: self.max_health as int }
    }
}

/// Per-connection session state; it only ever moves forward, from `Login`
/// to `Playing`.
pub enum PlayerState {
    Login,
    Playing(Character),
}

impl View for PlayerState {
    type V = PlayerModel;

    open spec fn view(&self) -> PlayerModel {
        match self {
            PlayerState::Login => PlayerModel::Login,
            PlayerState::Playing(c) => PlayerModel::Playing(c@),
        }
    }
}

/// What a connection sent: its lifecycle events, its raw command text, or
/// the timer's tick.
pub enum Payload {
    Opened,
    CommandText(String),
    Closed,
    Tick,
}

impl View for Payload {
    type V = PayloadModel;

    open spec fn view(&self) -> PayloadModel {
        match self {
            Payload::Opened => PayloadModel::Opened,
            Payload::CommandText(s) => PayloadModel::CommandText(s@),
            Payload::Closed => PayloadModel::Closed,
            Payload::Tick => PayloadModel::Tick,
        }
    }
}

/// One unit of work delivered to the engine, tagging its source connection.
pub struct Envelope {
    pub connection_id: u32,
    pub payload: Payload,
}

/// An outbound wire message: a chat line with its category code, or a
/// health update `(current, max)`.
pub enum OutMessage {
    Chat(String, u32),
    Health(i32, i32),
}

impl View for OutMessage {
    type V = MessageModel;

    open spec fn view(&self) -> MessageModel {
        match self {
            OutMessage::Chat(s, cat) => MessageModel::Chat(s@, *cat),
            OutMessage::Health(h, mh) => MessageModel::Health(*h as int, *mh as int),
        }
    }
}

/// One transport-level effect the engine asks for; the transport performs
/// them in list order.
pub enum Action {
    Unicast(u32, OutMessage),
    Broadcast(OutMessage),
    CloseConnection(u32),
}

impl View for Action {
    type V = ActionModel;

    open spec fn view(&self) -> ActionModel {
        match self {
            Action::Unicast(id, msg) => ActionModel::Unicast(*id, msg@),
            Action::Broadcast(msg) => ActionModel::Broadcast(msg@),
            Action::CloseConnection(id) => ActionModel::CloseConnection(*id),
        }
    }
}

impl DeepView for Action {
    type V = ActionModel;

    open spec fn deep_view(&self) -> ActionModel {
        self@
    }
}

/// The authoritative owner of all shared session state.  Exactly one
/// engine exists; only its own [`Engine::step`] ever reads or writes the
/// directory, the registry, the history or the counter.
pub struct Engine {
    players: HashMapWithView<u32, PlayerState>,
    names: StringHashMap<u32>,
    history: Vec<String>,
    ticks: u64,
}

impl View for Engine {
    type V = EngineModel;

    closed spec fn view(&self) -> EngineModel {
        EngineModel {
            players: self.players@.map_values(|p: PlayerState| p@),
            names: self.names@,
            history: self.history@.map_values(|s: String| s@),
            ticks: self.ticks as nat,
        }
    }
}

impl Engine {
    /// A fresh engine: no players, no names, no history, no ticks.
    pub fn new() -> (e: Engine)
        ensures
            e@ == init_model(),
            wf(e@),
    {
        let e = Engine {
            players: HashMapWithView::new(),
            names: StringHashMap::new(),
            history: Vec::new(),
            ticks: 0,
        };
        proof {
            assert(e@ =~= init_model());
        }
        e
    }

    /// A fresh connection: a directory entry in `Login` and the prompt.
    fn handle_opened(&mut self, id: u32) -> (acts: Vec<Action>)
        ensures
            final(self)@ == step_opened(old(self)@, id).0,
            acts.deep_view() == step_opened(old(self)@, id).1,
    {
        if self.players.contains_key(&id) {
            let acts: Vec<Action> = Vec::new();
            proof {
                assert(acts.deep_view() =~= step_opened(old(self)@, id).1);
            }
            acts
        } else {
            self.players.insert(id, PlayerState::Login);
            let mut acts: Vec<Action> = Vec::new();
            acts.push(
                Action::Unicast(
                    id,
                    OutMessage::Chat(("Please enter a name").to_owned(), CATEGORY_PROMPT),
                ),
            );
            proof {
                assert(self@.players =~= step_opened(old(self)@, id).0.players);
                assert(self@ =~= step_opened(old(self)@, id).0);
                assert(acts.deep_view() =~= step_opened(old(self)@, id).1);
            }
            acts
        }
    }

    /// A login attempt: the whole raw text is the candidate name.
    fn handle_login(&mut self, id: u32, name: String) -> (acts: Vec<Action>)
        ensures
            final(self)@ == step_login(old(self)@, id, name@).0,
            acts.deep_view() == step_login(old(self)@, id, name@).1,
    {
        let ghost m0 = self@;
        if self.names.contains_key(name.as_str()) {
            let msg = ("The name ").to_owned().concat(name.as_str()).concat(
                " is already taken, do better this time",
            );
            let mut acts: Vec<Action> = Vec::new();
            acts.push(Action::Unicast(id, OutMessage::Chat(msg, CATEGORY_SYSTEM)));
            proof {
                assert(acts.deep_view() =~= step_login(m0, id, name@).1);
            }
            acts
        } else {
            let ghost target = step_login(m0, id, name@);
            let mut acts: Vec<Action> = Vec::new();
            acts.push(Action::Unicast(id, OutMessage::Health(LOGIN_HEALTH, LOGIN_MAX_HEALTH)));
            let ghost first = ActionModel::Unicast(
                id,
                MessageModel::Health(LOGIN_HEALTH as int, LOGIN_MAX_HEALTH as int),
            );
            let mut i: usize = 0;
            while i < self.history.len()
                invariant
                    self@ == m0,
                    i <= self.history.len(),
                    acts.deep_view() == seq![first] + crate::model::replay_actions(
                        m0.history.take(i as int),
                        id,
                    ),
                decreases self.history.len() - i,
            {
                let line = self.history[i].clone();
                let ghost acts0 = acts.deep_view();
                acts.push(Action::Unicast(id, OutMessage::Chat(line, CATEGORY_HISTORY)));
                i = i + 1;
                proof {
                    assert(acts.deep_view() =~= acts0.push(
                        ActionModel::Unicast(
                            id,
                            MessageModel::Chat(m0.history[i as int - 1], CATEGORY_HISTORY),
                        ),
                    ));
                    assert(m0.history.take(i as int) =~= m0.history.take(i as int - 1).push(
                        m0.history[i as int - 1],
                    ));
                    assert(crate::model::replay_actions(m0.history.take(i as int), id)
                        =~= crate::model::replay_actions(m0.history.take(i as int - 1), id).push(
                        ActionModel::Unicast(
                            id,
                            MessageModel::Chat(m0.history[i as int - 1], CATEGORY_HISTORY),
                        ),
                    ));
                    assert(acts.deep_view() =~= seq![first] + crate::model::replay_actions(
                        m0.history.take(i as int),
                        id,
                    ));
                }
            }
            proof {
                assert(m0.history.take(self.history.len() as int) =~= m0.history);
            }
            self.names.insert(name.clone(), id);
            self.players.insert(
                id,
                PlayerState::Playing(
                    Character {
                        name: name.clone(),
                        health: LOGIN_HEALTH,
                        max_health: LOGIN_MAX_HEALTH,
                    },
                ),
            );
            acts.push(
                Action::Broadcast(OutMessage::Chat(name.concat(" has joined"), CATEGORY_SYSTEM)),
            );
            proof {
                assert(self@.players =~= target.0.players);
                assert(self@.names =~= target.0.names);
                assert(self@ =~= target.0);
                assert(acts.deep_view() =~= target.1);
            }
            acts
        }
    }

    /// Command text from a playing character: resolve the first token,
    /// then log, broadcast and apply the command's effect.
    fn handle_playing(&mut self, id: u32, character: Character, text: String) -> (acts: Vec<
        Action,
    >)
        ensures
            final(self)@ == step_playing(old(self)@, id, character@, text@).0,
            acts.deep_view() == step_playing(old(self)@, id, character@, text@).1,
    {
        let ghost m0 = self@;
        let ghost target = step_playing(m0, id, character@, text@);
        let tok = first_token_str(text.as_str());
        match (if tok.as_str().is_empty() { None } else { resolve(tok.as_str()) }) {
            None => {
                let msg = ("I don't know what \"").to_owned().concat(tok.as_str()).concat(
                    "\" means",
                );
                let mut acts: Vec<Action> = Vec::new();
                acts.push(Action::Unicast(id, OutMessage::Chat(msg, CATEGORY_SYSTEM)));
                proof {
                    assert(acts.deep_view() =~= target.1);
                }
                acts
            },
            Some(cmd) => {
                let kw = keyword_str(cmd);
                let line = character.name.clone().concat(": \"").concat(kw).concat("\"");
                self.history.push(line.clone());
                proof {
                    assert(self@.history =~= m0.history.push(line@));
                }
                match cmd {
                    Command::Kick => {
                        let h2 = if character.health >= i32::MIN + KICK_DAMAGE {
                            character.health - KICK_DAMAGE
                        } else {
                            i32::MIN
                        };
                        let maxh = character.max_health;
                        self.players.insert(
                            id,
                            PlayerState::Playing(
                                Character { name: character.name, health: h2, max_health: maxh },
                            ),
                        );
                        let mut acts: Vec<Action> = Vec::new();
                        acts.push(
                            Action::Unicast(
                                id,
                                OutMessage::Chat(
                                    ("You kick yourself, ouch").to_owned(),
                                    CATEGORY_SYSTEM,
                                ),
                            ),
                        );
                        acts.push(Action::Unicast(id, OutMessage::Health(h2, maxh)));
                        acts.push(Action::Broadcast(OutMessage::Chat(line, CATEGORY_CHAT)));
                        proof {
                            assert(self@.players =~= target.0.players);
                            assert(self@ =~= target.0);
                            assert(acts.deep_view() =~= target.1);
                        }
                        acts
                    },
                    Command::Quit => {
                        let mut acts: Vec<Action> = Vec::new();
                        acts.push(
                            Action::Unicast(
                                id,
                                OutMessage::Chat(("No, goodbye").to_owned(), CATEGORY_SYSTEM),
                            ),
                        );
                        acts.push(Action::Broadcast(OutMessage::Chat(line, CATEGORY_CHAT)));
                        acts.push(Action::CloseConnection(id));
                        proof {
                            assert(self@ =~= target.0);
                            assert(acts.deep_view() =~= target.1);
                        }
                        acts
                    },
                    _ => {
                        let msg = kw.to_owned().concat(" is not implemented yet");
                        let mut acts: Vec<Action> = Vec::new();
                        acts.push(Action::Unicast(id, OutMessage::Chat(msg, CATEGORY_SYSTEM)));
                        acts.push(Action::Broadcast(OutMessage::Chat(line, CATEGORY_CHAT)));
                        proof {
                            assert(self@ =~= target.0);
                            assert(acts.deep_view() =~= target.1);
                        }
                        acts
                    },
                }
            },
        }
    }

    /// Command text: route to the sender's session state; text for an
    /// unknown connection is dropped defensively.
    fn handle_command(&mut self, id: u32, text: String) -> (acts: Vec<Action>)
        ensures
            final(self)@ == spec_step(old(self)@, id, PayloadModel::CommandText(text@)).0,
            acts.deep_view() == spec_step(old(self)@, id, PayloadModel::CommandText(text@)).1,
    {
        if !self.players.contains_key(&id) {
            let acts: Vec<Action> = Vec::new();
            proof {
                assert(acts.deep_view() =~= Seq::<ActionModel>::empty());
            }
            acts
        } else {
            match self.players.get(&id) {
                Some(PlayerState::Playing(c)) => {
                    let character = Character {
                        name: c.name.clone(),
                        health: c.health,
                        max_health: c.max_health,
                    };
                    proof {
                        assert(old(self)@.players[id] == PlayerModel::Playing(character@));
                    }
                    self.handle_playing(id, character, text)
                },
                _ => {
                    proof {
                        assert(old(self)@.players[id] is Login);
                    }
                    self.handle_login(id, text)
                },
            }
        }
    }

    /// A closed connection: free the directory entry, and for a playing
    /// character also the name, with a departure notice to everyone.
    fn handle_closed(&mut self, id: u32) -> (acts: Vec<Action>)
        ensures
            final(self)@ == step_closed(old(self)@, id).0,
            acts.deep_view() == step_closed(old(self)@, id).1,
    {
        let ghost m0 = self@;
        match self.players.remove(&id) {
            None => {
                let acts: Vec<Action> = Vec::new();
                proof {
                    assert(self@.players =~= m0.players);
                    assert(self@ =~= m0);
                    assert(acts.deep_view() =~= step_closed(m0, id).1);
                }
                acts
            },
            Some(PlayerState::Login) => {
                let acts: Vec<Action> = Vec::new();
                proof {
                    assert(self@.players =~= m0.players.remove(id));
                    assert(self@ =~= step_closed(m0, id).0);
                    assert(acts.deep_view() =~= step_closed(m0, id).1);
                }
                acts
            },
            Some(PlayerState::Playing(c)) => {
                self.names.remove(c.name.as_str());
                let mut acts: Vec<Action> = Vec::new();
                acts.push(
                    Action::Broadcast(
                        OutMessage::Chat(c.name.concat(" has departed"), CATEGORY_SYSTEM),
                    ),
                );
                proof {
                    assert(self@.players =~= m0.players.remove(id));
                    assert(self@ =~= step_closed(m0, id).0);
                    assert(acts.deep_view() =~= step_closed(m0, id).1);
                }
                acts
            },
        }
    }

    /// A timer tick: count it, saturating at the machine ceiling.
    fn handle_tick(&mut self) -> (acts: Vec<Action>)
        ensures
            final(self)@ == (EngineModel {
                ticks: if old(self)@.ticks < u64::MAX {
                    (old(self)@.ticks + 1) as nat
                } else {
                    old(self)@.ticks
                },
                ..old(self)@
            }),
            acts.deep_view() == Seq::<ActionModel>::empty(),
    {
        if self.ticks < u64::MAX {
            self.ticks = self.ticks + 1;
        }
        let acts: Vec<Action> = Vec::new();
        proof {
            assert(acts.deep_view() =~= Seq::<ActionModel>::empty());
        }
        acts
    }

    /// Processes one envelope to completion: exactly the model's
    /// [`spec_step`], and well-formedness is preserved.
    pub fn step(&mut self, env: Envelope) -> (actions: Vec<Action>)
        ensures
            final(self)@ == spec_step(old(self)@, env.connection_id, env.payload@).0,
            actions.deep_view() == spec_step(old(self)@, env.connection_id, env.payload@).1,
            wf(old(self)@) ==> wf(final(self)@),
    {
        proof {
            if wf(self@) {
                lemma_step_preserves_wf(self@, env.connection_id, env.payload@);
            }
        }
        let Envelope { connection_id: id, payload } = env;
        match payload {
            Payload::Opened => self.handle_opened(id),
            Payload::CommandText(text) => self.handle_command(id, text),
            Payload::Closed => self.handle_closed(id),
            Payload::Tick => self.handle_tick(),
        }
    }

    /// How many ticks have been processed.
    pub fn tick_count(&self) -> (n: u64)
        ensures
            n as nat == self@.ticks,
    {
        self.ticks
    }

    /// Whether `name` is currently registered to some playing character.
    pub fn name_taken(&self, name: &str) -> (r: bool)
        ensures
            r == self@.names.contains_key(name@),
    {
        self.names.contains_key(name)
    }

    /// The playing character behind `id`, if that connection is playing.
    pub fn character_of(&self, id: u32) -> (r: Option<Character>)
        ensures
            match r {
                Some(c) => self@.players.contains_key(id) && self@.players[id]
                    == PlayerModel::Playing(c@),
                None => !self@.players.contains_key(id) || self@.players[id] is Login,
            },
    {
        match self.players.get(&id) {
            Some(PlayerState::Playing(c)) => Some(
                Character { name: c.name.clone(), health: c.health, max_health: c.max_health },
            ),
            _ => None,
        }
    }

    /// Whether any player entry exists for `id`.
    pub fn has_player(&self, id: u32) -> (r: bool)
        ensures
            r == self@.players.contains_key(id),
    {
        self.players.contains_key(&id)
    }

    /// A copy of the chat history, oldest line first.
    pub fn history_snapshot(&self) -> (h: Vec<String>)
        ensures
            h@.map_values(|s: String| s@) == self@.history,
    {
        let mut h: Vec<String> = Vec::new();
        let mut i: usize = 0;
        while i < self.history.len()
            invariant
                i <= self.history.len(),
                h@.map_values(|s: String| s@) == self.history@.take(i as int).map_values(
                    |s: String| s@,
                ),
            decreases self.history.len() - i,
        {
            let ghost h0 = h@.map_values(|s: String| s@);
            h.push(self.history[i].clone());
            i = i + 1;
            proof {
                assert(h@.map_values(|s: String| s@) =~= h0.push(self.history@[i as int - 1]@));
                assert(self.history@.take(i as int) =~= self.history@.take(i as int - 1).push(
                    self.history@[i as int - 1],
                ));
                assert(h@.map_values(|s: String| s@) =~= self.history@.take(i as int).map_values(
                    |s: String| s@,
                ));
            }
        }
        proof {
            assert(self.history@.take(self.history@.len() as int) =~= self.history@);
        }
        h
    }
}

} // verus!
