//! The laws of the engine, proved once and for all over the model: every
//! property here holds of every reachable state and every envelope, because
//! the executable engine is proved to implement [`crate::model::spec_step`]
//! exactly.

use crate::model::{
    chat_lines, damaged_health, depart_text, init_model, join_text, kick_flavor_text,
    rejection_text, run_steps, spec_step, targets, tick_envelopes, wf, ActionModel,
    CharacterModel, EngineModel, MessageModel, PayloadModel, PlayerModel, CATEGORY_CHAT,
    CATEGORY_HISTORY, CATEGORY_SYSTEM, KICK_DAMAGE, LOGIN_HEALTH, LOGIN_MAX_HEALTH,
};
use crate::resolver::{
    edit_distance, keyword, resolve_scan, spec_resolve, vocabulary, Command, TOLERANCE,
};
use crate::text::first_token;
use vstd::prelude::*;

verus! {

/// The engine starts well-formed.
pub proof fn lemma_init_wf()
    ensures
        wf(init_model()),
{
}

/// Processing an envelope keeps the state well-formed: names and playing
/// characters stay in exact one-to-one correspondence, and the directory
/// keeps at most one player per connection.
pub proof fn lemma_step_preserves_wf(m: EngineModel, id: u32, p: PayloadModel)
    requires
        wf(m),
    ensures
        wf(spec_step(m, id, p).0),
{
    let m2 = spec_step(m, id, p).0;
    match p {
        PayloadModel::Opened => {
        },
        PayloadModel::CommandText(text) => {
            if m.players.contains_key(id) {
                match m.players[id] {
                    PlayerModel::Login => {
                        if !m.names.contains_key(text) {
                            assert forall|n: Seq<char>| #[trigger] m2.names.contains_key(n) implies {
                                &&& m2.players.contains_key(m2.names[n])
                                &&& m2.players[m2.names[n]] matches PlayerModel::Playing(c)
                                    && c.name == n
                            } by {
                                if n != text {
                                    assert(m.names.contains_key(n));
                                    assert(m.names[n] != id);
                                }
                            }
                        }
                    },
                    PlayerModel::Playing(c) => {
                        match spec_resolve(first_token(text)) {
                            Option::Some(Command::Kick) => {
                                assert(m.names.contains_key(c.name) && m.names[c.name] == id);
                                assert forall|n: Seq<char>|
                                    #[trigger] m2.names.contains_key(n) implies {
                                    &&& m2.players.contains_key(m2.names[n])
                                    &&& m2.players[m2.names[n]] matches PlayerModel::Playing(c3)
                                        && c3.name == n
                                } by {
                                    assert(m.names.contains_key(n));
                                }
                            },
                            _ => {
                            },
                        }
                    },
                }
            }
        },
        PayloadModel::Closed => {
            if m.players.contains_key(id) {
                match m.players[id] {
                    PlayerModel::Login => {
                        assert forall|n: Seq<char>| #[trigger] m2.names.contains_key(n) implies {
                            &&& m2.players.contains_key(m2.names[n])
                            &&& m2.players[m2.names[n]] matches PlayerModel::Playing(c)
                                && c.name == n
                        } by {
                            assert(m.names.contains_key(n));
                            assert(m.names[n] != id);
                        }
                    },
                    PlayerModel::Playing(c) => {
                        assert forall|n: Seq<char>| #[trigger] m2.names.contains_key(n) implies {
                            &&& m2.players.contains_key(m2.names[n])
                            &&& m2.players[m2.names[n]] matches PlayerModel::Playing(c3)
                                && c3.name == n
                        } by {
                            assert(m.names.contains_key(n));
                            assert(n != c.name);
                            assert(m.names[n] != id);
                        }
                        assert forall|pid: u32| #[trigger] m2.players.contains_key(pid) implies (
                        m2.players[pid] matches PlayerModel::Playing(c3)
                            ==> m2.names.contains_key(c3.name) && m2.names[c3.name] == pid) by {
                            assert(m.players.contains_key(pid));
                            match m.players[pid] {
                                PlayerModel::Playing(c3) => {
                                    assert(m.names.contains_key(c3.name) && m.names[c3.name]
                                        == pid);
                                    assert(pid != id);
                                    assert(c3.name != c.name);
                                },
                                PlayerModel::Login => {
                                },
                            }
                        }
                    },
                }
            }
        },
        PayloadModel::Tick => {
        },
    }
}

/// Name uniqueness: when two connections in `Login` race for the same free
/// name, whichever envelope the mailbox serializes first wins it; the other
/// connection is rejected and stays in `Login`, whatever the arrival order
/// at the producers was.
pub proof fn lemma_name_uniqueness(m: EngineModel, a: u32, b: u32, name: Seq<char>)
    requires
        wf(m),
        a != b,
        m.players.contains_key(a) && m.players[a] is Login,
        m.players.contains_key(b) && m.players[b] is Login,
        !m.names.contains_key(name),
    ensures
        ({
            let r1 = spec_step(m, a, PayloadModel::CommandText(name));
            let r2 = spec_step(r1.0, b, PayloadModel::CommandText(name));
            &&& r1.0.players[a] == PlayerModel::Playing(
                (CharacterModel {
                    name,
                    health: LOGIN_HEALTH as int,
                    max_health: LOGIN_MAX_HEALTH as int,
                }),
            )
            &&& r1.0.names.contains_key(name) && r1.0.names[name] == a
            &&& r2.0 == r1.0
            &&& r2.0.players[b] is Login
            &&& r2.1 == seq![
                ActionModel::Unicast(b, MessageModel::Chat(rejection_text(name), CATEGORY_SYSTEM)),
            ]
        }),
{
}

/// History replay order: a successful login hands the new player every
/// prior chat line, oldest first, right after its health update and before
/// the join notice; chat lines broadcast later can only follow in later
/// steps, hence after the whole replay.
pub proof fn lemma_history_replay(m: EngineModel, id: u32, name: Seq<char>)
    requires
        m.players.contains_key(id) && m.players[id] is Login,
        !m.names.contains_key(name),
    ensures
        ({
            let r = spec_step(m, id, PayloadModel::CommandText(name));
            &&& r.1.len() == 2 + m.history.len()
            &&& r.1[0] == ActionModel::Unicast(
                id,
                MessageModel::Health(LOGIN_HEALTH as int, LOGIN_MAX_HEALTH as int),
            )
            &&& forall|k: int|
                0 <= k < m.history.len() ==> r.1[1 + k] == ActionModel::Unicast(
                    id,
                    MessageModel::Chat(#[trigger] m.history[k], CATEGORY_HISTORY),
                )
            &&& r.1[1 + m.history.len() as int] == ActionModel::Broadcast(
                MessageModel::Chat(join_text(name), CATEGORY_SYSTEM),
            )
            &&& r.0.history == m.history
        }),
{
}

/// Whether an action broadcasts a public chat line.
pub open spec fn is_chat_broadcast(a: ActionModel) -> bool {
    a matches ActionModel::Broadcast(MessageModel::Chat(t, cat)) && cat == CATEGORY_CHAT
}

proof fn lemma_chat_lines_none(acts: Seq<ActionModel>)
    requires
        forall|i: int| 0 <= i < acts.len() ==> !is_chat_broadcast(#[trigger] acts[i]),
    ensures
        chat_lines(acts) == Seq::<Seq<char>>::empty(),
    decreases acts.len(),
{
    if acts.len() > 0 {
        assert(forall|i: int|
            0 <= i < acts.drop_first().len() ==> acts.drop_first()[i] == acts[i + 1]);
        lemma_chat_lines_none(acts.drop_first());
    }
}

proof fn lemma_chat_lines_cons(a: ActionModel, rest: Seq<ActionModel>)
    ensures
        chat_lines(seq![a] + rest) == ({
            let tail = chat_lines(rest);
            match a {
                ActionModel::Broadcast(MessageModel::Chat(t, cat)) => if cat == CATEGORY_CHAT {
                    seq![t] + tail
                } else {
                    tail
                },
                _ => tail,
            }
        }),
{
    let s = seq![a] + rest;
    assert(s[0] == a);
    assert(s.drop_first() =~= rest);
}

/// Broadcast/append ordering: one step never rewrites the history, and the
/// public chat lines it broadcasts are exactly the lines it appends, in the
/// same order.  Since the engine performs steps one at a time in mailbox
/// order, every listener observes chat lines in history order.
pub proof fn lemma_broadcast_append_order(m: EngineModel, id: u32, p: PayloadModel)
    ensures
        ({
            let r = spec_step(m, id, p);
            &&& m.history.len() <= r.0.history.len()
            &&& r.0.history.take(m.history.len() as int) == m.history
            &&& chat_lines(r.1) == r.0.history.skip(m.history.len() as int)
        }),
{
    let r = spec_step(m, id, p);
    let hlen = m.history.len() as int;
    match p {
        PayloadModel::Opened => {
            lemma_chat_lines_none(r.1);
            assert(r.0.history.take(hlen) =~= m.history);
            assert(r.0.history.skip(hlen) =~= Seq::<Seq<char>>::empty());
        },
        PayloadModel::CommandText(text) => {
            if !m.players.contains_key(id) {
                lemma_chat_lines_none(r.1);
                assert(r.0.history.take(hlen) =~= m.history);
                assert(r.0.history.skip(hlen) =~= Seq::<Seq<char>>::empty());
            } else {
                match m.players[id] {
                    PlayerModel::Login => {
                        if !m.names.contains_key(text) {
                            assert(forall|i: int|
                                0 <= i < r.1.len() ==> !is_chat_broadcast(#[trigger] r.1[i]));
                        }
                        lemma_chat_lines_none(r.1);
                        assert(r.0.history.take(hlen) =~= m.history);
                        assert(r.0.history.skip(hlen) =~= Seq::<Seq<char>>::empty());
                    },
                    PlayerModel::Playing(c) => {
                        if first_token(text).len() == 0 {
                            lemma_chat_lines_none(r.1);
                            assert(r.0.history.take(hlen) =~= m.history);
                            assert(r.0.history.skip(hlen) =~= Seq::<Seq<char>>::empty());
                        } else {
                            match spec_resolve(first_token(text)) {
                                Option::None => {
                                    lemma_chat_lines_none(r.1);
                                    assert(r.0.history.take(hlen) =~= m.history);
                                    assert(r.0.history.skip(hlen) =~= Seq::<Seq<char>>::empty());
                                },
                                Option::Some(k) => {
                                    let line = crate::model::chat_line_text(c.name, keyword(k));
                                    let bline = ActionModel::Broadcast(
                                        MessageModel::Chat(line, CATEGORY_CHAT),
                                    );
                                    assert(r.0.history == m.history.push(line));
                                    assert(r.0.history.take(hlen) =~= m.history);
                                    assert(r.0.history.skip(hlen) =~= seq![line]);
                                    assert(seq![bline] =~= seq![bline] + Seq::<ActionModel>::empty());
                                    lemma_chat_lines_cons(bline, Seq::<ActionModel>::empty());
                                    assert(chat_lines(seq![bline]) == seq![line]);
                                    match k {
                                        Command::Kick => {
                                            assert(r.1 =~= seq![r.1[0]] + (seq![r.1[1]] + seq![
                                                bline,
                                            ]));
                                            assert(seq![r.1[1]] + seq![bline] =~= seq![r.1[1]] + (seq![
                                                bline,
                                            ] + Seq::<ActionModel>::empty()));
                                            lemma_chat_lines_cons(
                                                r.1[1],
                                                seq![bline] + Seq::<ActionModel>::empty(),
                                            );
                                            assert(seq![bline] + Seq::<ActionModel>::empty()
                                                =~= seq![bline]);
                                            lemma_chat_lines_cons(r.1[0], seq![r.1[1]] + seq![bline]);
                                            assert(chat_lines(r.1) == seq![line]);
                                        },
                                        Command::Quit => {
                                            let tail = seq![bline] + seq![r.1[2]];
                                            assert(r.1 =~= seq![r.1[0]] + tail);
                                            assert(seq![r.1[2]] =~= seq![r.1[2]]
                                                + Seq::<ActionModel>::empty());
                                            lemma_chat_lines_cons(r.1[2], Seq::<ActionModel>::empty());
                                            lemma_chat_lines_cons(bline, seq![r.1[2]]);
                                            lemma_chat_lines_cons(r.1[0], tail);
                                            assert(chat_lines(r.1) == seq![line]);
                                        },
                                        _ => {
                                            assert(r.1 =~= seq![r.1[0]] + seq![bline]);
                                            assert(seq![bline] =~= seq![bline]
                                                + Seq::<ActionModel>::empty());
                                            lemma_chat_lines_cons(r.1[0], seq![bline]);
                                            assert(chat_lines(r.1) == seq![line]);
                                        },
                                    }
                                },
                            }
                        }
                    },
                }
            }
        },
        PayloadModel::Closed => {
            lemma_chat_lines_none(r.1);
            assert(r.0.history.take(hlen) =~= m.history);
            assert(r.0.history.skip(hlen) =~= Seq::<Seq<char>>::empty());
        },
        PayloadModel::Tick => {
            lemma_chat_lines_none(r.1);
            assert(r.0.history.take(hlen) =~= m.history);
            assert(r.0.history.skip(hlen) =~= Seq::<Seq<char>>::empty());
        },
    }
}

proof fn lemma_chat_lines_concat(a: Seq<ActionModel>, b: Seq<ActionModel>)
    ensures
        chat_lines(a + b) == chat_lines(a) + chat_lines(b),
    decreases a.len(),
{
    if a.len() == 0 {
        assert(a + b =~= b);
        assert(chat_lines(a) + chat_lines(b) =~= chat_lines(b));
    } else {
        lemma_chat_lines_concat(a.drop_first(), b);
        assert((a + b).drop_first() =~= a.drop_first() + b);
        assert((a + b)[0] == a[0]);
        match a[0] {
            ActionModel::Broadcast(MessageModel::Chat(t, cat)) => {
                if cat == CATEGORY_CHAT {
                    assert(seq![t] + (chat_lines(a.drop_first()) + chat_lines(b)) =~= (seq![t]
                        + chat_lines(a.drop_first())) + chat_lines(b));
                }
            },
            _ => {
            },
        }
    }
}

/// Broadcast/append ordering over a whole run of the engine loop: for any
/// sequence of envelopes across any connections, the public chat lines
/// broadcast over the run are exactly the lines the run appends to the
/// history, in the same order.
pub proof fn lemma_run_broadcast_append_order(m: EngineModel, envs: Seq<(u32, PayloadModel)>)
    ensures
        ({
            let r = run_steps(m, envs);
            &&& m.history.len() <= r.0.history.len()
            &&& r.0.history.take(m.history.len() as int) == m.history
            &&& chat_lines(r.1) == r.0.history.skip(m.history.len() as int)
        }),
    decreases envs.len(),
{
    let r = run_steps(m, envs);
    let l0 = m.history.len() as int;
    if envs.len() == 0 {
        assert(r.0.history.take(l0) =~= m.history);
        assert(r.0.history.skip(l0) =~= Seq::<Seq<char>>::empty());
    } else {
        let head = spec_step(m, envs[0].0, envs[0].1);
        let rest = run_steps(head.0, envs.drop_first());
        let l1 = head.0.history.len() as int;
        lemma_broadcast_append_order(m, envs[0].0, envs[0].1);
        lemma_run_broadcast_append_order(head.0, envs.drop_first());
        lemma_chat_lines_concat(head.1, rest.1);
        assert(r.0.history.take(l0) =~= m.history);
        assert(r.0.history.skip(l0) =~= head.0.history.skip(l0) + rest.0.history.skip(l1));
        assert(chat_lines(r.1) == r.0.history.skip(l0));
    }
}

/// Kick effect: a playing character that issues `kick` loses exactly
/// [`KICK_DAMAGE`] health and hears exactly one health update, carrying the
/// new value; nothing bounds how low health may go.  (At the machine floor,
/// health `i32::MIN + 2` and below, the engine saturates instead of
/// wrapping; such health is left out here.)
pub proof fn lemma_kick_effect(m: EngineModel, id: u32, c: CharacterModel, text: Seq<char>)
    requires
        m.players.contains_key(id),
        m.players[id] == PlayerModel::Playing(c),
        first_token(text).len() > 0,
        spec_resolve(first_token(text)) == Option::Some(Command::Kick),
        c.health - KICK_DAMAGE >= i32::MIN,
    ensures
        ({
            let r = spec_step(m, id, PayloadModel::CommandText(text));
            let line = crate::model::chat_line_text(c.name, keyword(Command::Kick));
            &&& r.0.players[id] == PlayerModel::Playing(
                (CharacterModel { health: c.health - KICK_DAMAGE, ..c }),
            )
            &&& r.1 == seq![
                ActionModel::Unicast(id, MessageModel::Chat(kick_flavor_text(), CATEGORY_SYSTEM)),
                ActionModel::Unicast(id, MessageModel::Health(c.health - KICK_DAMAGE, c.max_health)),
                ActionModel::Broadcast(MessageModel::Chat(line, CATEGORY_CHAT)),
            ]
        }),
{
    assert(damaged_health(c.health) == c.health - KICK_DAMAGE);
}

/// Disconnect cleanup, first half: processing `Closed` for a playing
/// character frees its directory entry and its name — immediately reusable
/// by the next login — and broadcasts the departure notice.
pub proof fn lemma_disconnect_cleanup(m: EngineModel, id: u32, c: CharacterModel)
    requires
        m.players.contains_key(id),
        m.players[id] == PlayerModel::Playing(c),
    ensures
        ({
            let r = spec_step(m, id, PayloadModel::Closed);
            &&& !r.0.players.contains_key(id)
            &&& !r.0.names.contains_key(c.name)
            &&& r.1 == seq![
                ActionModel::Broadcast(MessageModel::Chat(depart_text(c.name), CATEGORY_SYSTEM)),
            ]
        }),
{
}

/// Disconnect cleanup, second half: once a connection has left the
/// directory, no later envelope of any other connection aims a unicast or
/// a close at it, and none resurrects its entry; broadcasts reach live
/// connections only, so the departed connection is delivered nothing.
pub proof fn lemma_no_messages_after_close(m: EngineModel, id: u32, other: u32, p: PayloadModel)
    requires
        !m.players.contains_key(id),
        other != id,
    ensures
        ({
            let r = spec_step(m, other, p);
            &&& !r.0.players.contains_key(id)
            &&& forall|k: int| 0 <= k < r.1.len() ==> !targets(#[trigger] r.1[k], id)
        }),
{
}

/// Disconnect cleanup over a whole run: however long the engine runs on,
/// as long as the departed connection's identifier is not handed out again,
/// no envelope of any other connection aims anything at it, and its
/// directory entry never reappears.
pub proof fn lemma_departed_hears_nothing(m: EngineModel, id: u32, envs: Seq<(u32, PayloadModel)>)
    requires
        !m.players.contains_key(id),
        forall|k: int| 0 <= k < envs.len() ==> (#[trigger] envs[k]).0 != id,
    ensures
        ({
            let r = run_steps(m, envs);
            &&& !r.0.players.contains_key(id)
            &&& forall|k: int| 0 <= k < r.1.len() ==> !targets(#[trigger] r.1[k], id)
        }),
    decreases envs.len(),
{
    if envs.len() > 0 {
        lemma_no_messages_after_close(m, id, envs[0].0, envs[0].1);
        let head = spec_step(m, envs[0].0, envs[0].1);
        let rest = run_steps(head.0, envs.drop_first());
        assert(forall|k: int|
            0 <= k < envs.drop_first().len() ==> (#[trigger] envs.drop_first()[k]).0 != id);
        lemma_departed_hears_nothing(head.0, id, envs.drop_first());
        assert forall|k: int| 0 <= k < (head.1 + rest.1).len() implies !targets(
            #[trigger] (head.1 + rest.1)[k],
            id,
        ) by {
            if k < head.1.len() {
                assert((head.1 + rest.1)[k] == head.1[k]);
            } else {
                assert((head.1 + rest.1)[k] == rest.1[k - head.1.len()]);
            }
        }
    }
}

proof fn lemma_step_preserves_ticks(m: EngineModel, id: u32, p: PayloadModel)
    requires
        !(p is Tick),
    ensures
        spec_step(m, id, p).0.ticks == m.ticks,
{
}

/// Tick monotonicity over a whole run: the counter ends exactly the number
/// of tick envelopes higher, however much command traffic is interleaved.
/// (The counter's machine ceiling, unreachable in the life of a process,
/// is excluded.)
pub proof fn lemma_run_tick_count(m: EngineModel, envs: Seq<(u32, PayloadModel)>)
    requires
        m.ticks + tick_envelopes(envs) <= u64::MAX,
    ensures
        run_steps(m, envs).0.ticks == m.ticks + tick_envelopes(envs),
    decreases envs.len(),
{
    if envs.len() > 0 {
        let head = spec_step(m, envs[0].0, envs[0].1);
        if envs[0].1 is Tick {
            assert(head.0.ticks == m.ticks + 1);
        } else {
            lemma_step_preserves_ticks(m, envs[0].0, envs[0].1);
        }
        lemma_run_tick_count(head.0, envs.drop_first());
    }
}

/// Tick monotonicity: each `Tick` envelope increments the counter by
/// exactly one and touches nothing else; no other envelope, whatever the
/// command traffic volume, moves the counter.  (The counter saturates at
/// the machine ceiling `u64::MAX`, which is excluded here.)
pub proof fn lemma_tick_monotonicity(m: EngineModel, id: u32, p: PayloadModel)
    requires
        m.ticks < u64::MAX,
    ensures
        p is Tick ==> spec_step(m, id, p).0 == (EngineModel { ticks: m.ticks + 1, ..m })
            && spec_step(m, id, p).1 == Seq::<ActionModel>::empty(),
        !(p is Tick) ==> spec_step(m, id, p).0.ticks == m.ticks,
{
}

/// Resolver tolerance: the resolver finds a keyword exactly when some
/// vocabulary entry lies within [`TOLERANCE`] of the token; what it returns
/// is then a closest entry, and the earliest-declared one on distance ties.
pub proof fn lemma_resolver_tolerance(tok: Seq<char>)
    ensures
        spec_resolve(tok) is None <==> (forall|j: int|
            0 <= j < vocabulary().len() ==> edit_distance(keyword(#[trigger] vocabulary()[j]), tok)
                > TOLERANCE),
        spec_resolve(tok) matches Option::Some(c) ==> {
            &&& vocabulary().contains(c)
            &&& edit_distance(keyword(c), tok) <= TOLERANCE
            &&& forall|j: int|
                0 <= j < vocabulary().len() ==> edit_distance(
                    keyword(#[trigger] vocabulary()[j]),
                    tok,
                ) >= edit_distance(keyword(c), tok)
            &&& exists|i: int|
                #![trigger vocabulary()[i]]
                0 <= i < vocabulary().len() && vocabulary()[i] == c && (forall|j: int|
                    0 <= j < i ==> edit_distance(keyword(#[trigger] vocabulary()[j]), tok)
                        > edit_distance(keyword(c), tok))
        },
{
    lemma_resolve_scan_props(vocabulary(), tok);
    match resolve_scan(vocabulary(), tok) {
        Option::None => {
        },
        Option::Some(best) => {
            let i = choose|i: int|
                #![trigger vocabulary()[i]]
                0 <= i < vocabulary().len() && vocabulary()[i] == best.0 && edit_distance(
                    keyword(best.0),
                    tok,
                ) == best.1 && (forall|j: int|
                    0 <= j < i ==> edit_distance(keyword(#[trigger] vocabulary()[j]), tok)
                        > best.1);
            assert(vocabulary()[i] == best.0);
            assert(vocabulary().contains(best.0));
        },
    }
}

proof fn lemma_resolve_scan_props(v: Seq<Command>, tok: Seq<char>)
    ensures
        match resolve_scan(v, tok) {
            Option::None => forall|j: int|
                0 <= j < v.len() ==> edit_distance(keyword(#[trigger] v[j]), tok) > TOLERANCE,
            Option::Some(best) => {
                &&& best.1 <= TOLERANCE
                &&& edit_distance(keyword(best.0), tok) == best.1
                &&& forall|j: int|
                    0 <= j < v.len() ==> edit_distance(keyword(#[trigger] v[j]), tok) >= best.1
                &&& exists|i: int|
                    #![trigger v[i]]
                    0 <= i < v.len() && v[i] == best.0 && edit_distance(keyword(best.0), tok)
                        == best.1 && (forall|j: int|
                        0 <= j < i ==> edit_distance(keyword(#[trigger] v[j]), tok) > best.1)
            },
        },
    decreases v.len(),
{
    if v.len() > 0 {
        let pre = v.drop_last();
        lemma_resolve_scan_props(pre, tok);
        assert(forall|j: int| 0 <= j < pre.len() ==> pre[j] == #[trigger] v[j]);
        let dl = edit_distance(keyword(v.last()), tok);
        match resolve_scan(pre, tok) {
            Option::None => {
                if dl <= TOLERANCE {
                    let w = v.len() - 1;
                    assert(v[w] == v.last());
                    assert(forall|j: int|
                        0 <= j < w ==> edit_distance(keyword(#[trigger] v[j]), tok) > TOLERANCE);
                }
            },
            Option::Some(pb) => {
                let pi = choose|i: int|
                    #![trigger pre[i]]
                    0 <= i < pre.len() && pre[i] == pb.0 && edit_distance(keyword(pb.0), tok)
                        == pb.1 && (forall|j: int|
                        0 <= j < i ==> edit_distance(keyword(#[trigger] pre[j]), tok) > pb.1);
                if dl <= TOLERANCE && dl < pb.1 {
                    let w = v.len() - 1;
                    assert(v[w] == v.last());
                    assert(forall|j: int|
                        0 <= j < w ==> edit_distance(keyword(#[trigger] v[j]), tok) >= pb.1);
                } else {
                    assert(v[pi] == pb.0);
                    assert(forall|j: int|
                        0 <= j < pi ==> edit_distance(keyword(#[trigger] v[j]), tok) > pb.1);
                    assert(forall|j: int|
                        0 <= j < v.len() ==> edit_distance(keyword(#[trigger] v[j]), tok)
                            >= pb.1) by {
                        assert(forall|j: int|
                            0 <= j < pre.len() ==> edit_distance(keyword(#[trigger] v[j]), tok)
                                >= pb.1);
                    }
                }
            },
        }
    }
}

} // verus!
