//! The text-command protocol: message synthesis, inbound command
//! recognition, and the per-command dispatch step that the connection
//! loop applies under the session lock.  The transport only carries the
//! strings built here; all decisions are taken in this module.

use vstd::prelude::*;
use crate::game::all_quit;
use crate::game::all_resigned;
use crate::game::claim_word;
use crate::game::forfeit_words;
use crate::game::gaveup_player;
use crate::game::quit_player;
use crate::game::reconnected_player;
use crate::game::ungaveup_player;
use crate::game::word_claimable;
use crate::game::CoopGame;
use crate::game::CoopPlayer;
use crate::game::Guesser;
use crate::game::JoinResult;
use crate::game::QuitResult;
use crate::game::WordEntry;
use crate::grammar::check_name;
use crate::grammar::check_word;
use crate::grammar::is_name;
use crate::grammar::is_word;
use crate::grammar::str_eq;
use crate::grammar::str_starts_with;

verus! {

/// The views of a sequence of strings.
pub open spec fn views_of(ts: Seq<String>) -> Seq<Seq<char>> {
    ts.map_values(|t: String| t@)
}

/// The strings concatenated with `sep` between consecutive ones.
pub open spec fn joined(parts: Seq<Seq<char>>, sep: Seq<char>) -> Seq<char>
    decreases parts.len(),
{
    if parts.len() == 0 {
        Seq::empty()
    } else if parts.len() == 1 {
        parts[0]
    } else {
        joined(parts.drop_last(), sep) + sep + parts.last()
    }
}

/// Announcement that a participant joined.
pub open spec fn join_msg(name: Seq<char>) -> Seq<char> {
    ":join "@ + name
}

/// Announcement that a participant disconnected.
pub open spec fn quit_msg(name: Seq<char>) -> Seq<char> {
    ":quit "@ + name
}

/// Announcement that a participant gave up.
pub open spec fn giveup_msg(name: Seq<char>) -> Seq<char> {
    ":giveup "@ + name
}

/// Announcement that a participant took their give-up back.
pub open spec fn ungiveup_msg(name: Seq<char>) -> Seq<char> {
    ":ungiveup "@ + name
}

/// Announcement that everyone has given up.
pub open spec fn allgiveup_msg() -> Seq<char> {
    ":allgiveup"@
}

/// Announcement that a participant claimed a word.
pub open spec fn attempt_msg(word: Seq<char>, name: Seq<char>) -> Seq<char> {
    ":attempt "@ + word + " "@ + name
}

/// Snapshot line for a word forfeited with no claimant.
pub open spec fn attempt_noone_msg(word: Seq<char>) -> Seq<char> {
    ":attempt "@ + word + " _"@
}

/// A relayed chat line.
pub open spec fn chat_msg(name: Seq<char>, text: Seq<char>) -> Seq<char> {
    ":chat "@ + name + " "@ + text
}

/// Builds the join announcement.
pub fn join_announce(name: &str) -> (r: String)
    ensures
        r@ == join_msg(name@),
{
    let mut s = ":join ".to_owned();
    s.append(name);
    s
}

/// Builds the quit announcement.
pub fn quit_announce(name: &str) -> (r: String)
    ensures
        r@ == quit_msg(name@),
{
    let mut s = ":quit ".to_owned();
    s.append(name);
    s
}

/// Builds the give-up announcement.
pub fn giveup_announce(name: &str) -> (r: String)
    ensures
        r@ == giveup_msg(name@),
{
    let mut s = ":giveup ".to_owned();
    s.append(name);
    s
}

/// Builds the undo-give-up announcement.
pub fn ungiveup_announce(name: &str) -> (r: String)
    ensures
        r@ == ungiveup_msg(name@),
{
    let mut s = ":ungiveup ".to_owned();
    s.append(name);
    s
}

/// Builds the everyone-gave-up announcement.
pub fn allgiveup_announce() -> (r: String)
    ensures
        r@ == allgiveup_msg(),
{
    ":allgiveup".to_owned()
}

/// Builds the claim announcement.
pub fn attempt_announce(word: &str, name: &str) -> (r: String)
    ensures
        r@ == attempt_msg(word@, name@),
{
    let mut s = ":attempt ".to_owned();
    s.append(word);
    s.append(" ");
    s.append(name);
    s
}

/// Builds the snapshot line for a forfeited word.
pub fn attempt_noone_announce(word: &str) -> (r: String)
    ensures
        r@ == attempt_noone_msg(word@),
{
    let mut s = ":attempt ".to_owned();
    s.append(word);
    s.append(" _");
    s
}

/// Builds a relayed chat line.
pub fn chat_announce(name: &str, text: &str) -> (r: String)
    ensures
        r@ == chat_msg(name@, text@),
{
    let mut s = ":chat ".to_owned();
    s.append(name);
    s.append(" ");
    s.append(text);
    s
}

/// An inbound message recognized by the dispatcher.
pub enum Command {
    /// `:attempt <word>` with a well-formed word.
    Attempt(String),
    /// `:giveup`
    GiveUp,
    /// `:ungiveup`
    UnGiveUp,
    /// `:chat <text>`
    Chat(String),
    /// Anything else; ignored.
    Other,
}

/// An `:attempt` command: the prefix followed by a well-formed word.
pub open spec fn is_attempt_cmd(m: Seq<char>) -> bool {
    m.len() > 9 && m.subrange(0, 9) == ":attempt "@ && is_word(m.skip(9))
}

/// A `:chat` command: the prefix followed by arbitrary text.
pub open spec fn is_chat_cmd(m: Seq<char>) -> bool {
    m.len() >= 6 && m.subrange(0, 6) == ":chat "@
}

/// Recognize one inbound message.  Exactly the four commands are
/// recognized; everything else is `Other`.
pub fn parse_command(msg: &str) -> (r: Command)
    ensures
        is_attempt_cmd(msg@) ==> (r matches Command::Attempt(w) && w@ == msg@.skip(9)),
        msg@ == ":giveup"@ ==> r is GiveUp,
        msg@ == ":ungiveup"@ ==> r is UnGiveUp,
        (!is_attempt_cmd(msg@) && msg@ != ":giveup"@ && msg@ != ":ungiveup"@ && is_chat_cmd(msg@))
            ==> (r matches Command::Chat(t) && t@ == msg@.skip(6)),
        (!is_attempt_cmd(msg@) && msg@ != ":giveup"@ && msg@ != ":ungiveup"@ && !is_chat_cmd(msg@))
            ==> r is Other,
{
    proof {
        reveal_strlit(":attempt ");
        reveal_strlit(":chat ");
        reveal_strlit(":giveup");
        reveal_strlit(":ungiveup");
    }
    if str_eq(msg, ":giveup") {
        return Command::GiveUp;
    }
    if str_eq(msg, ":ungiveup") {
        return Command::UnGiveUp;
    }
    if str_starts_with(msg, ":attempt ") {
        let n = msg.unicode_len();
        proof {
            assert(msg@.subrange(0, 6)[1] == msg@.subrange(0, 9)[1]);
        }
        if n > 9 {
            let w = msg.substring_char(9, n);
            proof {
                assert(w@ =~= msg@.skip(9));
            }
            if check_word(w) {
                return Command::Attempt(w.to_owned());
            }
        }
        return Command::Other;
    }
    if str_starts_with(msg, ":chat ") {
        let n = msg.unicode_len();
        let t = msg.substring_char(6, n);
        proof {
            assert(t@ =~= msg@.skip(6));
        }
        return Command::Chat(t.to_owned());
    }
    Command::Other
}

/// One outbound announcement together with the connection it must not be
/// echoed to (the originator).
pub struct Broadcast {
    pub msg: String,
    pub except: Option<usize>,
}

/// Apply one inbound message from participant `pnum` to the game, and
/// say what to broadcast.  This is the whole per-command step of the
/// connection loop: exactly one state transition, then fan-out.
pub fn handle_message<T>(game: &mut CoopGame<T>, pnum: usize, msg: &str) -> (out: Vec<Broadcast>)
    requires
        old(game).wf(),
        pnum < old(game).players@.len(),
    ensures
        final(game).wf(),
        ({
            let m = msg@;
            let ps = old(game).players@;
            let name = ps[pnum as int].name@;
            &&& (is_attempt_cmd(m) ==> {
                let w = m.skip(9);
                &&& final(game).players@ == ps
                &&& (word_claimable(old(game).words@, w) ==> {
                    &&& final(game).words@ == claim_word(old(game).words@, pnum, w)
                    &&& out@.len() == 1
                    &&& out@[0].msg@ == attempt_msg(w, name)
                    &&& out@[0].except == Some(pnum)
                })
                &&& (!word_claimable(old(game).words@, w) ==> final(game).words@ == old(
                    game,
                ).words@ && out@.len() == 0)
            })
            &&& (m == ":giveup"@ ==> {
                &&& final(game).players@ == ps.update(pnum as int, gaveup_player(ps[pnum as int]))
                &&& out@.len() >= 1
                &&& out@[0].msg@ == giveup_msg(name)
                &&& out@[0].except == Some(pnum)
                &&& (all_resigned(final(game).players@) ==> {
                    &&& final(game).words@ == forfeit_words(old(game).words@)
                    &&& out@.len() == 2
                    &&& out@[1].msg@ == allgiveup_msg()
                    &&& out@[1].except is None
                })
                &&& (!all_resigned(final(game).players@) ==> final(game).words@ == old(game).words@
                    && out@.len() == 1)
            })
            &&& (m == ":ungiveup"@ ==> {
                &&& final(game).players@ == ps.update(pnum as int, ungaveup_player(ps[pnum as int]))
                &&& final(game).words@ == old(game).words@
                &&& out@.len() == 1
                &&& out@[0].msg@ == ungiveup_msg(name)
                &&& out@[0].except == Some(pnum)
            })
            &&& ((!is_attempt_cmd(m) && m != ":giveup"@ && m != ":ungiveup"@ && is_chat_cmd(m))
                ==> {
                &&& final(game).players@ == ps
                &&& final(game).words@ == old(game).words@
                &&& out@.len() == 1
                &&& out@[0].msg@ == chat_msg(name, m.skip(6))
                &&& out@[0].except == Some(pnum)
            })
            &&& ((!is_attempt_cmd(m) && m != ":giveup"@ && m != ":ungiveup"@ && !is_chat_cmd(m))
                ==> final(game).players@ == ps && final(game).words@ == old(game).words@
                && out@.len() == 0)
        }),
{
    let mut out: Vec<Broadcast> = Vec::new();
    match parse_command(msg) {
        Command::Attempt(w) => {
            let name = game.players[pnum].name.clone();
            let announce = attempt_announce(w.as_str(), name.as_str());
            let ok = game.attempt(pnum, w);
            if ok {
                out.push(Broadcast { msg: announce, except: Some(pnum) });
            }
        },
        Command::GiveUp => {
            let name = game.players[pnum].name.clone();
            out.push(Broadcast { msg: giveup_announce(name.as_str()), except: Some(pnum) });
            let all = game.player_giveup(pnum);
            if all {
                out.push(Broadcast { msg: allgiveup_announce(), except: None });
            }
        },
        Command::UnGiveUp => {
            let name = game.players[pnum].name.clone();
            out.push(Broadcast { msg: ungiveup_announce(name.as_str()), except: Some(pnum) });
            game.player_ungiveup(pnum);
        },
        Command::Chat(t) => {
            let name = game.players[pnum].name.clone();
            out.push(
                Broadcast { msg: chat_announce(name.as_str(), t.as_str()), except: Some(pnum) },
            );
        },
        Command::Other => {},
    }
    out
}

/// Participant `pnum`'s connection has ended: mark them quit, and say
/// what to broadcast and whether the session is now empty.  The quit
/// announcement always goes out; the everyone-gave-up notice follows when
/// this departure left only given-up participants connected.
pub fn handle_disconnect<T>(game: &mut CoopGame<T>, pnum: usize) -> (r: (Vec<Broadcast>, bool))
    requires
        old(game).wf(),
        pnum < old(game).players@.len(),
    ensures
        final(game).wf(),
        final(game).players@ == old(game).players@.update(
            pnum as int,
            quit_player(old(game).players@[pnum as int]),
        ),
        r.1 == all_quit(final(game).players@),
        r.0@.len() >= 1,
        r.0@[0].msg@ == quit_msg(old(game).players@[pnum as int].name@),
        r.0@[0].except == Some(pnum),
        ((!all_quit(final(game).players@) && all_resigned(final(game).players@)) ==> {
            &&& final(game).words@ == forfeit_words(old(game).words@)
            &&& r.0@.len() == 2
            &&& r.0@[1].msg@ == allgiveup_msg()
            &&& r.0@[1].except is None
        }),
        (!(!all_quit(final(game).players@) && all_resigned(final(game).players@)) ==> (final(
            game
        ).words@ == old(game).words@ && r.0@.len() == 1)),
{
    let mut out: Vec<Broadcast> = Vec::new();
    let name = game.players[pnum].name.clone();
    out.push(Broadcast { msg: quit_announce(name.as_str()), except: Some(pnum) });
    let mut empty = false;
    match game.player_quit(pnum) {
        Some(QuitResult::AllGiveup) => {
            out.push(Broadcast { msg: allgiveup_announce(), except: None });
        },
        Some(QuitResult::AllQuit) => {
            empty = true;
        },
        None => {},
    }
    (out, empty)
}

/// Outcome of one name submission during the join handshake.
pub enum NameOutcome<T> {
    /// The name breaks the grammar; reply `:badname` and keep listening.
    BadName(T),
    /// The name is held by a connected participant; reply `:taken` and
    /// keep listening.
    Taken(T),
    /// Joined under this participant index.
    Joined(usize),
}

/// Decide one name submission of the join handshake: reject a malformed
/// name outright, otherwise let the game accept, reinstate or refuse it.
/// The unused channel is handed back on every rejection.
pub fn handle_name_submission<T>(game: &mut CoopGame<T>, name: &str, send: T) -> (r: NameOutcome<
    T,
>)
    requires
        old(game).wf(),
    ensures
        final(game).wf(),
        final(game).words == old(game).words,
        !is_name(name@) ==> (r matches NameOutcome::BadName(s) && s == send && final(game).players@
            == old(game).players@),
        is_name(name@) ==> {
            &&& (r matches NameOutcome::Taken(s) ==> {
                &&& s == send
                &&& final(game).players@ == old(game).players@
                &&& exists|i: int|
                    0 <= i < old(game).players@.len() && (#[trigger] old(
                        game,
                    ).players@[i]).name@ == name@ && old(game).players@[i].send is Some
            })
            &&& (r matches NameOutcome::Joined(n) ==> {
                if exists|i: int|
                    0 <= i < old(game).players@.len() && (#[trigger] old(
                        game,
                    ).players@[i]).name@ == name@ {
                    &&& 0 <= n < old(game).players@.len()
                    &&& old(game).players@[n as int].name@ == name@
                    &&& old(game).players@[n as int].send is None
                    &&& final(game).players@ == old(game).players@.update(
                        n as int,
                        reconnected_player(old(game).players@[n as int], send),
                    )
                } else {
                    &&& n == old(game).players@.len()
                    &&& final(game).players@.len() == old(game).players@.len() + 1
                    &&& final(game).players@.take(old(game).players@.len() as int) == old(
                        game,
                    ).players@
                    &&& final(game).players@.last().name@ == name@
                    &&& final(game).players@.last().send == Some(send)
                    &&& final(game).players@.last().gaveup == false
                }
            })
            &&& !(r is BadName)
        },
{
    if !check_name(name) {
        return NameOutcome::BadName(send);
    }
    match game.try_join(name.to_owned(), send) {
        JoinResult::Joined(n) => NameOutcome::Joined(n),
        JoinResult::Taken(s) => NameOutcome::Taken(s),
    }
}

/// The indices a broadcast from `except` goes to: every connected
/// participant but the originator, in roster order.
pub fn broadcast_targets<T>(game: &CoopGame<T>, except: Option<usize>) -> (r: Vec<usize>)
    ensures
        forall|k: int|
            0 <= k < r@.len() ==> {
                &&& (#[trigger] r@[k]) < game.players@.len()
                &&& game.players@[r@[k] as int].send is Some
                &&& except != Some(r@[k])
            },
        forall|j: int|
            0 <= j < game.players@.len() && (#[trigger] game.players@[j]).send is Some && except
                != Some(j as usize) ==> r@.contains(j as usize),
        forall|k1: int, k2: int| 0 <= k1 < k2 < r@.len() ==> r@[k1] < r@[k2],
{
    let mut r: Vec<usize> = Vec::new();
    let mut i: usize = 0;
    while i < game.players.len()
        invariant
            i <= game.players@.len(),
            forall|k: int|
                0 <= k < r@.len() ==> {
                    &&& (#[trigger] r@[k]) < i
                    &&& game.players@[r@[k] as int].send is Some
                    &&& except != Some(r@[k])
                },
            forall|j: int|
                0 <= j < i && (#[trigger] game.players@[j]).send is Some && except != Some(
                    j as usize,
                ) ==> r@.contains(j as usize),
            forall|k1: int, k2: int| 0 <= k1 < k2 < r@.len() ==> r@[k1] < r@[k2],
        decreases game.players@.len() - i,
    {
        let ghost r0 = r@;
        let included = match except {
            Some(e) => e != i,
            None => true,
        };
        let pushed = included && !game.players[i].did_quit();
        if pushed {
            r.push(i);
        }
        proof {
            assert forall|j: int|
                0 <= j < i + 1 && (#[trigger] game.players@[j]).send is Some && except != Some(
                    j as usize,
                ) implies r@.contains(j as usize) by {
                if j < i {
                    let k = choose|k: int| 0 <= k < r0.len() && r0[k] == j as usize;
                    assert(r@[k] == j as usize);
                } else {
                    assert(pushed);
                    assert(r@[r0.len() as int] == i);
                }
            }
        }
        i = i + 1;
    }
    r
}

/// A participant's roster rendering: the name, with a trailing marker for
/// a quit participant.
pub open spec fn rendered_name<T>(p: CoopPlayer<T>) -> Seq<char> {
    if p.send is None {
        p.name@ + "_"@
    } else {
        p.name@
    }
}

/// The roster renderings, in order.
pub open spec fn rendered_names<T>(ps: Seq<CoopPlayer<T>>) -> Seq<Seq<char>> {
    ps.map_values(|p: CoopPlayer<T>| rendered_name(p))
}

/// The dictionary words, in order.
pub open spec fn word_views(ws: Seq<WordEntry>) -> Seq<Seq<char>> {
    ws.map_values(|e: WordEntry| e.word@)
}

/// The snapshot lines one word entry contributes: a claim line with the
/// claimant's name, a claim line with the nobody marker for a forfeited
/// word, nothing for an unclaimed word.
pub open spec fn snapshot_entry_msgs<T>(e: WordEntry, ps: Seq<CoopPlayer<T>>) -> Seq<Seq<char>> {
    match e.state {
        Guesser::Player(n) => seq![attempt_msg(e.word@, ps[n as int].name@)],
        Guesser::Gaveup => seq![attempt_noone_msg(e.word@)],
        Guesser::NoOne => Seq::empty(),
    }
}

/// The snapshot lines for all claimed and forfeited words, in dictionary
/// order.
pub open spec fn snapshot_word_msgs<T>(ws: Seq<WordEntry>, ps: Seq<CoopPlayer<T>>) -> Seq<
    Seq<char>,
>
    decreases ws.len(),
{
    if ws.len() == 0 {
        Seq::empty()
    } else {
        snapshot_word_msgs(ws.drop_last(), ps) + snapshot_entry_msgs(ws.last(), ps)
    }
}

/// The give-up line one participant contributes to the snapshot.
pub open spec fn giveup_entry_msgs<T>(p: CoopPlayer<T>) -> Seq<Seq<char>> {
    if p.gaveup {
        seq![giveup_msg(p.name@)]
    } else {
        Seq::empty()
    }
}

/// The give-up lines for all participants, in roster order.
pub open spec fn snapshot_giveup_msgs<T>(ps: Seq<CoopPlayer<T>>) -> Seq<Seq<char>>
    decreases ps.len(),
{
    if ps.len() == 0 {
        Seq::empty()
    } else {
        snapshot_giveup_msgs(ps.drop_last()) + giveup_entry_msgs(ps.last())
    }
}

/// What a newly joined participant must be told, still under the same
/// lock acquisition that joined them: the join announcement for everyone
/// else, and the complete state snapshot for the joiner — the roster
/// line, the word line, the claim lines, and the give-up lines.
#[verifier::loop_isolation(false)]
pub fn join_messages<T>(game: &CoopGame<T>, pnum: usize) -> (r: (Broadcast, Vec<String>))
    requires
        game.wf(),
        pnum < game.players@.len(),
    ensures
        r.0.msg@ == join_msg(game.players@[pnum as int].name@),
        r.0.except == Some(pnum),
        views_of(r.1@) == seq![
            joined(rendered_names(game.players@), " "@),
            joined(word_views(game.words@), " "@),
        ] + snapshot_word_msgs(game.words@, game.players@) + snapshot_giveup_msgs(game.players@),
{
    let announce = Broadcast {
        msg: join_announce(game.players[pnum].name.as_str()),
        except: Some(pnum),
    };
    let mut msgs: Vec<String> = Vec::new();

    let mut names: Vec<String> = Vec::new();
    let mut i: usize = 0;
    while i < game.players.len()
        invariant
            i <= game.players@.len(),
            views_of(names@) =~= rendered_names(game.players@.take(i as int)),
        decreases game.players@.len() - i,
    {
        let ghost vs0 = names@;
        let mut nm = game.players[i].name.clone();
        if game.players[i].did_quit() {
            nm.append("_");
        }
        proof {
            assert(nm@ == rendered_name(game.players@[i as int]));
        }
        names.push(nm);
        proof {
            assert(views_of(names@) =~= views_of(vs0).push(rendered_name(
                game.players@[i as int],
            )));
            assert(rendered_names(game.players@.take(i + 1 as int)) =~= rendered_names(
                game.players@.take(i as int),
            ).push(rendered_name(game.players@[i as int])));
            assert(views_of(names@) =~= rendered_names(game.players@.take(i + 1 as int)));
        }
        i = i + 1;
    }
    proof {
        assert(game.players@.take(game.players@.len() as int) =~= game.players@);
    }
    msgs.push(crate::trusted::join_all(&names, " "));

    let words = game.words_iter();
    proof {
        assert(views_of(words@) =~= word_views(game.words@));
    }
    msgs.push(crate::trusted::join_all(&words, " "));

    let ghost header = seq![
        joined(rendered_names(game.players@), " "@),
        joined(word_views(game.words@), " "@),
    ];
    proof {
        assert(views_of(msgs@) =~= header);
        assert(snapshot_word_msgs(game.words@.take(0), game.players@) =~= Seq::empty());
    }

    let mut i: usize = 0;
    while i < game.words.len()
        invariant
            i <= game.words@.len(),
            views_of(msgs@) =~= header + snapshot_word_msgs(
                game.words@.take(i as int),
                game.players@,
            ),
        decreases game.words@.len() - i,
    {
        let ghost m0 = msgs@;
        let state = game.words[i].state;
        match state {
            Guesser::Player(n) => {
                assert(n < game.players@.len());
                let line = attempt_announce(
                    game.words[i].word.as_str(),
                    game.players[n].name.as_str(),
                );
                msgs.push(line);
            },
            Guesser::Gaveup => {
                let line = attempt_noone_announce(game.words[i].word.as_str());
                msgs.push(line);
            },
            Guesser::NoOne => {},
        }
        proof {
            let pre = game.words@.take(i as int);
            let post = game.words@.take(i + 1 as int);
            assert(post.drop_last() =~= pre);
            assert(post.last() == game.words@[i as int]);
            assert(snapshot_word_msgs(post, game.players@) == snapshot_word_msgs(
                pre,
                game.players@,
            ) + snapshot_entry_msgs(game.words@[i as int], game.players@));
            let extra = snapshot_entry_msgs(game.words@[i as int], game.players@);
            if extra.len() > 0 {
                assert(views_of(msgs@) =~= views_of(m0).push(msgs@.last()@));
                assert(msgs@.last()@ == extra[0]);
                assert(views_of(m0).push(extra[0]) =~= views_of(m0) + extra);
            } else {
                assert(views_of(msgs@) =~= views_of(m0) + extra);
            }
            assert(views_of(msgs@) =~= header + snapshot_word_msgs(post, game.players@));
        }
        i = i + 1;
    }
    proof {
        assert(game.words@.take(game.words@.len() as int) =~= game.words@);
    }

    let ghost header2 = header + snapshot_word_msgs(game.words@, game.players@);
    proof {
        assert(views_of(msgs@) =~= header2);
        assert(snapshot_giveup_msgs(game.players@.take(0)) =~= Seq::empty());
    }
    let mut i: usize = 0;
    while i < game.players.len()
        invariant
            i <= game.players@.len(),
            views_of(msgs@) =~= header2 + snapshot_giveup_msgs(game.players@.take(i as int)),
        decreases game.players@.len() - i,
    {
        let ghost m0 = msgs@;
        if game.players[i].gaveup {
            let line = giveup_announce(game.players[i].name.as_str());
            msgs.push(line);
        }
        proof {
            let pre = game.players@.take(i as int);
            let post = game.players@.take(i + 1 as int);
            assert(post.drop_last() =~= pre);
            assert(post.last() == game.players@[i as int]);
            assert(snapshot_giveup_msgs(post) == snapshot_giveup_msgs(pre) + giveup_entry_msgs(
                game.players@[i as int],
            ));
            let extra = giveup_entry_msgs(game.players@[i as int]);
            if extra.len() > 0 {
                assert(views_of(msgs@) =~= views_of(m0).push(msgs@.last()@));
                assert(msgs@.last()@ == extra[0]);
                assert(views_of(m0).push(extra[0]) =~= views_of(m0) + extra);
            } else {
                assert(views_of(msgs@) =~= views_of(m0) + extra);
            }
            assert(views_of(msgs@) =~= header2 + snapshot_giveup_msgs(post));
        }
        i = i + 1;
    }
    proof {
        assert(game.players@.take(game.players@.len() as int) =~= game.players@);
        assert(views_of(msgs@) =~= header + snapshot_word_msgs(game.words@, game.players@)
            + snapshot_giveup_msgs(game.players@));
    }
    (announce, msgs)
}

} // verus!
