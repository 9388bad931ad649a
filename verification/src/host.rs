//! The host handshake's payload: a space-separated word list, each token
//! a three-to-six-letter lowercase word, optionally suffixed with the
//! pre-claimed marker.  Any token violating that grammar rejects the
//! whole payload with an error instead of tearing anything down.

use vstd::prelude::*;
use crate::game::claimants_bounded;
use crate::game::fresh_player;
use crate::game::words_distinct;
use crate::game::CoopGame;
use crate::game::CoopPlayer;
use crate::game::Guesser;
use crate::game::WordEntry;
use crate::grammar::check_word;
use crate::grammar::is_word;
use crate::grammar::split_spaces;
use crate::grammar::split_spaces_spec;

verus! {

/// The payload rejected: some considered token breaks the word grammar.
#[derive(Debug, PartialEq, Eq, Structural, Clone, Copy)]
pub enum HostError {
    BadWordList,
}

/// Whether the token carries the trailing pre-claimed marker.
pub open spec fn token_has_marker(t: Seq<char>) -> bool {
    t.len() > 0 && t.last() == '_'
}

/// The word the token denotes, marker stripped.
pub open spec fn token_word(t: Seq<char>) -> Seq<char> {
    if token_has_marker(t) {
        t.drop_last()
    } else {
        t
    }
}

/// The claim state the token denotes: a marked word counts as already
/// claimed by the host, participant 0.
pub open spec fn token_state(t: Seq<char>) -> Guesser {
    if token_has_marker(t) {
        Guesser::Player(0)
    } else {
        Guesser::NoOne
    }
}

/// A valid token: a word, with or without the marker.
pub open spec fn token_ok(t: Seq<char>) -> bool {
    is_word(token_word(t))
}

/// All tokens valid.
pub open spec fn tokens_ok(ts: Seq<Seq<char>>) -> bool {
    forall|j: int| 0 <= j < ts.len() ==> token_ok(#[trigger] ts[j])
}

/// The word-to-state pairs of a dictionary.
pub open spec fn entry_views(ws: Seq<WordEntry>) -> Seq<(Seq<char>, Guesser)> {
    ws.map_values(|e: WordEntry| (e.word@, e.state))
}

/// A dictionary after registering one word: a repeated word keeps its
/// slot and takes the new state (the later token wins), a new word is
/// appended.
pub open spec fn upsert_view(d: Seq<(Seq<char>, Guesser)>, w: Seq<char>, g: Guesser) -> Seq<
    (Seq<char>, Guesser),
> {
    if exists|k: int| 0 <= k < d.len() && (#[trigger] d[k]).0 == w {
        d.map_values(|p: (Seq<char>, Guesser)| if p.0 == w { (w, g) } else { p })
    } else {
        d.push((w, g))
    }
}

/// The dictionary the token list builds, token by token.
pub open spec fn build_dict(ts: Seq<Seq<char>>) -> Seq<(Seq<char>, Guesser)>
    decreases ts.len(),
{
    if ts.len() == 0 {
        Seq::empty()
    } else {
        upsert_view(build_dict(ts.drop_last()), token_word(ts.last()), token_state(ts.last()))
    }
}

/// Whether `t` is a valid token; splits it into word and state.
fn check_token(t: &str) -> (r: Option<(String, bool)>)
    ensures
        r is Some <==> token_ok(t@),
        (r matches Some(p) ==> p.0@ == token_word(t@) && p.1 == token_has_marker(t@)),
{
    let n = t.unicode_len();
    if n > 0 && t.get_char(n - 1) == '_' {
        let w = t.substring_char(0, n - 1);
        proof {
            assert(w@ =~= t@.drop_last());
        }
        if check_word(w) {
            Some((w.to_owned(), true))
        } else {
            None
        }
    } else {
        if check_word(t) {
            Some((t.to_owned(), false))
        } else {
            None
        }
    }
}

/// Build the dictionary from the tokens: every one must be a valid word
/// token, a marked word starts claimed by the host, and of a repeated
/// word the later token wins.
#[verifier::loop_isolation(false)]
pub fn parse_word_list(tokens: &Vec<String>) -> (r: Result<Vec<WordEntry>, HostError>)
    ensures
        ({
            let ts = tokens@.map_values(|t: String| t@);
            &&& (r is Ok <==> tokens_ok(ts))
            &&& (r matches Ok(ws) ==> {
                &&& entry_views(ws@) == build_dict(ts)
                &&& words_distinct(ws@)
                &&& claimants_bounded(ws@, 1)
            })
            &&& (r matches Err(e) ==> e == HostError::BadWordList)
        }),
{
    let ghost all = tokens@.map_values(|t: String| t@);
    let m = tokens.len();
    let mut ws: Vec<WordEntry> = Vec::new();
    let mut j: usize = 0;
    proof {
        assert(entry_views(ws@) =~= build_dict(all.take(0)));
    }
    while j < m
        invariant
            j <= m,
            forall|x: int| 0 <= x < j ==> token_ok(#[trigger] all[x]),
            entry_views(ws@) =~= build_dict(all.take(j as int)),
            words_distinct(ws@),
            claimants_bounded(ws@, 1),
        decreases m - j,
    {
        let checked = check_token(tokens[j].as_str());
        match checked {
            None => {
                proof {
                    assert(all[j as int] == tokens@[j as int]@);
                }
                return Err(HostError::BadWordList);
            },
            Some((word, marked)) => {
                proof {
                    assert(all[j as int] == tokens@[j as int]@);
                }
                let state = if marked {
                    Guesser::Player(0)
                } else {
                    Guesser::NoOne
                };
                let ghost d0 = entry_views(ws@);
                let ghost wv = word@;
                let mut k: usize = 0;
                let mut found = false;
                while k < ws.len()
                    invariant
                        k <= ws@.len(),
                        !found ==> forall|x: int| 0 <= x < k ==> (#[trigger] ws@[x]).word@ != wv,
                        found ==> {
                            &&& ws@.len() == d0.len()
                            &&& entry_views(ws@) =~= upsert_view(d0, wv, state)
                        },
                        found ==> k == ws@.len(),
                        !found ==> ws@.len() == d0.len() && entry_views(ws@) =~= d0,
                        words_distinct(ws@),
                        claimants_bounded(ws@, 1),
                    decreases ws@.len() - k,
                {
                    if crate::grammar::str_eq(ws[k].word.as_str(), word.as_str()) {
                        ws[k].state = state;
                        proof {
                            assert(d0[k as int].0 == wv);
                            assert forall|x: int|
                                0 <= x < ws@.len() implies #[trigger] entry_views(ws@)[x]
                                == upsert_view(d0, wv, state)[x] by {
                                if x != k as int && ws@[x].word@ == wv {
                                    if x < k as int {
                                        assert(ws@[x].word@ != ws@[k as int].word@);
                                    } else {
                                        assert(ws@[k as int].word@ != ws@[x].word@);
                                    }
                                }
                            }
                            assert(entry_views(ws@) =~= upsert_view(d0, wv, state));
                        }
                        found = true;
                        k = ws.len();
                    } else {
                        k = k + 1;
                    }
                }
                if !found {
                    ws.push(WordEntry { word: word, state: state });
                    proof {
                        assert(entry_views(ws@) =~= d0.push((wv, state)));
                        assert(entry_views(ws@) =~= upsert_view(d0, wv, state));
                        assert forall|a: int, b: int|
                            0 <= a < b < ws@.len() implies ws@[a].word@ != ws@[b].word@ by {}
                    }
                }
                proof {
                    let pre = all.take(j as int);
                    let post = all.take(j + 1 as int);
                    assert(post.drop_last() =~= pre);
                    assert(post.last() == all[j as int]);
                    assert(all[j as int] == tokens@[j as int]@);
                    assert(token_word(all[j as int]) == wv);
                    assert(token_state(all[j as int]) == state);
                    assert(build_dict(post) == upsert_view(build_dict(pre), wv, state));
                    assert(entry_views(ws@) =~= build_dict(post));
                }
            },
        }
        j = j + 1;
    }
    proof {
        assert(all.take(m as int) =~= all);
    }
    Ok(ws)
}

/// The whole host handshake decision: tokenize the payload, build the
/// dictionary, and seed the game with the host as participant 0.  A
/// malformed token rejects the payload; nothing else can fail.
pub fn host_game<T>(payload: &str, name: String, send: T) -> (r: Result<CoopGame<T>, HostError>)
    ensures
        ({
            let ts = split_spaces_spec(payload@);
            &&& (r is Ok <==> tokens_ok(ts))
            &&& (r matches Ok(g) ==> {
                &&& g.wf()
                &&& entry_views(g.words@) == build_dict(ts)
                &&& g.players@ =~= seq![fresh_player(name, send)]
            })
            &&& (r matches Err(e) ==> e == HostError::BadWordList)
        }),
{
    let tokens = split_spaces(payload);
    match parse_word_list(&tokens) {
        Err(e) => Err(e),
        Ok(words) => {
            let p = CoopPlayer::new(name, send);
            Ok(CoopGame::new(p, words))
        },
    }
}

} // verus!
