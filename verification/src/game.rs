//! The session state machine: the roster of participants and the shared
//! word dictionary with per-word claim ownership.  Pure state and
//! transitions; no I/O.  Callers are expected to hold the session's
//! exclusive lock around every call.

use vstd::prelude::*;

verus! {

/// Ownership state of one word in the dictionary.  Transitions only move
/// forward: `NoOne -> Player(_)` when a participant claims the word, or
/// `NoOne -> Gaveup` when the round is forfeited.
#[derive(Debug, PartialEq, Eq, Structural, Clone, Copy)]
pub enum Guesser {
    /// The word was claimed by the participant with this stable index.
    Player(usize),
    /// The word is still unclaimed.
    NoOne,
    /// The round ended with nobody claiming the word.
    Gaveup,
}

/// One participant in a session.  `send` holds the participant's outbound
/// channel while they are connected; `None` means they have quit but keep
/// their roster slot so they can reclaim it by rejoining under the same
/// name.
pub struct CoopPlayer<T> {
    pub name: String,
    pub send: Option<T>,
    pub gaveup: bool,
}

/// One word of the dictionary together with its claim state.
pub struct WordEntry {
    pub word: String,
    pub state: Guesser,
}

/// A running game: the participant roster (index = stable participant
/// identity, assigned at join time and never reused) and the fixed word
/// dictionary.
pub struct CoopGame<T> {
    pub players: Vec<CoopPlayer<T>>,
    pub words: Vec<WordEntry>,
}

/// Outcome of a join request.
pub enum JoinResult<T> {
    /// Joined (or reconnected) as the participant with this index.
    Joined(usize),
    /// The name belongs to a still-connected participant; the unused
    /// channel is handed back to the caller.
    Taken(T),
}

/// What a participant's departure means for the rest of the session.
#[derive(Debug, PartialEq, Eq, Structural, Clone, Copy)]
pub enum QuitResult {
    /// Every still-connected participant has given up; the remaining
    /// unclaimed words were forfeited.
    AllGiveup,
    /// Nobody is connected any more.
    AllQuit,
}

/// The participant after quitting: channel gone, give-up flag cleared so
/// that a rejoining player starts fresh.
pub open spec fn quit_player<T>(p: CoopPlayer<T>) -> CoopPlayer<T> {
    CoopPlayer { name: p.name, send: None, gaveup: false }
}

/// The participant after reconnecting on a fresh channel; the give-up flag
/// is kept as it was (it is always clear for a quit participant, since
/// quitting clears it).
pub open spec fn reconnected_player<T>(p: CoopPlayer<T>, send: T) -> CoopPlayer<T> {
    CoopPlayer { name: p.name, send: Some(send), gaveup: p.gaveup }
}

/// A brand-new participant: connected, not given up.
pub open spec fn fresh_player<T>(name: String, send: T) -> CoopPlayer<T> {
    CoopPlayer { name: name, send: Some(send), gaveup: false }
}

/// The participant with the give-up flag set.
pub open spec fn gaveup_player<T>(p: CoopPlayer<T>) -> CoopPlayer<T> {
    CoopPlayer { name: p.name, send: p.send, gaveup: true }
}

/// The participant with the give-up flag cleared.
pub open spec fn ungaveup_player<T>(p: CoopPlayer<T>) -> CoopPlayer<T> {
    CoopPlayer { name: p.name, send: p.send, gaveup: false }
}

/// Every participant has disconnected.
pub open spec fn all_quit<T>(ps: Seq<CoopPlayer<T>>) -> bool {
    forall|i: int| 0 <= i < ps.len() ==> (#[trigger] ps[i].send) is None
}

/// No connected participant is still actively trying: everyone has either
/// given up or disconnected.  This single rule drives forfeiture on both
/// the give-up and the quit paths.
pub open spec fn all_resigned<T>(ps: Seq<CoopPlayer<T>>) -> bool {
    forall|i: int| 0 <= i < ps.len() ==> (#[trigger] ps[i]).gaveup || ps[i].send is None
}

/// Display names are pairwise distinct across the whole roster (quit
/// participants included): a name is only ever appended when no roster
/// slot carries it.
pub open spec fn names_distinct<T>(ps: Seq<CoopPlayer<T>>) -> bool {
    forall|i: int, j: int| 0 <= i < j < ps.len() ==> ps[i].name@ != ps[j].name@
}

/// The dictionary holds each word at most once.
pub open spec fn words_distinct(ws: Seq<WordEntry>) -> bool {
    forall|i: int, j: int| 0 <= i < j < ws.len() ==> ws[i].word@ != ws[j].word@
}

/// Every claimed word is claimed by a participant the roster actually has.
pub open spec fn claimants_bounded(ws: Seq<WordEntry>, roster_len: int) -> bool {
    forall|i: int|
        0 <= i < ws.len() ==> ((#[trigger] ws[i].state) matches Guesser::Player(p) ==> p
            < roster_len)
}

/// There is a word equal to `w` that is still unclaimed, so an attempt on
/// `w` would succeed.
pub open spec fn word_claimable(ws: Seq<WordEntry>, w: Seq<char>) -> bool {
    exists|i: int| 0 <= i < ws.len() && (#[trigger] ws[i]).word@ == w && ws[i].state == Guesser::NoOne
}

/// One entry after an attempt on `w` by participant `pnum`: the entry
/// changes only if it is the (unclaimed) word being attempted.
pub open spec fn claim_entry(e: WordEntry, pnum: usize, w: Seq<char>) -> WordEntry {
    if e.word@ == w && e.state == Guesser::NoOne {
        WordEntry { word: e.word, state: Guesser::Player(pnum) }
    } else {
        e
    }
}

/// The dictionary after a successful attempt on `w` by participant `pnum`.
pub open spec fn claim_word(ws: Seq<WordEntry>, pnum: usize, w: Seq<char>) -> Seq<WordEntry> {
    ws.map_values(|e: WordEntry| claim_entry(e, pnum, w))
}

/// One entry after forfeiture: unclaimed words go to `Gaveup`, claimed
/// and already-forfeited words are untouched.
pub open spec fn forfeit_entry(e: WordEntry) -> WordEntry {
    if e.state == Guesser::NoOne {
        WordEntry { word: e.word, state: Guesser::Gaveup }
    } else {
        e
    }
}

/// The dictionary after the round is forfeited.
pub open spec fn forfeit_words(ws: Seq<WordEntry>) -> Seq<WordEntry> {
    ws.map_values(|e: WordEntry| forfeit_entry(e))
}

/// Two roster slots carrying the same name are the same slot.
proof fn lemma_name_unique<T>(ps: Seq<CoopPlayer<T>>, a: int, b: int)
    requires
        names_distinct(ps),
        0 <= a < ps.len(),
        0 <= b < ps.len(),
        ps[a].name@ == ps[b].name@,
    ensures
        a == b,
{
    if a < b {
        assert(ps[a].name@ != ps[b].name@);
    } else if b < a {
        assert(ps[b].name@ != ps[a].name@);
    }
}

/// Two dictionary slots carrying the same word are the same slot.
proof fn lemma_word_unique(ws: Seq<WordEntry>, a: int, b: int)
    requires
        words_distinct(ws),
        0 <= a < ws.len(),
        0 <= b < ws.len(),
        ws[a].word@ == ws[b].word@,
    ensures
        a == b,
{
    if a < b {
        assert(ws[a].word@ != ws[b].word@);
    } else if b < a {
        assert(ws[b].word@ != ws[a].word@);
    }
}

/// Replacing a slot with a participant of the same name keeps the names
/// distinct.
proof fn lemma_update_keeps_names_distinct<T>(ps: Seq<CoopPlayer<T>>, i: int, p: CoopPlayer<T>)
    requires
        names_distinct(ps),
        0 <= i < ps.len(),
        p.name@ == ps[i].name@,
    ensures
        names_distinct(ps.update(i, p)),
{
    let q = ps.update(i, p);
    assert forall|a: int, b: int| 0 <= a < b < q.len() implies q[a].name@ != q[b].name@ by {
        assert(ps[a].name@ != ps[b].name@);
    }
}

/// Forfeiture keeps the words themselves, their distinctness and the
/// bound on claimants.
proof fn lemma_forfeit_preserves_wf(ws: Seq<WordEntry>, n: int)
    requires
        words_distinct(ws),
        claimants_bounded(ws, n),
    ensures
        words_distinct(forfeit_words(ws)),
        claimants_bounded(forfeit_words(ws), n),
{
    let fs = forfeit_words(ws);
    assert forall|a: int, b: int| 0 <= a < b < fs.len() implies fs[a].word@ != fs[b].word@ by {
        assert(ws[a].word@ != ws[b].word@);
    }
    assert forall|i: int|
        0 <= i < fs.len() implies ((#[trigger] fs[i].state) matches Guesser::Player(p) ==> p
        < n) by {
        assert(ws[i].state matches Guesser::Player(p) ==> p < n);
    }
}

/// A claim by a participant inside the roster keeps the words themselves,
/// their distinctness and the bound on claimants.
proof fn lemma_claim_preserves_wf(ws: Seq<WordEntry>, pnum: usize, w: Seq<char>, n: int)
    requires
        words_distinct(ws),
        claimants_bounded(ws, n),
        pnum < n,
    ensures
        words_distinct(claim_word(ws, pnum, w)),
        claimants_bounded(claim_word(ws, pnum, w), n),
{
    let cs = claim_word(ws, pnum, w);
    assert forall|a: int, b: int| 0 <= a < b < cs.len() implies cs[a].word@ != cs[b].word@ by {
        assert(ws[a].word@ != ws[b].word@);
    }
    assert forall|i: int|
        0 <= i < cs.len() implies ((#[trigger] cs[i].state) matches Guesser::Player(p) ==> p
        < n) by {
        assert(ws[i].state matches Guesser::Player(p) ==> p < n);
    }
}

impl<T> CoopPlayer<T> {
    /// A freshly joined participant: connected, not given up.
    pub fn new(name: String, send: T) -> (p: CoopPlayer<T>)
        ensures
            p == fresh_player::<T>(name, send),
    {
        CoopPlayer { name: name, send: Some(send), gaveup: false }
    }

    /// Whether this participant has disconnected.
    pub fn did_quit(&self) -> (r: bool)
        ensures
            r == (self.send is None),
    {
        self.send.is_none()
    }
}

impl<T> CoopGame<T> {
    /// Structural well-formedness: distinct names, distinct words, and no
    /// claim pointing outside the roster.  Established at creation and
    /// preserved by every transition.
    pub open spec fn wf(self) -> bool {
        &&& names_distinct(self.players@)
        &&& words_distinct(self.words@)
        &&& claimants_bounded(self.words@, self.players@.len() as int)
    }

    /// A new game: the host is participant 0 and the dictionary is fixed
    /// from the supplied entries (entries the caller marks pre-claimed
    /// must be claimed by participant 0, the only participant there is).
    pub fn new(first_player: CoopPlayer<T>, words: Vec<WordEntry>) -> (g: CoopGame<T>)
        requires
            words_distinct(words@),
            claimants_bounded(words@, 1),
        ensures
            g.wf(),
            g.players@ =~= seq![first_player],
            g.words == words,
    {
        CoopGame { players: vec![first_player], words: words }
    }

    /// The words of the dictionary, in order.
    #[verifier::loop_isolation(false)]
    pub fn words_iter(&self) -> (r: Vec<String>)
        ensures
            r@.len() == self.words@.len(),
            forall|k: int| 0 <= k < r@.len() ==> (#[trigger] r@[k])@ == self.words@[k].word@,
    {
        let mut r: Vec<String> = Vec::new();
        let mut i: usize = 0;
        while i < self.words.len()
            invariant
                i <= self.words@.len(),
                r@.len() == i,
                forall|k: int| 0 <= k < i ==> (#[trigger] r@[k])@ == self.words@[k].word@,
            decreases self.words@.len() - i,
        {
            r.push(self.words[i].word.clone());
            i = i + 1;
        }
        r
    }

    /// Join the game under `name`.  If a quit participant holds the name,
    /// they are reinstated in their old slot (the reconnection path); if a
    /// connected participant holds it, the channel is handed back as
    /// `Taken`; otherwise a fresh participant is appended.
    #[verifier::loop_isolation(false)]
    pub fn try_join(&mut self, name: String, send: T) -> (r: JoinResult<T>)
        requires
            old(self).wf(),
        ensures
            final(self).wf(),
            final(self).words == old(self).words,
            // a taken name: nothing changes and the channel comes back
            (r matches JoinResult::Taken(s) ==> {
                &&& s == send
                &&& final(self).players@ == old(self).players@
                &&& exists|i: int|
                    0 <= i < old(self).players@.len() && (#[trigger] old(
                        self,
                    ).players@[i]).name@ == name@ && old(self).players@[i].send is Some
            }),
            // a join: either the unique quit slot with this name is
            // reinstated, or the roster grows by one fresh participant
            (r matches JoinResult::Joined(n) ==> {
                if exists|i: int|
                    0 <= i < old(self).players@.len() && (#[trigger] old(
                        self,
                    ).players@[i]).name@ == name@ {
                    &&& 0 <= n < old(self).players@.len()
                    &&& old(self).players@[n as int].name@ == name@
                    &&& old(self).players@[n as int].send is None
                    &&& final(self).players@ == old(self).players@.update(
                        n as int,
                        reconnected_player(old(self).players@[n as int], send),
                    )
                } else {
                    &&& n == old(self).players@.len()
                    &&& final(self).players@ == old(self).players@.push(fresh_player(name, send))
                }
            }),
            // which branch is taken is determined by the old roster alone
            (exists|i: int|
                0 <= i < old(self).players@.len() && (#[trigger] old(self).players@[i]).name@
                    == name@ && old(self).players@[i].send is Some) ==> r is Taken,
            (forall|i: int|
                0 <= i < old(self).players@.len() ==> !((#[trigger] old(self).players@[i]).name@
                    == name@ && old(self).players@[i].send is Some)) ==> r is Joined,
    {
        let ghost old_players = self.players@;
        let mut n: usize = 0;
        while n < self.players.len()
            invariant
                self == old(self),
                n <= self.players@.len(),
                forall|i: int| 0 <= i < n ==> (#[trigger] old(self).players@[i]).name@ != name@,
            decreases self.players@.len() - n,
        {
            if self.players[n].name == name {
                if self.players[n].send.is_none() {
                    self.players[n].send = Some(send);
                    proof {
                        assert forall|i: int|
                            0 <= i < old_players.len() && (#[trigger] old_players[i]).name@
                                == name@ implies i == n as int by {
                            lemma_name_unique(old_players, i, n as int);
                        }
                        assert(self.players@ =~= old_players.update(
                            n as int,
                            reconnected_player(old_players[n as int], send),
                        ));
                        lemma_update_keeps_names_distinct(
                            old_players,
                            n as int,
                            reconnected_player(old_players[n as int], send),
                        );
                    }
                    return JoinResult::Joined(n);
                } else {
                    proof {
                        assert forall|i: int|
                            0 <= i < old_players.len() && (#[trigger] old_players[i]).name@
                                == name@ implies i == n as int by {
                            lemma_name_unique(old_players, i, n as int);
                        }
                    }
                    return JoinResult::Taken(send);
                }
            }
            n = n + 1;
        }
        let new_p = CoopPlayer::new(name, send);
        self.players.push(new_p);
        proof {
            assert forall|a: int, b: int|
                0 <= a < b < self.players@.len() implies self.players@[a].name@
                != self.players@[b].name@ by {
            }
        }
        JoinResult::Joined(self.players.len() - 1)
    }

    /// Attempt to claim `word` for participant `player_num`.  Succeeds
    /// (and records the claim) exactly when the word exists and is still
    /// unclaimed; on failure nothing changes.
    #[verifier::loop_isolation(false)]
    pub fn attempt(&mut self, player_num: usize, word: String) -> (r: bool)
        requires
            old(self).wf(),
            player_num < old(self).players@.len(),
        ensures
            final(self).wf(),
            final(self).players@ == old(self).players@,
            r == word_claimable(old(self).words@, word@),
            r ==> final(self).words@ == claim_word(old(self).words@, player_num, word@),
            !r ==> final(self).words@ == old(self).words@,
    {
        let ghost old_words = self.words@;
        let mut i: usize = 0;
        while i < self.words.len()
            invariant
                self == old(self),
                i <= self.words@.len(),
                forall|k: int| 0 <= k < i ==> (#[trigger] old(self).words@[k]).word@ != word@,
            decreases self.words@.len() - i,
        {
            if self.words[i].word == word {
                if self.words[i].state == Guesser::NoOne {
                    self.words[i].state = Guesser::Player(player_num);
                    proof {
                        assert forall|k: int|
                            0 <= k < old_words.len() implies #[trigger] self.words@[k]
                            == claim_entry(old_words[k], player_num, word@) by {
                            if k != i as int && old_words[k].word@ == word@ {
                                lemma_word_unique(old_words, k, i as int);
                            }
                        }
                        assert(self.words@ =~= claim_word(old_words, player_num, word@));
                        lemma_claim_preserves_wf(
                            old_words,
                            player_num,
                            word@,
                            old(self).players@.len() as int,
                        );
                    }
                    return true;
                } else {
                    proof {
                        assert forall|k: int|
                            0 <= k < old_words.len() && (#[trigger] old_words[k]).word@
                                == word@ implies old_words[k].state != Guesser::NoOne by {
                            lemma_word_unique(old_words, k, i as int);
                        }
                    }
                    return false;
                }
            }
            i = i + 1;
        }
        false
    }

    /// Forfeit the round: every still-unclaimed word becomes `Gaveup`.
    #[verifier::loop_isolation(false)]
    fn allgiveup(&mut self)
        ensures
            final(self).players@ == old(self).players@,
            final(self).words@ == forfeit_words(old(self).words@),
    {
        let ghost old_words = self.words@;
        let mut i: usize = 0;
        while i < self.words.len()
            invariant
                self.players@ == old(self).players@,
                self.words@.len() == old_words.len(),
                i <= old_words.len(),
                forall|k: int| 0 <= k < i ==> #[trigger] self.words@[k] == forfeit_entry(old_words[k]),
                forall|k: int| i <= k < old_words.len() ==> #[trigger] self.words@[k] == old_words[k],
            decreases old_words.len() - i,
        {
            if self.words[i].state == Guesser::NoOne {
                self.words[i].state = Guesser::Gaveup;
            }
            i = i + 1;
        }
        proof {
            assert(self.words@ =~= forfeit_words(old_words));
        }
    }

    /// Whether everyone has disconnected.
    #[verifier::loop_isolation(false)]
    fn roster_all_quit(&self) -> (r: bool)
        ensures
            r == all_quit(self.players@),
    {
        let mut i: usize = 0;
        while i < self.players.len()
            invariant
                i <= self.players@.len(),
                forall|k: int| 0 <= k < i ==> (#[trigger] self.players@[k].send) is None,
            decreases self.players@.len() - i,
        {
            if !self.players[i].did_quit() {
                return false;
            }
            i = i + 1;
        }
        true
    }

    /// Whether no connected participant is still actively trying.
    #[verifier::loop_isolation(false)]
    fn roster_resigned(&self) -> (r: bool)
        ensures
            r == all_resigned(self.players@),
    {
        let mut i: usize = 0;
        while i < self.players.len()
            invariant
                i <= self.players@.len(),
                forall|k: int|
                    0 <= k < i ==> (#[trigger] self.players@[k]).gaveup
                        || self.players@[k].send is None,
            decreases self.players@.len() - i,
        {
            if !self.players[i].gaveup && !self.players[i].did_quit() {
                return false;
            }
            i = i + 1;
        }
        true
    }

    /// Participant `player_num` leaves: the channel is dropped and the
    /// give-up flag cleared, so a rejoining player starts fresh.  Reports
    /// `AllQuit` if nobody is connected any more; otherwise, if every
    /// still-connected participant has given up, forfeits the remaining
    /// unclaimed words and reports `AllGiveup`; otherwise reports nothing.
    /// Words are only touched on the `AllGiveup` outcome.
    pub fn player_quit(&mut self, player_num: usize) -> (r: Option<QuitResult>)
        requires
            old(self).wf(),
            player_num < old(self).players@.len(),
        ensures
            final(self).wf(),
            final(self).players@ == old(self).players@.update(
                player_num as int,
                quit_player(old(self).players@[player_num as int]),
            ),
            r == Some(QuitResult::AllQuit) <==> all_quit(final(self).players@),
            (r == Some(QuitResult::AllGiveup) <==> (!all_quit(final(self).players@) && all_resigned(
                final(self).players@,
            ))),
            r == Some(QuitResult::AllGiveup) ==> final(self).words@ == forfeit_words(
                old(self).words@,
            ),
            r != Some(QuitResult::AllGiveup) ==> final(self).words@ == old(self).words@,
    {
        self.players[player_num].send = None;
        self.players[player_num].gaveup = false;
        proof {
            assert(self.players@ =~= old(self).players@.update(
                player_num as int,
                quit_player(old(self).players@[player_num as int]),
            ));
            lemma_update_keeps_names_distinct(
                old(self).players@,
                player_num as int,
                quit_player(old(self).players@[player_num as int]),
            );
        }
        if self.roster_all_quit() {
            return Some(QuitResult::AllQuit);
        }
        if self.roster_resigned() {
            self.allgiveup();
            proof {
                lemma_forfeit_preserves_wf(old(self).words@, old(self).players@.len() as int);
            }
            return Some(QuitResult::AllGiveup);
        }
        None
    }

    /// Participant `player_num` gives up.  Returns true exactly when this
    /// leaves no connected participant still trying, in which case the
    /// remaining unclaimed words are forfeited.
    pub fn player_giveup(&mut self, player_num: usize) -> (r: bool)
        requires
            old(self).wf(),
            player_num < old(self).players@.len(),
        ensures
            final(self).wf(),
            final(self).players@ == old(self).players@.update(
                player_num as int,
                gaveup_player(old(self).players@[player_num as int]),
            ),
            r == all_resigned(final(self).players@),
            r ==> final(self).words@ == forfeit_words(old(self).words@),
            !r ==> final(self).words@ == old(self).words@,
    {
        self.players[player_num].gaveup = true;
        proof {
            assert(self.players@ =~= old(self).players@.update(
                player_num as int,
                gaveup_player(old(self).players@[player_num as int]),
            ));
            lemma_update_keeps_names_distinct(
                old(self).players@,
                player_num as int,
                gaveup_player(old(self).players@[player_num as int]),
            );
        }
        if self.roster_resigned() {
            self.allgiveup();
            proof {
                lemma_forfeit_preserves_wf(old(self).words@, old(self).players@.len() as int);
            }
            return true;
        }
        false
    }

    /// Participant `player_num` takes their give-up back.  Nothing else
    /// changes; in particular forfeiture is never undone.
    pub fn player_ungiveup(&mut self, player_num: usize)
        requires
            old(self).wf(),
            player_num < old(self).players@.len(),
        ensures
            final(self).wf(),
            final(self).players@ == old(self).players@.update(
                player_num as int,
                ungaveup_player(old(self).players@[player_num as int]),
            ),
            final(self).words@ == old(self).words@,
    {
        self.players[player_num].gaveup = false;
        proof {
            assert(self.players@ =~= old(self).players@.update(
                player_num as int,
                ungaveup_player(old(self).players@[player_num as int]),
            ));
            lemma_update_keeps_names_distinct(
                old(self).players@,
                player_num as int,
                ungaveup_player(old(self).players@[player_num as int]),
            );
        }
    }
}

/// Law: a word is claimed at most once.  After a successful claim the word
/// is no longer claimable, so by `attempt`'s contract any further attempt
/// on it returns false and leaves the state unchanged.
pub proof fn lemma_claim_exclusive(ws: Seq<WordEntry>, p1: usize, w: Seq<char>)
    ensures
        !word_claimable(claim_word(ws, p1, w), w),
{
    let cs = claim_word(ws, p1, w);
    assert forall|k: int|
        0 <= k < cs.len() implies !((#[trigger] cs[k]).word@ == w && cs[k].state
        == Guesser::NoOne) by {
        assert(cs[k] == claim_entry(ws[k], p1, w));
    }
}

/// Law: claims and forfeits never rewrite an entry that is already
/// claimed; once a word is `Player(q)` it stays `Player(q)` under every
/// dictionary transition.
pub proof fn lemma_claims_are_stable(ws: Seq<WordEntry>, k: int, q: usize, p: usize, w: Seq<char>)
    requires
        0 <= k < ws.len(),
        ws[k].state == Guesser::Player(q),
    ensures
        claim_word(ws, p, w)[k] == ws[k],
        forfeit_words(ws)[k] == ws[k],
{
}

/// Law: an attempt on a word the dictionary does not hold can never
/// succeed, so by `attempt`'s contract it returns false and mutates
/// nothing.
pub proof fn lemma_attempt_missing_word(ws: Seq<WordEntry>, w: Seq<char>)
    requires
        forall|i: int| 0 <= i < ws.len() ==> (#[trigger] ws[i]).word@ != w,
    ensures
        !word_claimable(ws, w),
{
}

/// Law: forfeiture happens exactly once; forfeiting an already-forfeited
/// dictionary changes nothing, so repeated give-up calls after the round
/// has ended are idempotent on the words.
pub proof fn lemma_forfeit_idempotent(ws: Seq<WordEntry>)
    ensures
        forfeit_words(forfeit_words(ws)) == forfeit_words(ws),
{
    assert(forfeit_words(forfeit_words(ws)) =~= forfeit_words(ws));
}

/// Law: forfeiture converges; after it no word is left unclaimed.
pub proof fn lemma_forfeit_complete(ws: Seq<WordEntry>)
    ensures
        forall|i: int|
            0 <= i < forfeit_words(ws).len() ==> (#[trigger] forfeit_words(ws)[i]).state
                != Guesser::NoOne,
{
}

/// Law: an all-quit roster trivially satisfies the all-resigned rule, yet
/// `player_quit` reports `AllQuit` for it and leaves the words untouched;
/// forfeiture on the quit path needs a connected, given-up participant.
pub proof fn lemma_all_quit_is_resigned<T>(ps: Seq<CoopPlayer<T>>)
    requires
        all_quit(ps),
    ensures
        all_resigned(ps),
{
}

/// Law: the quit/rejoin round trip recovers the same slot.  After
/// participant `pnum` quits, any slot that `try_join`'s contract admits as
/// a rejoin candidate for their name is `pnum` itself, and the reinstated
/// participant comes back connected with the give-up flag clear, whatever
/// it was before the quit.
pub proof fn lemma_quit_rejoin_round_trip<T>(ps: Seq<CoopPlayer<T>>, pnum: int, n: int, send: T)
    requires
        names_distinct(ps),
        0 <= pnum < ps.len(),
        0 <= n < ps.len(),
        ps.update(pnum, quit_player(ps[pnum]))[n].name@ == ps[pnum].name@,
    ensures
        n == pnum,
        reconnected_player(ps.update(pnum, quit_player(ps[pnum]))[pnum], send).gaveup == false,
        reconnected_player(ps.update(pnum, quit_player(ps[pnum]))[pnum], send).send == Some(send),
        reconnected_player(ps.update(pnum, quit_player(ps[pnum]))[pnum], send).name@
            == ps[pnum].name@,
{
    let q = ps.update(pnum, quit_player(ps[pnum]));
    if n != pnum {
        assert(q[n] == ps[n]);
        lemma_name_unique(ps, n, pnum);
    }
}

} // verus!
