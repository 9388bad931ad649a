//! The session registry and the idle lifecycle guard: a mapping from
//! generated session codes to session handles, plus the per-session
//! connection counter that arms and cancels the deletion timer.  The
//! caller serializes structural changes (insert, remove, allocate) under
//! one registry-wide lock; the timer itself lives with the caller.

use vstd::prelude::*;
use crate::grammar::is_code;
use crate::grammar::is_code_char;
use crate::trusted::push_char;
use crate::trusted::random_below;

verus! {

/// One registered session: its code and its handle.
pub struct RegEntry<T> {
    pub code: String,
    pub value: T,
}

/// The registry: session code to session handle, each code held once.
pub struct Registry<T> {
    pub entries: Vec<RegEntry<T>>,
}

/// No two entries share a code.
pub open spec fn codes_distinct<T>(es: Seq<RegEntry<T>>) -> bool {
    forall|i: int, j: int| 0 <= i < j < es.len() ==> es[i].code@ != es[j].code@
}

/// Some entry carries this code.
pub open spec fn has_code<T>(es: Seq<RegEntry<T>>, c: Seq<char>) -> bool {
    exists|i: int| 0 <= i < es.len() && (#[trigger] es[i]).code@ == c
}

/// Two registry slots carrying the same code are the same slot.
proof fn lemma_code_unique<T>(es: Seq<RegEntry<T>>, a: int, b: int)
    requires
        codes_distinct(es),
        0 <= a < es.len(),
        0 <= b < es.len(),
        es[a].code@ == es[b].code@,
    ensures
        a == b,
{
    if a < b {
        assert(es[a].code@ != es[b].code@);
    } else if b < a {
        assert(es[b].code@ != es[a].code@);
    }
}

impl<T> Registry<T> {
    /// Well-formedness: one entry per code.
    pub open spec fn wf(self) -> bool {
        codes_distinct(self.entries@)
    }

    /// An empty registry.
    pub fn new() -> (r: Registry<T>)
        ensures
            r.wf(),
            r.entries@.len() == 0,
    {
        Registry { entries: Vec::new() }
    }

    /// Look a session up by code: a hit exactly when some entry carries
    /// the code, and then the hit is that entry's handle.
    #[verifier::loop_isolation(false)]
    pub fn lookup(&self, code: &str) -> (r: Option<&T>)
        requires
            self.wf(),
        ensures
            r is Some <==> has_code(self.entries@, code@),
            (r matches Some(v) ==> exists|i: int|
                0 <= i < self.entries@.len() && (#[trigger] self.entries@[i]).code@ == code@
                    && self.entries@[i].value == *v),
    {
        let mut i: usize = 0;
        while i < self.entries.len()
            invariant
                i <= self.entries@.len(),
                forall|k: int| 0 <= k < i ==> (#[trigger] self.entries@[k]).code@ != code@,
            decreases self.entries@.len() - i,
        {
            if crate::grammar::str_eq(self.entries[i].code.as_str(), code) {
                return Some(&self.entries[i].value);
            }
            i = i + 1;
        }
        None
    }

    /// Insert a session under a code that is not yet taken.  Returns false
    /// (and changes nothing) on a collision.
    #[verifier::loop_isolation(false)]
    pub fn insert_new(&mut self, code: String, value: T) -> (r: bool)
        requires
            old(self).wf(),
        ensures
            final(self).wf(),
            r == !has_code(old(self).entries@, code@),
            r ==> final(self).entries@ == old(self).entries@.push(
                RegEntry { code: code, value: value },
            ),
            !r ==> final(self).entries@ == old(self).entries@,
    {
        let mut i: usize = 0;
        while i < self.entries.len()
            invariant
                self == old(self),
                i <= self.entries@.len(),
                forall|k: int| 0 <= k < i ==> (#[trigger] self.entries@[k]).code@ != code@,
            decreases self.entries@.len() - i,
        {
            if crate::grammar::str_eq(self.entries[i].code.as_str(), code.as_str()) {
                return false;
            }
            i = i + 1;
        }
        self.entries.push(RegEntry { code: code, value: value });
        proof {
            assert forall|a: int, b: int|
                0 <= a < b < self.entries@.len() implies self.entries@[a].code@
                != self.entries@[b].code@ by {}
        }
        true
    }

    /// Remove the session registered under this code, if any.  Afterwards
    /// a lookup of the code misses: held references become unusable for
    /// new joins.
    #[verifier::loop_isolation(false)]
    pub fn remove_code(&mut self, code: &str)
        requires
            old(self).wf(),
        ensures
            final(self).wf(),
            !has_code(final(self).entries@, code@),
            (has_code(old(self).entries@, code@) ==> exists|i: int|
                0 <= i < old(self).entries@.len() && (#[trigger] old(self).entries@[i]).code@
                    == code@ && final(self).entries@ == old(self).entries@.remove(i)),
            !has_code(old(self).entries@, code@) ==> final(self).entries@ == old(self).entries@,
    {
        let ghost old_entries = self.entries@;
        let mut i: usize = 0;
        while i < self.entries.len()
            invariant
                self == old(self),
                i <= self.entries@.len(),
                forall|k: int| 0 <= k < i ==> (#[trigger] self.entries@[k]).code@ != code@,
            decreases self.entries@.len() - i,
        {
            if crate::grammar::str_eq(self.entries[i].code.as_str(), code) {
                self.entries.remove(i);
                proof {
                    assert forall|a: int, b: int|
                        0 <= a < b < self.entries@.len() implies self.entries@[a].code@
                        != self.entries@[b].code@ by {
                        if b < i as int {
                            assert(old_entries[a].code@ != old_entries[b].code@);
                        }
                    }
                    assert forall|k: int|
                        0 <= k < self.entries@.len() implies (#[trigger] self.entries@[k]).code@
                        != code@ by {
                        if k < i as int {
                            assert(self.entries@[k] == old_entries[k]);
                        } else {
                            assert(self.entries@[k] == old_entries[k + 1]);
                            if old_entries[k + 1].code@ == code@ {
                                lemma_code_unique(old_entries, k + 1, i as int);
                            }
                        }
                    }
                }
                return;
            }
            i = i + 1;
        }
    }

    /// Allocate a fresh code for a session: generate candidates until one
    /// is unused, then register the session under it.  The collision check
    /// and the insertion happen in one call, so the caller's registry lock
    /// makes them atomic.
    pub fn allocate_code(&mut self, value: T) -> (r: Option<String>)
        requires
            old(self).wf(),
        ensures
            final(self).wf(),
            (r matches Some(code) ==> {
                &&& is_code(code@)
                &&& code@.len() == 5
                &&& !has_code(old(self).entries@, code@)
                &&& final(self).entries@ == old(self).entries@.push(
                    RegEntry { code: code, value: value },
                )
            }),
            r is None ==> final(self).entries@ == old(self).entries@,
            // on an empty registry no draw can collide, so success is owed
            old(self).entries@.len() == 0 ==> r is Some,
    {
        let mut value_slot = value;
        let mut tries: usize = 0;
        while tries < 64
            invariant
                self.wf(),
                self == old(self),
                value_slot == value,
                tries > 0 ==> old(self).entries@.len() > 0,
            decreases 64 - tries,
        {
            let candidate = generate_gamename();
            if !self.has_code_exec(candidate.as_str()) {
                let inserted = self.insert_new(candidate.clone(), value_slot);
                if inserted {
                    return Some(candidate);
                }
                return None;
            }
            proof {
                // a collision names an entry, so the registry is not empty
                let i = choose|i: int|
                    0 <= i < self.entries@.len() && self.entries@[i].code@ == candidate@;
                assert(self.entries@.len() > 0);
            }
            tries = tries + 1;
        }
        None
    }

    /// Whether the code is taken.
    pub fn has_code_exec(&self, code: &str) -> (r: bool)
        requires
            self.wf(),
        ensures
            r == has_code(self.entries@, code@),
    {
        let hit = self.lookup(code);
        hit.is_some()
    }
}

/// Generate a candidate session code: five characters drawn from the
/// lowercase letters and digits.
#[verifier::loop_isolation(false)]
pub fn generate_gamename() -> (r: String)
    ensures
        is_code(r@),
        r@.len() == 5,
{
    let alphabet = "abcdefghijklmnopqrstuvwxyz0123456789";
    proof {
        reveal_strlit("abcdefghijklmnopqrstuvwxyz0123456789");
        assert forall|d: int| 0 <= d < 36 implies is_code_char(#[trigger] alphabet@[d]) by {}
    }
    let mut s = String::new();
    let mut i: usize = 0;
    while i < 5
        invariant
            i <= 5,
            s@.len() == i,
            forall|k: int| 0 <= k < i ==> is_code_char(#[trigger] s@[k]),
        decreases 5 - i,
    {
        let d = random_below(36);
        let c = alphabet.get_char(d);
        push_char(&mut s, c);
        i = i + 1;
    }
    s
}

/// The per-session idle lifecycle guard: counts live connections and
/// remembers whether a deletion timer is pending.  The timer is armed
/// exactly while nobody is connected, so no session with a live
/// connection is ever eligible for deletion.
pub struct IdleGuard {
    pub connections: u64,
    pub timer_armed: bool,
}

impl IdleGuard {
    /// The timer is only ever pending while nobody is connected.
    pub open spec fn wf(self) -> bool {
        self.timer_armed ==> self.connections == 0
    }

    /// A fresh guard for a session that starts with live connections.
    pub fn new(initial_connections: u64) -> (g: IdleGuard)
        requires
            initial_connections > 0,
        ensures
            g.wf(),
            g.connections == initial_connections,
            !g.timer_armed,
    {
        IdleGuard { connections: initial_connections, timer_armed: false }
    }

    /// A connection arrives: count it and cancel any pending deletion.
    /// A successful connect strictly cancels the timer.
    pub fn on_connect(&mut self)
        requires
            old(self).wf(),
            old(self).connections < u64::MAX,
        ensures
            final(self).wf(),
            final(self).connections == old(self).connections + 1,
            !final(self).timer_armed,
    {
        self.connections = self.connections + 1;
        self.timer_armed = false;
    }

    /// A connection ends: count it off, and arm the deletion timer exactly
    /// when this was the last one.
    pub fn on_disconnect(&mut self)
        requires
            old(self).wf(),
            old(self).connections > 0,
        ensures
            final(self).wf(),
            final(self).connections == old(self).connections - 1,
            final(self).timer_armed == (old(self).connections == 1),
    {
        self.connections = self.connections - 1;
        self.timer_armed = self.connections == 0;
    }

    /// When the timer fires, whether the session is to be deleted: only
    /// with the timer still armed, hence only with zero live connections.
    pub fn timer_should_delete(&self) -> (r: bool)
        requires
            self.wf(),
        ensures
            r == self.timer_armed,
            r ==> self.connections == 0,
    {
        self.timer_armed && self.connections == 0
    }
}

/// Law: a session whose code is removed from the registry becomes
/// unreachable: after the removal every lookup of that code misses.
pub proof fn lemma_removed_session_unreachable<T>(es: Seq<RegEntry<T>>, i: int, c: Seq<char>)
    requires
        codes_distinct(es),
        0 <= i < es.len(),
        es[i].code@ == c,
    ensures
        !has_code(es.remove(i), c),
{
    let rest = es.remove(i);
    assert forall|k: int| 0 <= k < rest.len() implies (#[trigger] rest[k]).code@ != c by {
        if k < i {
            assert(rest[k] == es[k]);
            if es[k].code@ == c {
                lemma_code_unique(es, k, i);
            }
        } else {
            assert(rest[k] == es[k + 1]);
            if es[k + 1].code@ == c {
                lemma_code_unique(es, k + 1, i);
            }
        }
    }
}

/// Law: a session with a live connection is never deleted, and a connect
/// event arriving before the timeout disarms the pending deletion, so the
/// session stays reachable by its code.
pub proof fn lemma_connect_saves_session(g: IdleGuard)
    requires
        g.wf(),
    ensures
        g.connections > 0 ==> !g.timer_armed,
{
}

} // verus!
