//! Routing of a connection's request path into a structured action: host
//! a new session under a display name, or join an existing one by code.
//! The leading flag says whether the path names the cooperative variant.

use vstd::prelude::*;
use crate::grammar::check_code;
use crate::grammar::check_name;
use crate::grammar::is_code;
use crate::grammar::is_name;
use crate::grammar::str_starts_with;

verus! {

/// What a request path asks for.
pub enum UrlAction {
    /// Start a new session; the connecting party is participant 0, under
    /// this display name.
    Host(String),
    /// Attach to the existing session with this code.
    Join(String),
}

/// A path hosting the cooperative variant: the prefix and a valid name.
pub open spec fn is_hostcoop_path(p: Seq<char>) -> bool {
    p.len() > 13 && p.subrange(0, 13) == "/ws/hostcoop/"@ && is_name(p.skip(13))
}

/// A path hosting the competitive variant: the prefix and a valid name.
pub open spec fn is_hostcomp_path(p: Seq<char>) -> bool {
    p.len() > 13 && p.subrange(0, 13) == "/ws/hostcomp/"@ && is_name(p.skip(13))
}

/// A path joining a cooperative session: the prefix and a valid code.
pub open spec fn is_joincoop_path(p: Seq<char>) -> bool {
    p.len() > 10 && p.subrange(0, 10) == "/ws/join/c"@ && is_code(p.skip(10))
}

/// A path joining a competitive session: the prefix and a valid code.
pub open spec fn is_joincomp_path(p: Seq<char>) -> bool {
    p.len() > 10 && p.subrange(0, 10) == "/ws/join/m"@ && is_code(p.skip(10))
}

/// Parse a request path into an action.  The boolean of the pair is true
/// for the cooperative variant.  Anything that is not exactly one of the
/// four recognized shapes is refused.
pub fn parse_url_action(path: &str) -> (r: Option<(bool, UrlAction)>)
    ensures
        is_hostcoop_path(path@) ==> (r matches Some(p) && p.0 == true && (p.1 matches
            UrlAction::Host(n) && n@ == path@.skip(13))),
        is_hostcomp_path(path@) ==> (r matches Some(p) && p.0 == false && (p.1 matches
            UrlAction::Host(n) && n@ == path@.skip(13))),
        is_joincoop_path(path@) ==> (r matches Some(p) && p.0 == true && (p.1 matches
            UrlAction::Join(c) && c@ == path@.skip(10))),
        is_joincomp_path(path@) ==> (r matches Some(p) && p.0 == false && (p.1 matches
            UrlAction::Join(c) && c@ == path@.skip(10))),
        (!is_hostcoop_path(path@) && !is_hostcomp_path(path@) && !is_joincoop_path(path@)
            && !is_joincomp_path(path@)) ==> r is None,
{
    proof {
        reveal_strlit("/ws/hostcoop/");
        reveal_strlit("/ws/hostcomp/");
        reveal_strlit("/ws/join/c");
        reveal_strlit("/ws/join/m");
    }
    let n = path.unicode_len();
    if str_starts_with(path, "/ws/hostcoop/") {
        proof {
            assert(path@.subrange(0, 10)[9] == path@.subrange(0, 13)[9]);
            assert("/ws/hostcoop/"@[10] != "/ws/hostcomp/"@[10]);
        }
        let rest = path.substring_char(13, n);
        proof {
            assert(rest@ =~= path@.skip(13));
        }
        if check_name(rest) {
            return Some((true, UrlAction::Host(rest.to_owned())));
        }
        return None;
    }
    if str_starts_with(path, "/ws/hostcomp/") {
        proof {
            assert(path@.subrange(0, 10)[9] == path@.subrange(0, 13)[9]);
        }
        let rest = path.substring_char(13, n);
        proof {
            assert(rest@ =~= path@.skip(13));
        }
        if check_name(rest) {
            return Some((false, UrlAction::Host(rest.to_owned())));
        }
        return None;
    }
    if str_starts_with(path, "/ws/join/c") {
        proof {
            assert("/ws/join/c"@[9] != "/ws/join/m"@[9]);
        }
        let rest = path.substring_char(10, n);
        proof {
            assert(rest@ =~= path@.skip(10));
        }
        if check_code(rest) {
            return Some((true, UrlAction::Join(rest.to_owned())));
        }
        return None;
    }
    if str_starts_with(path, "/ws/join/m") {
        let rest = path.substring_char(10, n);
        proof {
            assert(rest@ =~= path@.skip(10));
        }
        if check_code(rest) {
            return Some((false, UrlAction::Join(rest.to_owned())));
        }
        return None;
    }
    None
}

} // verus!
