//! The text grammars of the protocol: dictionary words, display names and
//! session codes, as checked character-class functions, together with the
//! string helpers the parsers are built from.

use vstd::prelude::*;

verus! {

/// A lowercase letter `a`..`z`.
pub open spec fn is_lower_char(c: char) -> bool {
    ('a' as int) <= (c as int) && (c as int) <= ('z' as int)
}

/// A decimal digit `0`..`9`.
pub open spec fn is_digit_char(c: char) -> bool {
    ('0' as int) <= (c as int) && (c as int) <= ('9' as int)
}

/// An uppercase letter `A`..`Z`.
pub open spec fn is_upper_char(c: char) -> bool {
    ('A' as int) <= (c as int) && (c as int) <= ('Z' as int)
}

/// A character allowed in a display name.
pub open spec fn is_name_char(c: char) -> bool {
    is_lower_char(c) || is_upper_char(c) || is_digit_char(c)
}

/// A character allowed in a session code.
pub open spec fn is_code_char(c: char) -> bool {
    is_lower_char(c) || is_digit_char(c)
}

/// A dictionary word: three to six lowercase letters.
pub open spec fn is_word(s: Seq<char>) -> bool {
    &&& 3 <= s.len() <= 6
    &&& forall|i: int| 0 <= i < s.len() ==> is_lower_char(#[trigger] s[i])
}

/// A display name: one to ten alphanumeric characters.
pub open spec fn is_name(s: Seq<char>) -> bool {
    &&& 1 <= s.len() <= 10
    &&& forall|i: int| 0 <= i < s.len() ==> is_name_char(#[trigger] s[i])
}

/// A session code: five to eight lowercase letters or digits.
pub open spec fn is_code(s: Seq<char>) -> bool {
    &&& 5 <= s.len() <= 8
    &&& forall|i: int| 0 <= i < s.len() ==> is_code_char(#[trigger] s[i])
}

/// Whether `c` is a lowercase letter.
pub fn lower_char(c: char) -> (r: bool)
    ensures
        r == is_lower_char(c),
{
    let u = c as u32;
    ('a' as u32) <= u && u <= ('z' as u32)
}

/// Whether `c` may stand in a display name.
pub fn name_char(c: char) -> (r: bool)
    ensures
        r == is_name_char(c),
{
    let u = c as u32;
    (('a' as u32) <= u && u <= ('z' as u32)) || (('A' as u32) <= u && u <= ('Z' as u32)) || (('0'
        as u32) <= u && u <= ('9' as u32))
}

/// Whether `c` may stand in a session code.
pub fn code_char(c: char) -> (r: bool)
    ensures
        r == is_code_char(c),
{
    let u = c as u32;
    (('a' as u32) <= u && u <= ('z' as u32)) || (('0' as u32) <= u && u <= ('9' as u32))
}

/// Whether `s` is a well-formed dictionary word.
#[verifier::loop_isolation(false)]
pub fn check_word(s: &str) -> (r: bool)
    ensures
        r == is_word(s@),
{
    let n = s.unicode_len();
    if n < 3 || n > 6 {
        return false;
    }
    let mut i: usize = 0;
    while i < n
        invariant
            i <= n,
            forall|k: int| 0 <= k < i ==> is_lower_char(#[trigger] s@[k]),
        decreases n - i,
    {
        if !lower_char(s.get_char(i)) {
            return false;
        }
        i = i + 1;
    }
    true
}

/// Whether `s` is a well-formed display name.
#[verifier::loop_isolation(false)]
pub fn check_name(s: &str) -> (r: bool)
    ensures
        r == is_name(s@),
{
    let n = s.unicode_len();
    if n < 1 || n > 10 {
        return false;
    }
    let mut i: usize = 0;
    while i < n
        invariant
            i <= n,
            forall|k: int| 0 <= k < i ==> is_name_char(#[trigger] s@[k]),
        decreases n - i,
    {
        if !name_char(s.get_char(i)) {
            return false;
        }
        i = i + 1;
    }
    true
}

/// Whether `s` is a well-formed session code.
#[verifier::loop_isolation(false)]
pub fn check_code(s: &str) -> (r: bool)
    ensures
        r == is_code(s@),
{
    let n = s.unicode_len();
    if n < 5 || n > 8 {
        return false;
    }
    let mut i: usize = 0;
    while i < n
        invariant
            i <= n,
            forall|k: int| 0 <= k < i ==> is_code_char(#[trigger] s@[k]),
        decreases n - i,
    {
        if !code_char(s.get_char(i)) {
            return false;
        }
        i = i + 1;
    }
    true
}

/// Whether the views of two string slices are the same sequence of
/// characters.
#[verifier::loop_isolation(false)]
pub fn str_eq(a: &str, b: &str) -> (r: bool)
    ensures
        r == (a@ == b@),
{
    let n = a.unicode_len();
    if n != b.unicode_len() {
        return false;
    }
    let mut i: usize = 0;
    while i < n
        invariant
            i <= n,
            forall|k: int| 0 <= k < i ==> a@[k] == b@[k],
        decreases n - i,
    {
        if a.get_char(i) != b.get_char(i) {
            return false;
        }
        i = i + 1;
    }
    proof {
        assert(a@ =~= b@);
    }
    true
}

/// Whether `a` begins with `p`, character for character.
#[verifier::loop_isolation(false)]
pub fn str_starts_with(a: &str, p: &str) -> (r: bool)
    ensures
        r == (p@.len() <= a@.len() && a@.subrange(0, p@.len() as int) == p@),
{
    let n = p.unicode_len();
    if n > a.unicode_len() {
        return false;
    }
    let mut i: usize = 0;
    while i < n
        invariant
            i <= n,
            forall|k: int| 0 <= k < i ==> a@[k] == p@[k],
        decreases n - i,
    {
        if a.get_char(i) != p.get_char(i) {
            proof {
                assert(a@.subrange(0, p@.len() as int)[i as int] == a@[i as int]);
            }
            return false;
        }
        i = i + 1;
    }
    proof {
        assert(a@.subrange(0, p@.len() as int) =~= p@);
    }
    true
}

/// The tokens of `s` split on single spaces, accumulating the current
/// token in `cur`: consecutive separators yield empty tokens, as does a
/// leading or trailing separator.
pub open spec fn split_acc(s: Seq<char>, cur: Seq<char>) -> Seq<Seq<char>>
    decreases s.len(),
{
    if s.len() == 0 {
        seq![cur]
    } else if s[0] == ' ' {
        seq![cur] + split_acc(s.drop_first(), Seq::empty())
    } else {
        split_acc(s.drop_first(), cur.push(s[0]))
    }
}

/// The space-separated tokens of `s`.
pub open spec fn split_spaces_spec(s: Seq<char>) -> Seq<Seq<char>> {
    split_acc(s, Seq::empty())
}

/// Split `s` into its space-separated tokens.
#[verifier::loop_isolation(false)]
pub fn split_spaces(s: &str) -> (r: Vec<String>)
    ensures
        r@.map_values(|t: String| t@) == split_spaces_spec(s@),
{
    let n = s.unicode_len();
    let mut toks: Vec<String> = Vec::new();
    let mut start: usize = 0;
    let mut i: usize = 0;
    proof {
        assert(s@.skip(0) =~= s@);
        assert(s@.subrange(0, 0) =~= Seq::<char>::empty());
    }
    while i < n
        invariant
            start <= i <= n,
            toks@.map_values(|t: String| t@) + split_acc(s@.skip(i as int), s@.subrange(start as int, i as int))
                =~= split_spaces_spec(s@),
        decreases n - i,
    {
        let ghost ts0 = toks@.map_values(|t: String| t@);
        let ghost cur = s@.subrange(start as int, i as int);
        if s.get_char(i) == ' ' {
            let tok = s.substring_char(start, i).to_owned();
            toks.push(tok);
            proof {
                assert(s@.skip(i as int)[0] == s@[i as int]);
                assert(s@.skip(i as int).drop_first() =~= s@.skip(i + 1 as int));
                assert(split_acc(s@.skip(i as int), cur) == seq![cur] + split_acc(
                    s@.skip(i + 1 as int),
                    Seq::empty(),
                ));
                assert(s@.subrange(i + 1 as int, i + 1 as int) =~= Seq::<char>::empty());
                assert(toks@.map_values(|t: String| t@) =~= ts0.push(cur));
                assert(ts0.push(cur) + split_acc(s@.skip(i + 1 as int), Seq::empty()) =~= ts0 + (
                seq![cur] + split_acc(s@.skip(i + 1 as int), Seq::empty())));
            }
            start = i + 1;
        } else {
            proof {
                assert(s@.skip(i as int)[0] == s@[i as int]);
                assert(s@.skip(i as int).drop_first() =~= s@.skip(i + 1 as int));
                assert(split_acc(s@.skip(i as int), cur) == split_acc(
                    s@.skip(i + 1 as int),
                    cur.push(s@[i as int]),
                ));
                assert(cur.push(s@[i as int]) =~= s@.subrange(start as int, i + 1 as int));
            }
        }
        i = i + 1;
    }
    let tok = s.substring_char(start, n).to_owned();
    toks.push(tok);
    proof {
        let cur = s@.subrange(start as int, n as int);
        assert(s@.skip(n as int) =~= Seq::<char>::empty());
        assert(split_acc(s@.skip(n as int), cur) == seq![cur]);
        assert(toks@.map_values(|t: String| t@) =~= split_spaces_spec(s@));
    }
    toks
}

} // verus!
