//! Link names: a legible, file-system-safe rendering of a server's display
//! name, followed by a short prefix of its identifier.

use vstd::prelude::*;

verus! {

/// Characters that may appear in a link name unchanged: ASCII letters and
/// digits, hyphen, underscore, period and space.
pub open spec fn is_safe_char(c: char) -> bool {
    ||| 'a' <= c <= 'z'
    ||| 'A' <= c <= 'Z'
    ||| '0' <= c <= '9'
    ||| c == '-'
    ||| c == '_'
    ||| c == '.'
    ||| c == ' '
}

/// A safe character stands for itself; any other becomes an underscore.
pub open spec fn safe_char(c: char) -> char {
    if is_safe_char(c) {
        c
    } else {
        '_'
    }
}

/// The safe rendering of a whole name, character by character.
pub open spec fn safe_text(s: Seq<char>) -> Seq<char> {
    Seq::new(s.len(), |i: int| safe_char(s[i]))
}

fn keep_or_mask(c: char) -> (r: char)
    ensures
        r == safe_char(c),
{
    if ('a' <= c && c <= 'z') || ('A' <= c && c <= 'Z') || ('0' <= c && c <= '9') || c == '-'
        || c == '_' || c == '.' || c == ' ' {
        c
    } else {
        '_'
    }
}

/// Renders a display name so that it can be used as part of a file name.
pub fn safe(s: &str) -> (r: String)
    ensures
        r@ == safe_text(s@),
{
    let mut out = String::new();
    for c in it: s.chars()
        invariant
            it.seq() == s@,
            out@ == safe_text(s@.take(it.index())),
    {
        out.push(keep_or_mask(c));
        assert(out@ =~= safe_text(s@.take(it.index() + 1)));
    }
    assert(s@.take(s@.len() as int) =~= s@);
    out
}

/// The name of the link for a server: its display name made safe, a hyphen,
/// and the first eight characters of its identifier.
pub open spec fn link_name_text(display_name: Seq<char>, id: Seq<char>) -> Seq<char> {
    safe_text(display_name) + seq!['-'] + id.take(8)
}

/// Builds the link name for a server, or `None` where the identifier has
/// fewer than eight characters.
pub fn link_name(display_name: &str, id: &str) -> (r: Option<String>)
    ensures
        r is Some == (id@.len() >= 8),
        r is Some ==> r->0@ == link_name_text(display_name@, id@),
{
    if id.unicode_len() < 8 {
        return None;
    }
    let mut name = safe(display_name);
    name.push('-');
    name.append(id.substring_char(0, 8));
    assert(name@ =~= link_name_text(display_name@, id@));
    Some(name)
}

/// The safe rendering is a function of the name alone. It keeps the length
/// of the name, keeps every safe character where it stands, puts an
/// underscore in the place of every other, holds safe characters only, and
/// is left unchanged by a second rendering.
pub proof fn law_safe_text(s: Seq<char>)
    ensures
        safe_text(s).len() == s.len(),
        forall|i: int|
            0 <= i < s.len() ==> #[trigger] safe_text(s)[i] == if is_safe_char(s[i]) {
                s[i]
            } else {
                '_'
            },
        forall|i: int| 0 <= i < s.len() ==> is_safe_char(#[trigger] safe_text(s)[i]),
        safe_text(safe_text(s)) == safe_text(s),
{
    assert(safe_text(safe_text(s)) =~= safe_text(s));
}

} // verus!
