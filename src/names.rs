use vstd::prelude::*;
use vstd::string::StrSliceExecFns;

verus! {

/// The longest room name that is accepted, in characters.
pub const MAX_ROOM_NAME_LEN: usize = 40;

/// Characters that may not occur in a room name.
pub open spec fn is_forbidden_char(c: char) -> bool {
    c == '$' || c == '(' || c == ')' || c == '*' || c == '+' || c == '?' || c == '['
        || c == ']' || c == '^' || c == '{' || c == '|' || c == '}'
}

/// A room name is legal when it has 1 to 40 characters, neither starts nor
/// ends with a space, and holds none of the forbidden characters.
pub open spec fn is_legal_name(s: Seq<char>) -> bool {
    &&& 1 <= s.len() <= MAX_ROOM_NAME_LEN
    &&& s[0] != ' '
    &&& s[s.len() - 1] != ' '
    &&& forall|i: int| 0 <= i < s.len() ==> !is_forbidden_char(#[trigger] s[i])
}

fn forbidden_char(c: char) -> (r: bool)
    ensures
        r == is_forbidden_char(c),
{
    c == '$' || c == '(' || c == ')' || c == '*' || c == '+' || c == '?' || c == '['
        || c == ']' || c == '^' || c == '{' || c == '|' || c == '}'
}

/// Tells whether `name` may not be used as a room name.
pub fn is_name_illegal(name: &str) -> (r: bool)
    ensures
        r == !is_legal_name(name@),
{
    let len = name.unicode_len();
    if len == 0 || len > MAX_ROOM_NAME_LEN {
        return true;
    }
    if name.get_char(0) == ' ' || name.get_char(len - 1) == ' ' {
        return true;
    }
    let mut i: usize = 0;
    while i < len
        invariant
            len == name@.len(),
            i <= len,
            forall|j: int| 0 <= j < i ==> !is_forbidden_char(#[trigger] name@[j]),
        decreases len - i,
    {
        if forbidden_char(name.get_char(i)) {
            return true;
        }
        i += 1;
    }
    false
}

} // verus!
