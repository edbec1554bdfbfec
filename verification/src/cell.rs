//! Cell scopes.
//!
//! A scope names one cell: `Class:instance`, or a bare instance. It is used as
//! one path component and as one segment of an object key, so its alphabet
//! keeps it from being more than one of either.

use vstd::prelude::*;
use crate::text;

verus! {

/// May `ch` stand in a cell scope?
pub open spec fn scope_char(ch: char) -> bool {
    ||| 'a' <= ch <= 'z'
    ||| 'A' <= ch <= 'Z'
    ||| '0' <= ch <= '9'
    ||| ch == '_'
    ||| ch == '-'
    ||| ch == '.'
    ||| ch == ':'
    ||| ch == '$'
}

/// One to 512 characters, all of them of a scope's alphabet.
pub open spec fn is_cell_scope(scope: Seq<char>) -> bool {
    &&& 0 < scope.len() <= 512
    &&& forall|i: int| 0 <= i < scope.len() ==> scope_char(#[trigger] scope[i])
}

/// Is a cell scope well-formed?
pub fn valid_cell_scope(scope: &str) -> (valid: bool)
    ensures
        valid == is_cell_scope(scope@),
{
    let chars = text::chars_of(scope);
    if chars.len() == 0 || chars.len() > 512 {
        return false;
    }
    let mut at: usize = 0;
    while at < chars.len()
        invariant
            at <= chars@.len(),
            chars@ == scope@,
            forall|i: int| 0 <= i < at ==> scope_char(#[trigger] scope@[i]),
        decreases chars@.len() - at,
    {
        let ch = chars[at];
        let fits = ('a' <= ch && ch <= 'z') || ('A' <= ch && ch <= 'Z') || ('0' <= ch && ch <= '9')
            || ch == '_' || ch == '-' || ch == '.' || ch == ':' || ch == '$';
        if !fits {
            assert(!scope_char(scope@[at as int]));
            return false;
        }
        at = at + 1;
    }
    true
}

/// A well-formed scope is one path component: it holds no separator and no
/// control character.
pub proof fn law_scope_is_one_component(scope: Seq<char>, at: int)
    requires
        is_cell_scope(scope),
        0 <= at < scope.len(),
    ensures
        scope[at] != '/',
        scope[at] != '\\',
        (scope[at] as u32) > 32,
        (scope[at] as u32) < 127,
{
    assert(scope_char(scope[at]));
}

/// A scope is well-formed exactly where it has one to 512 characters, each a letter
/// or digit of ASCII or one of `_`, `-`, `.`, `:` and `$`.
pub proof fn law_scope_alphabet(scope: &str, valid: bool, at: int)
    requires
        call_ensures(valid_cell_scope, (scope,), valid),
    ensures
        scope@.len() == 0 || scope@.len() > 512 ==> !valid,
        valid && 0 <= at < scope@.len() ==> {
            let ch = scope@[at];
            'a' <= ch <= 'z' || 'A' <= ch <= 'Z' || '0' <= ch <= '9' || seq![
                '_',
                '-',
                '.',
                ':',
                '$',
            ].contains(ch)
        },
        !valid && 1 <= scope@.len() <= 512 ==> exists|i: int|
            0 <= i < scope@.len() && {
                let ch = #[trigger] scope@[i];
                &&& !('a' <= ch <= 'z') && !('A' <= ch <= 'Z') && !('0' <= ch <= '9')
                &&& ch != '_' && ch != '-' && ch != '.' && ch != ':' && ch != '$'
            },
{
    let marks = seq!['_', '-', '.', ':', '$'];
    assert(marks[0] == '_' && marks[1] == '-' && marks[2] == '.' && marks[3] == ':' && marks[4]
        == '$');
    if valid && 0 <= at < scope@.len() {
        assert(scope_char(scope@[at]));
    }
    if !valid && 1 <= scope@.len() <= 512 {
        let i = choose|i: int| 0 <= i < scope@.len() && !scope_char(#[trigger] scope@[i]);
        assert(!scope_char(scope@[i]));
    }
}

} // verus!
