use vstd::prelude::*;

use crate::error::ConfigError;

verus! {

/// An ASCII hexadecimal digit: `0-9`, `a-f` or `A-F`.
pub open spec fn is_hex_digit(c: char) -> bool {
    ('0' <= c && c <= '9') || ('a' <= c && c <= 'f') || ('A' <= c && c <= 'F')
}

/// A color of the form `#RRGGBB`: `#` followed by exactly six hex digits.
pub open spec fn is_hex_color(s: Seq<char>) -> bool {
    &&& s.len() == 7
    &&& s[0] == '#'
    &&& forall|i: int| 1 <= i < 7 ==> #[trigger] is_hex_digit(s[i])
}

/// A character that may open a workspace name: an ASCII lowercase letter or digit.
pub open spec fn is_name_start(c: char) -> bool {
    ('a' <= c && c <= 'z') || ('0' <= c && c <= '9')
}

/// A character that may occur in a workspace name: an ASCII lowercase letter,
/// a digit or `-`.
pub open spec fn is_name_char(c: char) -> bool {
    is_name_start(c) || c == '-'
}

/// A workspace name: `[a-z0-9][a-z0-9-]*`.
pub open spec fn is_workspace_name(s: Seq<char>) -> bool {
    &&& s.len() > 0
    &&& is_name_start(s[0])
    &&& forall|i: int| 0 <= i < s.len() ==> #[trigger] is_name_char(s[i])
}

fn hex_digit(c: char) -> (b: bool)
    ensures
        b == is_hex_digit(c),
{
    ('0' <= c && c <= '9') || ('a' <= c && c <= 'f') || ('A' <= c && c <= 'F')
}

fn name_start(c: char) -> (b: bool)
    ensures
        b == is_name_start(c),
{
    ('a' <= c && c <= 'z') || ('0' <= c && c <= '9')
}

fn name_char(c: char) -> (b: bool)
    ensures
        b == is_name_char(c),
{
    name_start(c) || c == '-'
}

/// Checks that `s` is a `#RRGGBB` hex color.
///
/// Fails with `InvalidHexColor` holding `s` exactly when it is not.
pub fn hex_color(s: &str) -> (r: Result<(), ConfigError>)
    ensures
        r is Ok <==> is_hex_color(s@),
        r matches Err(e) ==> (e matches ConfigError::InvalidHexColor(t) && t@ == s@),
{
    if s.unicode_len() == 7 && s.get_char(0) == '#' {
        let mut i: usize = 1;
        while i < 7
            invariant
                1 <= i <= 7,
                s@.len() == 7,
                s@[0] == '#',
                forall|j: int| 1 <= j < i ==> #[trigger] is_hex_digit(s@[j]),
            decreases 7 - i,
        {
            if !hex_digit(s.get_char(i)) {
                return Err(ConfigError::InvalidHexColor(s.to_owned()));
            }
            i += 1;
        }
        Ok(())
    } else {
        Err(ConfigError::InvalidHexColor(s.to_owned()))
    }
}

/// Checks that `name` is a workspace name: lowercase alphanumerics and hyphens,
/// starting with an alphanumeric.
///
/// Fails with `InvalidWorkspaceName` holding `name` exactly when it is not.
pub fn workspace_name(name: &str) -> (r: Result<(), ConfigError>)
    ensures
        r is Ok <==> is_workspace_name(name@),
        r matches Err(e) ==> (e matches ConfigError::InvalidWorkspaceName(t) && t@ == name@),
{
    let n = name.unicode_len();
    if n == 0 || !name_start(name.get_char(0)) {
        return Err(ConfigError::InvalidWorkspaceName(name.to_owned()));
    }
    let mut i: usize = 0;
    while i < n
        invariant
            i <= n,
            n == name@.len(),
            forall|j: int| 0 <= j < i ==> #[trigger] is_name_char(name@[j]),
        decreases n - i,
    {
        if !name_char(name.get_char(i)) {
            return Err(ConfigError::InvalidWorkspaceName(name.to_owned()));
        }
        i += 1;
    }
    Ok(())
}

/// A color is accepted exactly when it is `#` followed by six characters, each
/// an ASCII digit `0`-`9`, a letter `a`-`f` or a letter `A`-`F`.
pub proof fn lemma_hex_color_characters(s: Seq<char>)
    ensures
        is_hex_color(s) <==> (s.len() == 7 && s[0] == '#' && forall|i: int|
            1 <= i < 7 ==> {
                let c = #[trigger] s[i];
                ('0' <= c && c <= '9') || ('a' <= c && c <= 'f') || ('A' <= c && c <= 'F')
            }),
{
    let inline = s.len() == 7 && s[0] == '#' && forall|i: int|
        1 <= i < 7 ==> {
            let c = #[trigger] s[i];
            ('0' <= c && c <= '9') || ('a' <= c && c <= 'f') || ('A' <= c && c <= 'F')
        };
    if is_hex_color(s) {
        assert forall|i: int| 1 <= i < 7 implies {
            let c = #[trigger] s[i];
            ('0' <= c && c <= '9') || ('a' <= c && c <= 'f') || ('A' <= c && c <= 'F')
        } by {
            assert(is_hex_digit(s[i]));
        }
    }
    if inline {
        assert forall|i: int| 1 <= i < 7 implies #[trigger] is_hex_digit(s[i]) by {
            let c = s[i];
            assert(('0' <= c && c <= '9') || ('a' <= c && c <= 'f') || ('A' <= c && c <= 'F'));
        }
    }
}

/// A name is accepted exactly when it is non-empty, starts with an ASCII
/// lowercase letter `a`-`z` or a digit `0`-`9`, and holds only such letters,
/// digits and `-`.
pub proof fn lemma_workspace_name_characters(s: Seq<char>)
    ensures
        is_workspace_name(s) <==> (s.len() > 0 && (('a' <= s[0] && s[0] <= 'z') || ('0' <= s[0]
            && s[0] <= '9')) && forall|i: int|
            0 <= i < s.len() ==> {
                let c = #[trigger] s[i];
                ('a' <= c && c <= 'z') || ('0' <= c && c <= '9') || c == '-'
            }),
{
    let inline = forall|i: int|
        0 <= i < s.len() ==> {
            let c = #[trigger] s[i];
            ('a' <= c && c <= 'z') || ('0' <= c && c <= '9') || c == '-'
        };
    if is_workspace_name(s) {
        assert forall|i: int| 0 <= i < s.len() implies {
            let c = #[trigger] s[i];
            ('a' <= c && c <= 'z') || ('0' <= c && c <= '9') || c == '-'
        } by {
            assert(is_name_char(s[i]));
        }
    }
    if inline {
        assert forall|i: int| 0 <= i < s.len() implies #[trigger] is_name_char(s[i]) by {
            let c = s[i];
            assert(('a' <= c && c <= 'z') || ('0' <= c && c <= '9') || c == '-');
        }
    }
}

} // verus!
