//! Character-level helpers over `&str` used by the matching and parsing
//! logic: equality of views and the whitespace check that domain segments
//! must pass.

use vstd::prelude::*;

verus! {

/// Whether `c` is a Unicode whitespace character (the `White_Space`
/// property), written out as the closed list of code points.
pub open spec fn spec_is_whitespace(c: char) -> bool {
    ||| c == '\t'
    ||| c == '\n'
    ||| c == '\u{b}'
    ||| c == '\u{c}'
    ||| c == '\r'
    ||| c == ' '
    ||| c == '\u{85}'
    ||| c == '\u{a0}'
    ||| c == '\u{1680}'
    ||| ('\u{2000}' <= c && c <= '\u{200a}')
    ||| c == '\u{2028}'
    ||| c == '\u{2029}'
    ||| c == '\u{202f}'
    ||| c == '\u{205f}'
    ||| c == '\u{3000}'
}

/// Whether `c` is a Unicode whitespace character.
#[verifier::when_used_as_spec(spec_is_whitespace)]
pub fn is_whitespace_char(c: char) -> (b: bool)
    ensures
        b == spec_is_whitespace(c),
{
    c == '\t' || c == '\n' || c == '\u{b}' || c == '\u{c}' || c == '\r' || c == ' '
        || c == '\u{85}' || c == '\u{a0}' || c == '\u{1680}'
        || ('\u{2000}' <= c && c <= '\u{200a}') || c == '\u{2028}' || c == '\u{2029}'
        || c == '\u{202f}' || c == '\u{205f}' || c == '\u{3000}'
}

/// Whether any character of `s` is whitespace.
pub open spec fn spec_has_whitespace(s: Seq<char>) -> bool {
    exists|i: int| 0 <= i < s.len() && spec_is_whitespace(s[i])
}

/// Whether any character of `s` is whitespace.
///
/// Domain names and subdomains in a target must be free of whitespace;
/// callers that accept configuration text use this to reject bad segments.
pub fn has_whitespace(s: &str) -> (b: bool)
    ensures
        b == spec_has_whitespace(s@),
{
    let n = s.unicode_len();
    let mut i: usize = 0;
    while i < n
        invariant
            i <= n,
            n == s@.len(),
            forall|j: int| 0 <= j < i ==> !spec_is_whitespace(s@[j]),
        decreases n - i,
    {
        if is_whitespace_char(s.get_char(i)) {
            return true;
        }
        i = i + 1;
    }
    false
}

/// Whether the views of two string slices are equal character for character.
pub fn str_eq(a: &str, b: &str) -> (r: bool)
    ensures
        r == (a@ == b@),
{
    let n = a.unicode_len();
    if n != b.unicode_len() {
        return false;
    }
    let mut i: usize = 0;
    while i < n
        invariant
            i <= n,
            n == a@.len(),
            n == b@.len(),
            forall|j: int| 0 <= j < i ==> a@[j] == b@[j],
        decreases n - i,
    {
        if a.get_char(i) != b.get_char(i) {
            return false;
        }
        i = i + 1;
    }
    proof {
        assert(a@ =~= b@);
    }
    true
}

} // verus!
