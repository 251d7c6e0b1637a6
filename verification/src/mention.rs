//! The identity-mention grammar for author lists: a display name without
//! parentheses, angle brackets, commas or `@`, then a space and `(@handle)`
//! where the handle is alphanumeric or hyphen, optionally followed by an
//! email address in angle brackets. Entries that do not fit this shape are
//! silently skipped by the identity resolver.

use vstd::prelude::*;
use vstd::string::*;

verus! {

/// Characters allowed in the display-name part of a mention.
pub open spec fn is_name_char(c: char) -> bool {
    c != '(' && c != ')' && c != '<' && c != '>' && c != ',' && c != '@'
}

/// Characters allowed in a handle: ASCII letters, digits, or a hyphen.
pub open spec fn is_handle_char(c: char) -> bool {
    (97 <= c as u32 && c as u32 <= 122) || (65 <= c as u32 && c as u32 <= 90) || (48 <= c as u32
        && c as u32 <= 57) || c == '-'
}

/// Runtime test for [`is_handle_char`].
fn handle_char(c: char) -> (r: bool)
    ensures
        r == is_handle_char(c),
{
    let u = c as u32;
    (97 <= u && u <= 122) || (65 <= u && u <= 90) || (48 <= u && u <= 57) || c == '-'
}

/// Positions of the `@` and the following `.` inside the bracketed email
/// text: the `@` is not first, at least one character separates it from the
/// `.`, and at least one character follows the `.`.
pub open spec fn email_marks(s: Seq<char>, p: int, q: int) -> bool {
    1 <= p && p + 2 <= q <= s.len() - 2 && s[p] == '@' && s[q] == '.'
}

/// The text between the angle brackets of the optional email part: it does
/// not start with `@`, holds no `>` after its first character, and contains
/// an `@` followed (not immediately) by a `.` with something after it.
pub open spec fn is_email_inner(s: Seq<char>) -> bool {
    &&& s.len() >= 1
    &&& s[0] != '@'
    &&& (forall|i: int| 1 <= i < s.len() ==> s[i] != '>')
    &&& (exists|p: int, q: int| email_marks(s, p, q))
}

/// What may follow the closing parenthesis of the handle: either the end of
/// the entry, or a space and an email address in angle brackets reaching to
/// the end.
pub open spec fn mention_tail(s: Seq<char>, k: int) -> bool {
    ||| k == s.len() - 1
    ||| {
        &&& k + 4 <= s.len()
        &&& s[k + 1] == ' '
        &&& s[k + 2] == '<'
        &&& s[s.len() - 1] == '>'
        &&& is_email_inner(s.subrange(k + 3, s.len() - 1))
    }
}

/// Full decomposition of a mention around the opening parenthesis at `j` and
/// the closing one at `k`: a nonempty display name, a space, `(@`, a
/// nonempty handle, `)`, and an accepted tail.
pub open spec fn mention_shape(s: Seq<char>, j: int, k: int) -> bool {
    &&& 2 <= j && j + 3 <= k < s.len()
    &&& (forall|i: int| 0 <= i < j - 1 ==> is_name_char(s[i]))
    &&& s[j - 1] == ' '
    &&& s[j] == '('
    &&& s[j + 1] == '@'
    &&& (forall|i: int| j + 2 <= i < k ==> is_handle_char(s[i]))
    &&& s[k] == ')'
    &&& mention_tail(s, k)
}

/// Whether an author-list entry is a well-formed identity mention.
pub open spec fn is_mention(s: Seq<char>) -> bool {
    exists|j: int, k: int| mention_shape(s, j, k)
}

/// The handle captured from a well-formed mention.
pub open spec fn mention_handle(s: Seq<char>) -> Seq<char> {
    let (j, k) = choose|j: int, k: int| mention_shape(s, j, k);
    s.subrange(j + 2, k)
}

/// A mention decomposes in only one way: the name may not contain `(`, so
/// the opening parenthesis is the first one in the entry, and the handle may
/// not contain `)`, so the closing one is the next `)` after it.
pub proof fn lemma_mention_shape_unique(s: Seq<char>, j1: int, k1: int, j2: int, k2: int)
    requires
        mention_shape(s, j1, k1),
        mention_shape(s, j2, k2),
    ensures
        j1 == j2,
        k1 == k2,
{
    if j1 < j2 {
        if j1 < j2 - 1 {
            assert(is_name_char(s[j1]));
        }
        assert(false);
    }
    if j2 < j1 {
        if j2 < j1 - 1 {
            assert(is_name_char(s[j2]));
        }
        assert(false);
    }
    if k1 < k2 {
        assert(is_handle_char(s[k1]));
        assert(false);
    }
    if k2 < k1 {
        assert(is_handle_char(s[k2]));
        assert(false);
    }
}

/// In any mention, the opening parenthesis stands at the first `(` of the
/// entry.
proof fn lemma_shape_at_first_paren(s: Seq<char>, fp: int, j: int, k: int)
    requires
        mention_shape(s, j, k),
        0 <= fp <= s.len(),
        forall|m: int| 0 <= m < fp ==> s[m] != '(',
        fp < s.len() ==> s[fp] == '(',
    ensures
        j == fp,
{
    if j < fp {
        assert(s[j] == '(');
        assert(false);
    }
    if fp < j {
        if fp < j - 1 {
            assert(is_name_char(s[fp]));
        }
        assert(false);
    }
}

/// Checks the optional email part after the closing parenthesis at `k`,
/// which here is known not to be the last character.
fn email_tail_ok(s: &str, k: usize, n: usize) -> (r: bool)
    requires
        n == s@.len(),
        k + 1 < n,
    ensures
        r == mention_tail(s@, k as int),
{
    if n - k < 4 {
        return false;
    }
    if s.get_char(k + 1) != ' ' || s.get_char(k + 2) != '<' || s.get_char(n - 1) != '>' {
        return false;
    }
    let ghost inner = s@.subrange(k + 3, n as int - 1);
    if k + 3 >= n - 1 {
        return false;
    }
    if s.get_char(k + 3) == '@' {
        proof {
            assert(inner[0] == s@[k + 3]);
        }
        return false;
    }
    let mut m = k + 4;
    while m < n - 1 && s.get_char(m) != '>' && s.get_char(m) != '@'
        invariant
            n == s@.len(),
            k + 4 <= m <= n - 1,
            forall|i: int| k + 4 <= i < m ==> s@[i] != '>' && s@[i] != '@',
        decreases n - m,
    {
        m += 1;
    }
    if m < n - 1 && s.get_char(m) == '>' {
        proof {
            assert(inner[m - (k + 3)] == s@[m as int]);
            assert(!is_email_inner(inner));
        }
        return false;
    }
    if m == n - 1 {
        // no '@' anywhere in the inner text past its first character
        proof {
            assert forall|p: int, q: int| !email_marks(inner, p, q) by {
                if email_marks(inner, p, q) {
                    assert(s@[k + 3 + p] == '@');
                }
            }
            assert(!is_email_inner(inner));
        }
        return false;
    }
    // m is the first '@' at inner index >= 1; scan the rest for '>' first
    let at = m;
    let mut w = at + 1;
    while w < n - 1 && s.get_char(w) != '>'
        invariant
            n == s@.len(),
            at + 1 <= w <= n - 1,
            forall|i: int| at + 1 <= i < w ==> s@[i] != '>',
        decreases n - w,
    {
        w += 1;
    }
    if w < n - 1 {
        proof {
            assert(inner[w - (k + 3)] == s@[w as int]);
            assert(!is_email_inner(inner));
        }
        return false;
    }
    // every character of the inner text past the first differs from '>'
    proof {
        assert forall|i: int| 1 <= i < inner.len() implies inner[i] != '>' by {
            assert(inner[i] == s@[k + 3 + i]);
        }
    }
    if at + 2 > n - 3 {
        proof {
            assert forall|p: int, q: int| !email_marks(inner, p, q) by {
                if email_marks(inner, p, q) {
                    assert(s@[k + 3 + p] == '@');
                    assert(k + 3 + p >= at);
                    assert(k + 3 + q <= n - 3);
                }
            }
            assert(!is_email_inner(inner));
        }
        return false;
    }
    let mut d = at + 2;
    while d <= n - 3 && s.get_char(d) != '.'
        invariant
            n == s@.len(),
            at + 2 <= d <= n - 2,
            forall|i: int| at + 2 <= i < d ==> s@[i] != '.',
        decreases n - d,
    {
        d += 1;
    }
    if d > n - 3 {
        proof {
            assert forall|p: int, q: int| !email_marks(inner, p, q) by {
                if email_marks(inner, p, q) {
                    assert(s@[k + 3 + p] == '@');
                    assert(k + 3 + p >= at);
                    assert(at + 2 <= k + 3 + q <= n - 3);
                    assert(s@[k + 3 + q] == '.');
                }
            }
            assert(!is_email_inner(inner));
        }
        return false;
    }
    proof {
        assert(inner[at - (k + 3)] == s@[at as int]);
        assert(inner[d - (k + 3)] == s@[d as int]);
        assert(email_marks(inner, at - (k + 3), d - (k + 3)));
        assert(inner[0] == s@[k + 3]);
        assert(is_email_inner(inner));
    }
    true
}

/// Parses one trimmed author-list entry against the mention grammar,
/// returning the handle when the entry is a well-formed mention and `None`
/// otherwise.
pub fn parse_author_mention(s: &str) -> (r: Option<String>)
    ensures
        match r {
            Some(h) => is_mention(s@) && h@ == mention_handle(s@),
            None => !is_mention(s@),
        },
{
    let n = s.unicode_len();
    let mut j: usize = 0;
    while j < n && s.get_char(j) != '('
        invariant
            n == s@.len(),
            j <= n,
            forall|m: int| 0 <= m < j ==> s@[m] != '(',
        decreases n - j,
    {
        j += 1;
    }
    if j == n || j < 2 || n - j < 4 {
        proof {
            assert forall|j2: int, k2: int| mention_shape(s@, j2, k2) implies false by {
                lemma_shape_at_first_paren(s@, j as int, j2, k2);
            }
        }
        return None;
    }
    if s.get_char(j - 1) != ' ' || s.get_char(j + 1) != '@' {
        proof {
            assert forall|j2: int, k2: int| mention_shape(s@, j2, k2) implies false by {
                lemma_shape_at_first_paren(s@, j as int, j2, k2);
            }
        }
        return None;
    }
    let mut m: usize = 0;
    while m < j - 1
        invariant
            n == s@.len(),
            j + 4 <= n,
            2 <= j,
            m <= j - 1,
            forall|i: int| 0 <= i < j ==> s@[i] != '(',
            forall|i: int| 0 <= i < m ==> is_name_char(s@[i]),
        decreases j - m,
    {
        let c = s.get_char(m);
        if c == ')' || c == '<' || c == '>' || c == ',' || c == '@' {
            proof {
                assert(!is_name_char(s@[m as int]));
                assert forall|j2: int, k2: int| mention_shape(s@, j2, k2) implies false by {
                    lemma_shape_at_first_paren(s@, j as int, j2, k2);
                }
            }
            return None;
        }
        proof {
            assert(s@[m as int] != '(');
            assert(is_name_char(s@[m as int]));
        }
        m += 1;
    }
    let mut k = j + 2;
    while k < n && handle_char(s.get_char(k))
        invariant
            n == s@.len(),
            j + 2 <= k <= n,
            forall|i: int| j + 2 <= i < k ==> is_handle_char(s@[i]),
        decreases n - k,
    {
        k += 1;
    }
    if k == n || s.get_char(k) != ')' || k < j + 3 {
        proof {
            assert(k < n ==> !is_handle_char(s@[k as int]));
            assert forall|j2: int, k2: int| mention_shape(s@, j2, k2) implies false by {
                lemma_shape_at_first_paren(s@, j as int, j2, k2);
                if k2 < k {
                    assert(s@[k2] == ')');
                    assert(is_handle_char(s@[k2]));
                } else if k2 > k {
                    assert(is_handle_char(s@[k as int]));
                }
            }
        }
        return None;
    }
    let tail_ok = if k == n - 1 {
        true
    } else {
        email_tail_ok(s, k, n)
    };
    if !tail_ok {
        proof {
            assert forall|j2: int, k2: int| mention_shape(s@, j2, k2) implies false by {
                lemma_shape_at_first_paren(s@, j as int, j2, k2);
                if k2 < k {
                    assert(s@[k2] == ')');
                    assert(is_handle_char(s@[k2]));
                } else if k2 > k {
                    assert(is_handle_char(s@[k as int]));
                }
                assert(mention_tail(s@, k as int));
            }
        }
        return None;
    }
    let handle = String::from_str(s.substring_char(j + 2, k));
    proof {
        assert(mention_shape(s@, j as int, k as int));
        assert(is_mention(s@));
        let (j2, k2) = choose|j2: int, k2: int| mention_shape(s@, j2, k2);
        lemma_mention_shape_unique(s@, j as int, k as int, j2, k2);
    }
    Some(handle)
}

} // verus!
