//! Small text utilities shared by the parsing modules: case normalization,
//! whitespace trimming, and splitting on a separator character.

use vstd::prelude::*;
use vstd::string::*;

verus! {

/// What `str::to_lowercase` returns for a given sequence of characters.
/// The full Unicode case mapping is left uninterpreted; every identity
/// comparison in the library goes through this one function, which is what
/// makes those comparisons consistently case-insensitive.
pub uninterp spec fn lower_of(s: Seq<char>) -> Seq<char>;

/// Relies on `str::to_lowercase`: the result is a function of the input
/// characters alone (Unicode lowercase conversion).
#[verifier::external_body]
pub(crate) fn lowercase(s: &str) -> (r: String)
    ensures
        r@ == lower_of(s@),
{
    s.to_lowercase()
}

/// What `str::trim` returns for a given sequence of characters. Left
/// uninterpreted: the exact Unicode whitespace set belongs to the outside
/// function.
pub uninterp spec fn trim_of(s: Seq<char>) -> Seq<char>;

/// Relies on `str::trim`: the result is a function of the input characters
/// alone (leading and trailing whitespace removed).
#[verifier::external_body]
pub(crate) fn trimmed<'a>(s: &'a str) -> (r: &'a str)
    ensures
        r@ == trim_of(s@),
{
    s.trim()
}

/// Index of the first occurrence of `sep` in `s`, or `s.len()` if absent.
pub open spec fn first_index_of(s: Seq<char>, sep: char) -> nat
    decreases s.len(),
{
    if s.len() == 0 {
        0
    } else if s[0] == sep {
        0
    } else {
        1 + first_index_of(s.drop_first(), sep)
    }
}

/// If the first `k` characters of `s` differ from `sep` and either `k` is the
/// length of `s` or `s[k]` is `sep`, then `k` is the first index of `sep`.
pub proof fn lemma_first_index_of_exact(s: Seq<char>, sep: char, k: int)
    requires
        0 <= k <= s.len(),
        forall|m: int| 0 <= m < k ==> s[m] != sep,
        k < s.len() ==> s[k] == sep,
    ensures
        first_index_of(s, sep) == k,
    decreases s.len(),
{
    if s.len() == 0 {
    } else if s[0] == sep {
    } else {
        assert forall|m: int| 0 <= m < k - 1 implies s.drop_first()[m] != sep by {
            assert(s.drop_first()[m] == s[m + 1]);
        }
        if k - 1 < s.drop_first().len() {
            assert(s.drop_first()[k - 1] == s[k]);
        }
        lemma_first_index_of_exact(s.drop_first(), sep, k - 1);
    }
}

/// The pieces of `s` between occurrences of `sep`, in order. There is always
/// one more piece than there are separators; pieces may be empty.
pub open spec fn split_on(s: Seq<char>, sep: char) -> Seq<Seq<char>>
    decreases s.len(),
{
    let i = first_index_of(s, sep);
    if i >= s.len() {
        seq![s]
    } else {
        seq![s.subrange(0, i as int)] + split_on(s.subrange(i as int + 1, s.len() as int), sep)
    }
}

/// Splits `s` at every occurrence of `sep`.
pub fn split_str(s: &str, sep: char) -> (r: Vec<String>)
    ensures
        r.deep_view() == split_on(s@, sep),
{
    let n = s.unicode_len();
    let mut out: Vec<String> = Vec::new();
    let mut pos: usize = 0;
    proof {
        assert(s@.skip(0) =~= s@);
        assert(out.deep_view() + split_on(s@, sep) =~= split_on(s@, sep));
    }
    loop
        invariant_except_break
            out.deep_view() + split_on(s@.skip(pos as int), sep) == split_on(s@, sep),
        invariant
            n == s@.len(),
            pos <= n,
        ensures
            out.deep_view() == split_on(s@, sep),
        decreases n - pos,
    {
        let ghost rest = s@.skip(pos as int);
        let mut idx = pos;
        while idx < n && s.get_char(idx) != sep
            invariant
                n == s@.len(),
                pos <= idx <= n,
                forall|m: int| pos <= m < idx ==> s@[m] != sep,
            decreases n - idx,
        {
            idx += 1;
        }
        proof {
            assert forall|m: int| 0 <= m < idx - pos implies rest[m] != sep by {
                assert(rest[m] == s@[pos + m]);
            }
            if idx < n {
                assert(rest[idx - pos] == s@[idx as int]);
            }
            lemma_first_index_of_exact(rest, sep, idx - pos as int);
        }
        let ghost out0 = out.deep_view();
        let piece = String::from_str(s.substring_char(pos, idx));
        out.push(piece);
        proof {
            assert(out.deep_view() =~= out0.push(piece@));
        }
        if idx == n {
            proof {
                assert(piece@ =~= rest);
                assert(split_on(rest, sep) == seq![rest]);
                assert(out.deep_view() =~= out0 + seq![rest]);
                assert(out.deep_view() == split_on(s@, sep));
            }
            break;
        }
        proof {
            let tail = rest.subrange(idx - pos + 1, rest.len() as int);
            assert(rest.subrange(0, (idx - pos) as int) =~= s@.subrange(pos as int, idx as int));
            assert(tail =~= s@.skip(idx + 1));
            assert(split_on(rest, sep) == seq![rest.subrange(0, (idx - pos) as int)] + split_on(tail, sep));
            assert(out.deep_view() + split_on(s@.skip(idx + 1), sep) =~= (out0 + split_on(rest, sep)));
        }
        pos = idx + 1;
    }
    out
}

} // verus!
