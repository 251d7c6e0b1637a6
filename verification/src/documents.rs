//! The identity resolver: which changed files count as specification
//! documents, and which author identities their front matter declares.

use crate::identity::IdentitySet;
use crate::mention::{is_mention, mention_handle, parse_author_mention};
use crate::text::{lower_of, lowercase, split_on, split_str, trim_of, trimmed};
use eipw_preamble::Preamble;
use vstd::prelude::*;
use vstd::string::*;

verus! {

/// A changed file handed to the identity resolver: its repository path and
/// its content on the proposal's source branch.
pub struct Document {
    pub path: String,
    pub content: String,
}

/// The fatal condition the identity resolver can meet: a document whose
/// front matter parses but declares no author field. It aborts the whole
/// run; a conforming specification document always carries the field.
#[derive(Clone, Copy, PartialEq, Eq, Debug, Structural)]
pub enum ResolveError {
    MissingAuthorField,
}

pub open spec fn is_digit(c: char) -> bool {
    48 <= c as u32 && c as u32 <= 57
}

/// Runtime test for [`is_digit`].
fn digit_char(c: char) -> (r: bool)
    ensures
        r == is_digit(c),
{
    let u = c as u32;
    48 <= u && u <= 57
}

/// One of the two known top-level directories, with its slash, at `i`.
pub open spec fn dir_at(s: Seq<char>, i: int) -> bool {
    &&& s[i] == 'E'
    &&& ((s[i + 1] == 'I' && s[i + 2] == 'P') || (s[i + 1] == 'R' && s[i + 2] == 'C'))
    &&& s[i + 3] == 'S'
    &&& s[i + 4] == '/'
}

/// The numbered-file prefix (`eip-` or `erc-`) at `i`.
pub open spec fn pfx_at(s: Seq<char>, i: int) -> bool {
    &&& s[i] == 'e'
    &&& ((s[i + 1] == 'i' && s[i + 2] == 'p') || (s[i + 1] == 'r' && s[i + 2] == 'c'))
    &&& s[i + 3] == '-'
}

/// Whether the whole path follows the specification-document naming
/// convention: a known top-level directory, a numbered-file prefix, at
/// least one digit, and the `.md` suffix ending the path.
pub open spec fn is_doc_path(s: Seq<char>) -> bool {
    &&& s.len() >= 13
    &&& dir_at(s, 0)
    &&& pfx_at(s, 5)
    &&& (forall|m: int| 9 <= m < s.len() - 3 ==> is_digit(s[m]))
    &&& s[s.len() - 3] == '.' && s[s.len() - 2] == 'm' && s[s.len() - 1] == 'd'
}

/// Whether a changed file's path names a specification document: the path
/// as a whole is a numbered document directly under one of the two known
/// top-level directories, with an `.md` suffix.
pub fn is_spec_document_path(s: &str) -> (r: bool)
    ensures
        r == is_doc_path(s@),
{
    let n = s.unicode_len();
    if n < 13 {
        return false;
    }
    let dir_ok = s.get_char(0) == 'E' && ((s.get_char(1) == 'I' && s.get_char(2) == 'P') || (
    s.get_char(1) == 'R' && s.get_char(2) == 'C')) && s.get_char(3) == 'S' && s.get_char(4) == '/';
    let pfx_ok = dir_ok && s.get_char(5) == 'e' && ((s.get_char(6) == 'i' && s.get_char(7) == 'p')
        || (s.get_char(6) == 'r' && s.get_char(7) == 'c')) && s.get_char(8) == '-';
    if !pfx_ok {
        return false;
    }
    if s.get_char(n - 3) != '.' || s.get_char(n - 2) != 'm' || s.get_char(n - 1) != 'd' {
        return false;
    }
    let mut m: usize = 9;
    while m < n - 3
        invariant
            n == s@.len(),
            13 <= n,
            9 <= m <= n - 3,
            forall|j: int| 9 <= j < m ==> is_digit(s@[j]),
        decreases n - m,
    {
        if !digit_char(s.get_char(m)) {
            return false;
        }
        m += 1;
    }
    true
}

/// The specification documents among a list of changed paths, in order.
pub open spec fn doc_paths_of(paths: Seq<Seq<char>>) -> Seq<Seq<char>>
    decreases paths.len(),
{
    if paths.len() == 0 {
        Seq::empty()
    } else {
        let rest = doc_paths_of(paths.drop_last());
        if is_doc_path(paths.last()) {
            rest.push(paths.last())
        } else {
            rest
        }
    }
}

/// Keeps exactly the changed paths that follow the specification-document
/// naming convention, preserving their order.
pub fn filter_spec_paths(paths: &Vec<String>) -> (r: Vec<String>)
    ensures
        r.deep_view() == doc_paths_of(paths.deep_view()),
{
    let mut r: Vec<String> = Vec::new();
    let mut i: usize = 0;
    proof {
        assert(paths.deep_view().take(0) =~= Seq::<Seq<char>>::empty());
    }
    while i < paths.len()
        invariant
            i <= paths.len(),
            r.deep_view() == doc_paths_of(paths.deep_view().take(i as int)),
        decreases paths.len() - i,
    {
        let ghost prefix = paths.deep_view().take(i as int + 1);
        proof {
            assert(prefix.drop_last() =~= paths.deep_view().take(i as int));
            assert(prefix.last() == paths.deep_view()[i as int]);
        }
        let ghost r0 = r.deep_view();
        if is_spec_document_path(paths[i].as_str()) {
            r.push(paths[i].clone());
            proof {
                assert(r.deep_view() =~= r0.push(paths.deep_view()[i as int]));
            }
        }
        i += 1;
    }
    proof {
        assert(paths.deep_view().take(paths.len() as int) =~= paths.deep_view());
    }
    r
}

/// What the front-matter parser yields for a document: on success the raw
/// `author` field, or `None` when the parsed preamble declares no such
/// field; on failure the parser's message, when the text cannot be split
/// or cannot be parsed.
pub uninterp spec fn preamble_author_of(path: Seq<char>, content: Seq<char>) -> Result<
    Option<Seq<char>>,
    Seq<char>,
>;

/// Relies on `eipw_preamble::Preamble::split` and `Preamble::parse`, plus
/// the field accessors `by_name` and `value`: the outcome is a function of
/// the document's path and text alone.
#[verifier::external_body]
fn extract_preamble_author(path: &String, content: &String) -> (r: Result<Option<String>, String>)
    ensures
        (match (r, preamble_author_of(path@, content@)) {
            (Ok(Some(f)), Ok(Some(g))) => f@ == g,
            (Ok(None), Ok(None)) => true,
            (Err(a), Err(b)) => a@ == b,
            _ => false,
        }),
{
    match Preamble::split(content) {
        Err(e) => Err(format!("{e}")),
        Ok((fm, _)) => match Preamble::parse(Some(path.as_str()), fm) {
            Err(e) => Err(format!("{e}")),
            Ok(p) => Ok(p.by_name("author").map(|f| f.value().to_string())),
        },
    }
}

/// The handles contributed by the comma-separated entries of an author
/// field: every entry that, after trimming, fits the mention grammar
/// contributes its lower-cased handle.
pub open spec fn entries_handles(entries: Seq<Seq<char>>) -> Set<Seq<char>>
    decreases entries.len(),
{
    if entries.len() == 0 {
        Set::empty()
    } else {
        let rest = entries_handles(entries.drop_last());
        let t = trim_of(entries.last());
        if is_mention(t) {
            rest.insert(lower_of(mention_handle(t)))
        } else {
            rest
        }
    }
}

/// The author identities declared by one author field.
pub open spec fn handles_of_field(field: Seq<char>) -> Set<Seq<char>> {
    entries_handles(split_on(trim_of(field), ','))
}

/// A document whose front matter parses but declares no author field — the
/// resolver's fatal condition.
pub open spec fn doc_missing_author(d: Document) -> bool {
    preamble_author_of(d.path@, d.content@) matches Ok(None)
}

/// The author identities contributed by one document: none when its front
/// matter cannot be handled.
pub open spec fn doc_authors(d: Document) -> Set<Seq<char>> {
    match preamble_author_of(d.path@, d.content@) {
        Ok(Some(f)) => handles_of_field(f),
        Ok(None) => Set::empty(),
        Err(_) => Set::empty(),
    }
}

/// The author identities declared across all of a proposal's documents.
pub open spec fn docs_authors(ds: Seq<Document>) -> Set<Seq<char>>
    decreases ds.len(),
{
    if ds.len() == 0 {
        Set::empty()
    } else {
        docs_authors(ds.drop_last()).union(doc_authors(ds.last()))
    }
}

/// The front-matter failures among a proposal's documents, in order.
pub open spec fn docs_errors(ds: Seq<Document>) -> Seq<Seq<char>>
    decreases ds.len(),
{
    if ds.len() == 0 {
        Seq::empty()
    } else {
        docs_errors(ds.drop_last()) + (match preamble_author_of(
            ds.last().path@,
            ds.last().content@,
        ) {
            Ok(_) => Seq::<Seq<char>>::empty(),
            Err(m) => seq![m],
        })
    }
}

/// Derives a proposal's author set from its specification documents, along
/// with the parser messages of the documents whose front matter could not
/// be split or parsed. Such a document contributes no authors and never
/// stops the others from being resolved; but a document whose front matter
/// parses without an author field is a fatal condition and fails the call.
pub fn resolve_authors(docs: &Vec<Document>) -> (r: Result<
    (IdentitySet, Vec<String>),
    ResolveError,
>)
    ensures
        match r {
            Ok(p) => {
                &&& (forall|i: int|
                    0 <= i < docs@.len() ==> !doc_missing_author(#[trigger] docs@[i]))
                &&& p.0@ == docs_authors(docs@)
                &&& p.1.deep_view() == docs_errors(docs@)
            },
            Err(e) => {
                &&& e == ResolveError::MissingAuthorField
                &&& (exists|i: int|
                    0 <= i < docs@.len() && doc_missing_author(#[trigger] docs@[i]))
            },
        },
{
    let mut authors = IdentitySet::new();
    let mut errors: Vec<String> = Vec::new();
    let mut i: usize = 0;
    proof {
        assert(docs@.take(0) =~= Seq::<Document>::empty());
        assert(errors.deep_view() =~= Seq::<Seq<char>>::empty());
    }
    while i < docs.len()
        invariant
            i <= docs.len(),
            authors@ == docs_authors(docs@.take(i as int)),
            errors.deep_view() == docs_errors(docs@.take(i as int)),
            forall|j: int| 0 <= j < i ==> !doc_missing_author(#[trigger] docs@[j]),
        decreases docs.len() - i,
    {
        let ghost prefix = docs@.take(i as int + 1);
        proof {
            assert(prefix.drop_last() =~= docs@.take(i as int));
            assert(prefix.last() == docs@[i as int]);
        }
        let d = &docs[i];
        let ghost a0 = authors@;
        let ghost e0 = errors.deep_view();
        match extract_preamble_author(&d.path, &d.content) {
            Err(m) => {
                errors.push(m);
                proof {
                    assert(errors.deep_view() =~= e0.push(m@));
                    assert(errors.deep_view() =~= docs_errors(prefix));
                    assert(doc_authors(docs@[i as int]) =~= Set::<Seq<char>>::empty());
                    assert(authors@ =~= docs_authors(prefix));
                }
            },
            Ok(None) => {
                proof {
                    assert(doc_missing_author(docs@[i as int]));
                }
                return Err(ResolveError::MissingAuthorField);
            },
            Ok(Some(field)) => {
                let ghost fv = preamble_author_of(d.path@, d.content@)->Ok_0->0;
                let entries = split_str(trimmed(field.as_str()), ',');
                let mut j: usize = 0;
                proof {
                    assert(entries.deep_view().take(0) =~= Seq::<Seq<char>>::empty());
                    assert(a0.union(entries_handles(entries.deep_view().take(0))) =~= a0);
                }
                while j < entries.len()
                    invariant
                        j <= entries.len(),
                        authors@ == a0.union(entries_handles(entries.deep_view().take(j as int))),
                    decreases entries.len() - j,
                {
                    let ghost eprefix = entries.deep_view().take(j as int + 1);
                    proof {
                        assert(eprefix.drop_last() =~= entries.deep_view().take(j as int));
                        assert(eprefix.last() == entries.deep_view()[j as int]);
                    }
                    let t = trimmed(entries[j].as_str());
                    match parse_author_mention(t) {
                        Some(h) => {
                            authors.insert(lowercase(h.as_str()));
                            proof {
                                assert(authors@ =~= a0.union(entries_handles(eprefix)));
                            }
                        },
                        None => {
                            proof {
                                assert(entries_handles(eprefix) =~= entries_handles(
                                    eprefix.drop_last(),
                                ));
                            }
                        },
                    }
                    j += 1;
                }
                proof {
                    assert(entries.deep_view().take(entries.len() as int) =~= entries.deep_view());
                    assert(entries.deep_view() == split_on(trim_of(fv), ','));
                    assert(authors@ =~= a0.union(handles_of_field(fv)));
                    assert(authors@ =~= docs_authors(prefix));
                    assert(errors.deep_view() =~= docs_errors(prefix));
                }
            },
        }
        i += 1;
    }
    proof {
        assert(docs@.take(docs.len() as int) =~= docs@);
    }
    Ok((authors, errors))
}

/// A document whose front matter cannot be split or parsed contributes no
/// authors and takes nothing from the other documents: removing it from
/// the list leaves the resolved author set unchanged.
pub proof fn lemma_failed_doc_isolated(ds: Seq<Document>, i: int)
    requires
        0 <= i < ds.len(),
        preamble_author_of(ds[i].path@, ds[i].content@) is Err,
    ensures
        docs_authors(ds) == docs_authors(ds.remove(i)),
    decreases ds.len(),
{
    if i == ds.len() - 1 {
        assert(ds.remove(i) =~= ds.drop_last());
        assert(doc_authors(ds[i]) =~= Set::<Seq<char>>::empty());
        assert(docs_authors(ds) =~= docs_authors(ds.drop_last()));
    } else {
        lemma_failed_doc_isolated(ds.drop_last(), i);
        assert(ds.remove(i).drop_last() =~= ds.drop_last().remove(i));
        assert(ds.remove(i).last() == ds.last());
        assert(docs_authors(ds.remove(i)) == docs_authors(ds.drop_last().remove(i)).union(
            doc_authors(ds.last()),
        ));
    }
}

} // verus!
