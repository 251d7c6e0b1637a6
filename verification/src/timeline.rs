//! The timeline builder's ingredients: which reviews count as an editor
//! touch, and how comments are classified into author and editor events.

use crate::gate::{gate_spec, timeline_of};
use crate::identity::IdentitySet;
use crate::text::{lower_of, lowercase};
use crate::{Actor, Event};
use vstd::prelude::*;
use vstd::string::*;

verus! {

/// The state of a platform review, as far as the decision rule cares.
#[derive(Clone, Copy, PartialEq, Eq, Debug, Structural)]
pub enum ReviewKind {
    Approved,
    ChangesRequested,
    Commented,
    Dismissed,
    Pending,
    Other,
}

/// A review fetched from the platform; read-only input.
pub struct ReviewRecord {
    pub reviewer: Option<String>,
    pub state: ReviewKind,
    pub submitted_at: Option<i64>,
}

/// A comment fetched from the platform; read-only input.
pub struct CommentRecord {
    pub author: String,
    pub created_at: i64,
}

/// The fatal conditions met while building a timeline. Either one aborts
/// the whole run; there is no partial output.
#[derive(Clone, Copy, PartialEq, Eq, Debug, Structural)]
pub enum GateError {
    /// The single-page assumption for reviews was violated.
    ReviewPagesTruncated,
    /// A qualifying review carries no submission time.
    MissingSubmissionTime,
}

/// Whether a review counts as an editor touch: it asks for changes or
/// comments (an approval never counts, from anyone), and the identity that
/// submitted it is a recognized editor under case-insensitive comparison.
pub open spec fn qualifying(r: ReviewRecord, editors: Set<Seq<char>>) -> bool {
    &&& (r.state is ChangesRequested || r.state is Commented)
    &&& r.reviewer is Some
    &&& editors.contains(lower_of((r.reviewer->0)@))
}

/// The "last qualifying editor review" event: among the reviews that count
/// as an editor touch, the one with the greatest submission time. Yields no
/// event when none qualifies; fails when the reviews were truncated or a
/// qualifying review carries no time.
pub fn last_editor_review(reviews: &Vec<ReviewRecord>, more_pages: bool, editors: &IdentitySet) -> (r:
    Result<Option<Event>, GateError>)
    ensures
        more_pages ==> r == Result::<Option<Event>, GateError>::Err(
            GateError::ReviewPagesTruncated,
        ),
        !more_pages ==> (match r {
            Err(e) => e == GateError::MissingSubmissionTime && (exists|i: int|
                0 <= i < reviews@.len() && qualifying(reviews@[i], editors@)
                    && reviews@[i].submitted_at is None),
            Ok(opt) => (match opt {
                None => forall|i: int|
                    0 <= i < reviews@.len() ==> !qualifying(reviews@[i], editors@),
                Some(ev) => {
                    &&& ev.actor is Editor
                    &&& (exists|i: int|
                        0 <= i < reviews@.len() && qualifying(reviews@[i], editors@)
                            && reviews@[i].submitted_at == Some(ev.when))
                    &&& (forall|i: int|
                        0 <= i < reviews@.len() && qualifying(reviews@[i], editors@)
                            ==> reviews@[i].submitted_at is Some && (reviews@[i].submitted_at->0)
                            <= ev.when)
                },
            }),
        }),
{
    if more_pages {
        return Err(GateError::ReviewPagesTruncated);
    }
    let mut best: Option<i64> = None;
    let mut i: usize = 0;
    while i < reviews.len()
        invariant
            !more_pages,
            i <= reviews.len(),
            match best {
                None => forall|j: int| 0 <= j < i ==> !qualifying(reviews@[j], editors@),
                Some(t) => {
                    &&& (exists|j: int|
                        0 <= j < i && qualifying(reviews@[j], editors@) && reviews@[j].submitted_at
                            == Some(t))
                    &&& (forall|j: int|
                        0 <= j < i && qualifying(reviews@[j], editors@)
                            ==> reviews@[j].submitted_at is Some && (reviews@[j].submitted_at->0)
                            <= t)
                },
            },
        decreases reviews.len() - i,
    {
        let rv = &reviews[i];
        let state_counts = match rv.state {
            ReviewKind::ChangesRequested => true,
            ReviewKind::Commented => true,
            _ => false,
        };
        let mut is_q = false;
        if state_counts {
            match &rv.reviewer {
                Some(login) => {
                    is_q = editors.contains(&lowercase(login.as_str()));
                },
                None => {},
            }
        }
        proof {
            assert(is_q == qualifying(reviews@[i as int], editors@));
        }
        if is_q {
            match rv.submitted_at {
                None => {
                    proof {
                        assert(reviews@[i as int].submitted_at is None);
                    }
                    return Err(GateError::MissingSubmissionTime);
                },
                Some(t) => {
                    match best {
                        None => {
                            best = Some(t);
                        },
                        Some(b) => {
                            if t > b {
                                best = Some(t);
                            }
                        },
                    }
                },
            }
        }
        i += 1;
    }
    match best {
        None => Ok(None),
        Some(t) => Ok(Some(Event { actor: Actor::Editor, when: t })),
    }
}

/// How one comment is classified: a comment from an editor is an editor
/// event, else one from a recognized author is an author event, else the
/// comment is from an unrecognized third party and is ignored.
pub open spec fn classify(
    author: Seq<char>,
    when: i64,
    editors: Set<Seq<char>>,
    authors: Set<Seq<char>>,
) -> Option<Event> {
    if editors.contains(lower_of(author)) {
        Some(Event { actor: Actor::Editor, when: when })
    } else if authors.contains(lower_of(author)) {
        Some(Event { actor: Actor::Author, when: when })
    } else {
        None
    }
}

/// The events contributed by a list of comments, in order.
pub open spec fn comment_events_of(
    cs: Seq<CommentRecord>,
    editors: Set<Seq<char>>,
    authors: Set<Seq<char>>,
) -> Seq<Event>
    decreases cs.len(),
{
    if cs.len() == 0 {
        Seq::empty()
    } else {
        comment_events_of(cs.drop_last(), editors, authors) + (match classify(
            cs.last().author@,
            cs.last().created_at,
            editors,
            authors,
        ) {
            Some(e) => seq![e],
            None => Seq::<Event>::empty(),
        })
    }
}

/// Turns the fetched comments into timeline events, dropping the ones from
/// identities in neither set.
pub fn comment_events(cs: &Vec<CommentRecord>, editors: &IdentitySet, authors: &IdentitySet) -> (r:
    Vec<Event>)
    ensures
        r@ == comment_events_of(cs@, editors@, authors@),
{
    let mut r: Vec<Event> = Vec::new();
    let mut i: usize = 0;
    proof {
        assert(cs@.take(0) =~= Seq::<CommentRecord>::empty());
    }
    while i < cs.len()
        invariant
            i <= cs.len(),
            r@ == comment_events_of(cs@.take(i as int), editors@, authors@),
        decreases cs.len() - i,
    {
        let ghost prefix = cs@.take(i as int + 1);
        proof {
            assert(prefix.drop_last() =~= cs@.take(i as int));
            assert(prefix.last() == cs@[i as int]);
        }
        let c = &cs[i];
        let low = lowercase(c.author.as_str());
        let ghost r0 = r@;
        if editors.contains(&low) {
            r.push(Event { actor: Actor::Editor, when: c.created_at });
        } else if authors.contains(&low) {
            r.push(Event { actor: Actor::Author, when: c.created_at });
        }
        proof {
            assert(r@ =~= comment_events_of(prefix, editors@, authors@));
        }
        i += 1;
    }
    proof {
        assert(cs@.take(cs.len() as int) =~= cs@);
    }
    r
}

/// An approving review never counts as an editor touch, whoever wrote it:
/// a proposal whose only activity is its creation plus approving reviews
/// has no qualifying review, so it is included with its creation time as
/// the sort key.
pub proof fn lemma_approval_never_counts(rs: Seq<ReviewRecord>, editors: Set<Seq<char>>, t0: i64)
    requires
        forall|i: int| 0 <= i < rs.len() ==> (#[trigger] rs[i]).state is Approved,
    ensures
        forall|i: int| 0 <= i < rs.len() ==> !qualifying(#[trigger] rs[i], editors),
        gate_spec(timeline_of(t0, None, Seq::<Event>::empty())) == Some(t0 as int),
{
    crate::gate::lemma_creation_only_included(t0);
}

/// Identity comparisons are case-insensitive: two identities with the same
/// lower-cased form always land in the same role, for comments and for
/// reviews alike.
pub proof fn lemma_case_insensitive_classification(
    a: Seq<char>,
    b: Seq<char>,
    when: i64,
    r: ReviewRecord,
    q: ReviewRecord,
    editors: Set<Seq<char>>,
    authors: Set<Seq<char>>,
)
    requires
        lower_of(a) == lower_of(b),
        r.reviewer is Some,
        q.reviewer is Some,
        lower_of((r.reviewer->0)@) == lower_of((q.reviewer->0)@),
        r.state == q.state,
    ensures
        classify(a, when, editors, authors) == classify(b, when, editors, authors),
        qualifying(r, editors) == qualifying(q, editors),
{
}

} // verus!
