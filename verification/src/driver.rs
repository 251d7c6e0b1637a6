//! The batch driver's verified pieces: draft filtering, per-proposal
//! evaluation, and the ordering of the collected results.

use crate::gate::{gate_spec, proposal_gate, timeline_of};
use crate::Event;
use vstd::prelude::*;

verus! {

/// An open proposal, as far as the engine reads it.
pub struct Proposal {
    pub number: u64,
    pub created_at: i64,
    pub is_draft: bool,
    pub html_url: Option<String>,
}

impl Proposal {
    /// A field-for-field copy.
    pub fn duplicate(&self) -> (r: Proposal)
        ensures
            r == *self,
    {
        Proposal {
            number: self.number,
            created_at: self.created_at,
            is_draft: self.is_draft,
            html_url: match &self.html_url {
                Some(u) => Some(u.clone()),
                None => None,
            },
        }
    }
}

/// The proposals that may enter the candidate set: everything not marked as
/// a draft, in the listing's order.
pub open spec fn non_drafts(ps: Seq<Proposal>) -> Seq<Proposal>
    decreases ps.len(),
{
    if ps.len() == 0 {
        Seq::empty()
    } else {
        let rest = non_drafts(ps.drop_last());
        if !ps.last().is_draft {
            rest.push(ps.last())
        } else {
            rest
        }
    }
}

/// A draft proposal never enters the candidate set, whatever its activity.
pub proof fn lemma_drafts_never_candidates(ps: Seq<Proposal>)
    ensures
        forall|i: int| 0 <= i < non_drafts(ps).len() ==> !(#[trigger] non_drafts(ps)[i]).is_draft,
    decreases ps.len(),
{
    if ps.len() > 0 {
        lemma_drafts_never_candidates(ps.drop_last());
    }
}

/// Drops the draft proposals from a listing, keeping the others in order.
pub fn filter_non_draft(prs: &Vec<Proposal>) -> (r: Vec<Proposal>)
    ensures
        r@ == non_drafts(prs@),
{
    let mut r: Vec<Proposal> = Vec::new();
    let mut i: usize = 0;
    proof {
        assert(prs@.take(0) =~= Seq::<Proposal>::empty());
    }
    while i < prs.len()
        invariant
            i <= prs.len(),
            r@ == non_drafts(prs@.take(i as int)),
        decreases prs.len() - i,
    {
        let ghost prefix = prs@.take(i as int + 1);
        proof {
            assert(prefix.drop_last() =~= prs@.take(i as int));
            assert(prefix.last() == prs@[i as int]);
        }
        if !prs[i].is_draft {
            r.push(prs[i].duplicate());
        }
        i += 1;
    }
    proof {
        assert(prs@.take(prs.len() as int) =~= prs@);
    }
    r
}

/// One included proposal: its sort key and its link.
pub struct Candidate {
    pub key: i64,
    pub url: String,
}

impl Candidate {
    /// A field-for-field copy.
    pub fn duplicate(&self) -> (r: Candidate)
        ensures
            r == *self,
    {
        Candidate { key: self.key, url: self.url.clone() }
    }
}

/// Inserts a candidate into an ordered run, before the first entry whose
/// key is not smaller: a later arrival never overtakes an equal key.
pub open spec fn insert_by_key(s: Seq<Candidate>, c: Candidate) -> Seq<Candidate>
    decreases s.len(),
{
    if s.len() == 0 {
        seq![c]
    } else if c.key <= s[0].key {
        seq![c] + s
    } else {
        seq![s[0]] + insert_by_key(s.drop_first(), c)
    }
}

/// The collected results ordered by ascending sort key; entries with equal
/// keys keep their collection order (a stable sort).
pub open spec fn sort_by_key(s: Seq<Candidate>) -> Seq<Candidate>
    decreases s.len(),
{
    if s.len() == 0 {
        Seq::empty()
    } else {
        insert_by_key(sort_by_key(s.drop_first()), s[0])
    }
}

/// Ascending by key.
pub open spec fn sorted_by_key(s: Seq<Candidate>) -> bool {
    forall|i: int, j: int| 0 <= i <= j < s.len() ==> s[i].key <= s[j].key
}

proof fn lemma_insert_by_key_sorted(s: Seq<Candidate>, c: Candidate)
    requires
        sorted_by_key(s),
    ensures
        sorted_by_key(insert_by_key(s, c)),
        insert_by_key(s, c).len() == s.len() + 1,
        insert_by_key(s, c).to_multiset() == s.to_multiset().insert(c),
    decreases s.len(),
{
    broadcast use vstd::seq_lib::group_to_multiset_ensures;

    if s.len() == 0 {
        assert(seq![c] =~= Seq::<Candidate>::empty().push(c));
    } else if c.key <= s[0].key {
        lemma_push_front_multiset(s, c);
        assert forall|i: int, j: int|
            0 <= i <= j < (seq![c] + s).len() implies (seq![c] + s)[i].key <= (seq![c]
            + s)[j].key by {
            if i > 0 {
                assert((seq![c] + s)[i] == s[i - 1]);
            }
            if j > 0 {
                assert((seq![c] + s)[j] == s[j - 1]);
            }
        }
    } else {
        lemma_insert_by_key_sorted(s.drop_first(), c);
        let t = insert_by_key(s.drop_first(), c);
        assert forall|i: int, j: int|
            0 <= i <= j < (seq![s[0]] + t).len() implies (seq![s[0]] + t)[i].key <= (seq![s[0]]
            + t)[j].key by {
            if i > 0 {
                assert((seq![s[0]] + t)[i] == t[i - 1]);
            }
            if j > 0 {
                assert((seq![s[0]] + t)[j] == t[j - 1]);
                if i == 0 {
                    lemma_insert_by_key_member(s.drop_first(), c, j - 1);
                }
            }
        }
        lemma_push_front_multiset(t, s[0]);
        lemma_push_front_multiset(s.drop_first(), s[0]);
        assert(seq![s[0]] + s.drop_first() =~= s);
    }
}

/// Every entry of an insertion result is the inserted candidate or was in
/// the run, and its key is at least the least admissible one.
proof fn lemma_insert_by_key_member(s: Seq<Candidate>, c: Candidate, j: int)
    requires
        sorted_by_key(s),
        0 <= j < insert_by_key(s, c).len(),
    ensures
        insert_by_key(s, c)[j] == c || s.contains(insert_by_key(s, c)[j]),
    decreases s.len(),
{
    if s.len() == 0 {
    } else if c.key <= s[0].key {
        if j > 0 {
            assert((seq![c] + s)[j] == s[j - 1]);
        }
    } else {
        if j > 0 {
            lemma_insert_by_key_member(s.drop_first(), c, j - 1);
            let x = insert_by_key(s.drop_first(), c)[j - 1];
            if s.drop_first().contains(x) {
                let w = choose|w: int| 0 <= w < s.drop_first().len() && s.drop_first()[w] == x;
                assert(s[w + 1] == x);
            }
        }
    }
}

proof fn lemma_push_front_multiset(s: Seq<Candidate>, c: Candidate)
    ensures
        (seq![c] + s).to_multiset() == s.to_multiset().insert(c),
    decreases s.len(),
{
    broadcast use vstd::seq_lib::group_to_multiset_ensures;

    if s.len() == 0 {
        assert(seq![c] + s =~= Seq::<Candidate>::empty().push(c));
    } else {
        lemma_push_front_multiset(s.drop_last(), c);
        assert(seq![c] + s =~= (seq![c] + s.drop_last()).push(s.last()));
        assert((seq![c] + s).to_multiset() == (seq![c] + s.drop_last()).to_multiset().insert(
            s.last(),
        ));
        assert(s =~= s.drop_last().push(s.last()));
        assert(s.to_multiset() == s.drop_last().to_multiset().insert(s.last()));
        assert((seq![c] + s).to_multiset() =~= s.to_multiset().insert(c));
    }
}

/// The ordered results are ascending by key and a rearrangement of the
/// collected results.
pub proof fn lemma_sort_by_key_ensures(s: Seq<Candidate>)
    ensures
        sorted_by_key(sort_by_key(s)),
        sort_by_key(s).len() == s.len(),
        sort_by_key(s).to_multiset() == s.to_multiset(),
    decreases s.len(),
{
    broadcast use vstd::seq_lib::group_to_multiset_ensures;

    if s.len() > 0 {
        lemma_sort_by_key_ensures(s.drop_first());
        lemma_insert_by_key_sorted(sort_by_key(s.drop_first()), s[0]);
        lemma_push_front_multiset(s.drop_first(), s[0]);
        assert(seq![s[0]] + s.drop_first() =~= s);
    }
}

/// Output ordering: in the ordered results, an entry with a smaller key
/// stands strictly before any entry with a greater key.
pub proof fn lemma_output_ordering(s: Seq<Candidate>, i: int, j: int)
    requires
        0 <= i < sort_by_key(s).len(),
        0 <= j < sort_by_key(s).len(),
        sort_by_key(s)[i].key < sort_by_key(s)[j].key,
    ensures
        i < j,
{
    lemma_sort_by_key_ensures(s);
}

/// Orders the collected results by ascending sort key, stably.
pub fn sort_candidates(input: &Vec<Candidate>) -> (r: Vec<Candidate>)
    ensures
        r@ == sort_by_key(input@),
{
    let mut out: Vec<Candidate> = Vec::new();
    let mut i: usize = input.len();
    proof {
        assert(input@.skip(input.len() as int) =~= Seq::<Candidate>::empty());
    }
    while i > 0
        invariant
            i <= input.len(),
            out@ == sort_by_key(input@.skip(i as int)),
        decreases i,
    {
        i -= 1;
        let c = input[i].duplicate();
        let mut pos: usize = 0;
        while pos < out.len() && out[pos].key < c.key
            invariant
                pos <= out.len(),
                c == input@[i as int],
                out@ == sort_by_key(input@.skip(i as int + 1)),
                forall|m: int| 0 <= m < pos ==> (#[trigger] out@[m]).key < c.key,
            decreases out.len() - pos,
        {
            pos += 1;
        }
        let ghost out0 = out@;
        out.insert(pos, c);
        proof {
            lemma_insert_by_key_at(out0, input@[i as int], pos as int);
            assert(out@ =~= out0.take(pos as int) + seq![input@[i as int]] + out0.skip(pos as int));
            assert(input@.skip(i as int).drop_first() =~= input@.skip(i as int + 1));
            assert(out@ == sort_by_key(input@.skip(i as int)));
        }
    }
    proof {
        assert(input@.skip(0) =~= input@);
    }
    out
}

/// Inserting before the first entry whose key is not smaller is what
/// [`insert_by_key`] does.
proof fn lemma_insert_by_key_at(s: Seq<Candidate>, c: Candidate, pos: int)
    requires
        0 <= pos <= s.len(),
        forall|m: int| 0 <= m < pos ==> (#[trigger] s[m]).key < c.key,
        pos < s.len() ==> c.key <= s[pos].key,
    ensures
        insert_by_key(s, c) == s.take(pos) + seq![c] + s.skip(pos),
    decreases s.len(),
{
    if s.len() == 0 {
        assert(insert_by_key(s, c) =~= s.take(pos) + seq![c] + s.skip(pos));
    } else if c.key <= s[0].key {
        assert(pos == 0);
        assert(insert_by_key(s, c) =~= s.take(0) + seq![c] + s.skip(0));
    } else {
        assert(s[0].key < c.key);
        assert forall|m: int| 0 <= m < pos - 1 implies (#[trigger] s.drop_first()[m]).key
            < c.key by {
            assert(s.drop_first()[m] == s[m + 1]);
        }
        if pos - 1 < s.drop_first().len() {
            assert(s.drop_first()[pos - 1] == s[pos]);
        }
        lemma_insert_by_key_at(s.drop_first(), c, pos - 1);
        assert(insert_by_key(s, c) =~= s.take(pos) + seq![c] + s.skip(pos));
    }
}

/// The links of the ordered results, in order.
pub fn candidate_urls(cs: &Vec<Candidate>) -> (r: Vec<String>)
    ensures
        r.deep_view().len() == cs@.len(),
        forall|i: int| 0 <= i < cs@.len() ==> r.deep_view()[i] == (#[trigger] cs@[i]).url@,
{
    let mut r: Vec<String> = Vec::new();
    let mut i: usize = 0;
    while i < cs.len()
        invariant
            i <= cs.len(),
            r.deep_view().len() == i,
            forall|j: int| 0 <= j < i ==> r.deep_view()[j] == (#[trigger] cs@[j]).url@,
        decreases cs.len() - i,
    {
        let ghost r0 = r.deep_view();
        r.push(cs[i].url.clone());
        proof {
            assert(r.deep_view() =~= r0.push(cs@[i as int].url@));
        }
        i += 1;
    }
    r
}

/// Evaluates one proposal: applies the decision rule to its timeline and,
/// when the proposal needs review and has a link, yields the candidate to
/// collect. A proposal without a resolvable link is dropped.
pub fn evaluate_proposal(p: &Proposal, review: Option<Event>, comments: &Vec<Event>) -> (r: Option<
    Candidate,
>)
    ensures
        match r {
            Some(c) => {
                &&& p.html_url is Some && c.url == p.html_url->0
                &&& gate_spec(timeline_of(p.created_at, review, comments@)) == Some(c.key as int)
            },
            None => p.html_url is None || gate_spec(
                timeline_of(p.created_at, review, comments@),
            ) is None,
        },
{
    match proposal_gate(p.created_at, review, comments) {
        None => None,
        Some(k) => match &p.html_url {
            None => None,
            Some(u) => Some(Candidate { key: k, url: u.clone() }),
        },
    }
}

} // verus!
