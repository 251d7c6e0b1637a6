//! The review-gate decision rule: given a proposal's timeline, decide
//! whether it is awaiting an editor, and with what sort key. The rule only
//! reads the greatest editor time and the least times around it, so it does
//! not care in what order the timeline lists its events.

use crate::{Actor, Event};
use vstd::prelude::*;

verus! {

/// Whether any event of the timeline is an editor touch.
pub open spec fn has_editor(es: Seq<Event>) -> bool {
    exists|i: int| 0 <= i < es.len() && es[i].actor is Editor
}

/// The greatest editor timestamp; meaningful only when one exists.
pub open spec fn max_editor_time(es: Seq<Event>) -> int
    decreases es.len(),
{
    if es.len() == 0 {
        0
    } else {
        let rest = max_editor_time(es.drop_last());
        if es.last().actor is Editor {
            if has_editor(es.drop_last()) && rest > es.last().when as int {
                rest
            } else {
                es.last().when as int
            }
        } else {
            rest
        }
    }
}

/// The least timestamp of any event; meaningful only when nonempty.
pub open spec fn min_event_time(es: Seq<Event>) -> int
    decreases es.len(),
{
    if es.len() <= 1 {
        if es.len() == 1 {
            es[0].when as int
        } else {
            0
        }
    } else {
        let rest = min_event_time(es.drop_last());
        if rest < es.last().when as int {
            rest
        } else {
            es.last().when as int
        }
    }
}

/// The least author timestamp strictly after `t`, if any author acted then.
pub open spec fn min_author_after(es: Seq<Event>, t: int) -> Option<int>
    decreases es.len(),
{
    if es.len() == 0 {
        None
    } else {
        let rest = min_author_after(es.drop_last(), t);
        let lst = es.last();
        if lst.actor is Author && lst.when as int > t {
            match rest {
                Some(m) => if m < lst.when as int {
                    Some(m)
                } else {
                    Some(lst.when as int)
                },
                None => Some(lst.when as int),
            }
        } else {
            rest
        }
    }
}

/// The decision rule. A timeline with no editor touch needs review since
/// its earliest event (the creation). Otherwise, the proposal needs review
/// exactly when an author acted strictly after the last editor touch, since
/// the earliest such action; if nothing author-side followed the editor,
/// the proposal is excluded.
pub open spec fn gate_spec(es: Seq<Event>) -> Option<int> {
    if !has_editor(es) {
        Some(min_event_time(es))
    } else {
        min_author_after(es, max_editor_time(es))
    }
}

/// The timeline of one proposal: its creation, the qualifying editor-review
/// event when there is one, and the recognized comment events.
pub open spec fn timeline_of(created_at: i64, review: Option<Event>, comments: Seq<Event>) -> Seq<
    Event,
> {
    seq![Event { actor: Actor::Author, when: created_at }] + (match review {
        Some(e) => seq![e],
        None => Seq::<Event>::empty(),
    }) + comments
}

/// Applies the decision rule to a built timeline.
pub fn review_gate(events: &Vec<Event>) -> (r: Option<i64>)
    requires
        events@.len() >= 1,
    ensures
        match r {
            Some(k) => gate_spec(events@) == Some(k as int),
            None => gate_spec(events@) is None,
        },
{
    let n = events.len();
    let mut le: Option<i64> = None;
    let mut i: usize = 0;
    proof {
        assert(events@.take(0) =~= Seq::<Event>::empty());
    }
    while i < n
        invariant
            n == events@.len(),
            i <= n,
            match le {
                None => !has_editor(events@.take(i as int)),
                Some(t) => has_editor(events@.take(i as int)) && t as int == max_editor_time(
                    events@.take(i as int),
                ),
            },
        decreases n - i,
    {
        let ghost prefix = events@.take(i as int + 1);
        proof {
            assert(prefix.drop_last() =~= events@.take(i as int));
            assert(prefix.last() == events@[i as int]);
        }
        let ev = &events[i];
        let is_ed = match ev.actor {
            Actor::Editor => true,
            Actor::Author => false,
        };
        if is_ed {
            match le {
                None => {
                    le = Some(ev.when);
                },
                Some(b) => {
                    if ev.when > b {
                        le = Some(ev.when);
                    }
                },
            }
            proof {
                assert(has_editor(prefix));
            }
        } else {
            proof {
                if has_editor(prefix) {
                    let w = choose|w: int|
                        0 <= w < prefix.len() && prefix[w].actor is Editor;
                    assert(w < i as int);
                    assert(events@.take(i as int)[w].actor is Editor);
                }
            }
        }
        i += 1;
    }
    proof {
        assert(events@.take(n as int) =~= events@);
    }
    match le {
        None => {
            let mut mn = events[0].when;
            let mut i: usize = 1;
            proof {
                assert(events@.take(1) =~= seq![events@[0]]);
            }
            while i < n
                invariant
                    n == events@.len(),
                    1 <= i <= n,
                    mn as int == min_event_time(events@.take(i as int)),
                decreases n - i,
            {
                let ghost prefix = events@.take(i as int + 1);
                proof {
                    assert(prefix.drop_last() =~= events@.take(i as int));
                    assert(prefix.last() == events@[i as int]);
                }
                if events[i].when < mn {
                    mn = events[i].when;
                }
                i += 1;
            }
            proof {
                assert(events@.take(n as int) =~= events@);
            }
            Some(mn)
        },
        Some(t) => {
            let mut na: Option<i64> = None;
            let mut i: usize = 0;
            proof {
                assert(events@.take(0) =~= Seq::<Event>::empty());
            }
            while i < n
                invariant
                    n == events@.len(),
                    i <= n,
                    match na {
                        None => min_author_after(events@.take(i as int), t as int) is None,
                        Some(m) => min_author_after(events@.take(i as int), t as int) == Some(
                            m as int,
                        ),
                    },
                decreases n - i,
            {
                let ghost prefix = events@.take(i as int + 1);
                proof {
                    assert(prefix.drop_last() =~= events@.take(i as int));
                    assert(prefix.last() == events@[i as int]);
                }
                let ev = &events[i];
                let is_au = match ev.actor {
                    Actor::Author => true,
                    Actor::Editor => false,
                };
                if is_au && ev.when > t {
                    match na {
                        None => {
                            na = Some(ev.when);
                        },
                        Some(m) => {
                            if ev.when < m {
                                na = Some(ev.when);
                            }
                        },
                    }
                }
                i += 1;
            }
            proof {
                assert(events@.take(n as int) =~= events@);
            }
            na
        },
    }
}

/// Builds one proposal's timeline from its pieces and applies the decision
/// rule to it.
pub fn proposal_gate(created_at: i64, review: Option<Event>, comments: &Vec<Event>) -> (r: Option<
    i64,
>)
    ensures
        match r {
            Some(k) => gate_spec(timeline_of(created_at, review, comments@)) == Some(k as int),
            None => gate_spec(timeline_of(created_at, review, comments@)) is None,
        },
{
    let mut events: Vec<Event> = Vec::new();
    events.push(Event { actor: Actor::Author, when: created_at });
    match review {
        Some(e) => events.push(e),
        None => {},
    }
    let ghost base = events@;
    let mut i: usize = 0;
    proof {
        assert(events@ =~= base + comments@.take(0));
    }
    while i < comments.len()
        invariant
            i <= comments.len(),
            events@ == base + comments@.take(i as int),
        decreases comments.len() - i,
    {
        events.push(comments[i]);
        proof {
            assert(events@ =~= base + comments@.take(i as int + 1));
        }
        i += 1;
    }
    proof {
        assert(comments@.take(comments.len() as int) =~= comments@);
        assert(events@ =~= timeline_of(created_at, review, comments@));
    }
    review_gate(&events)
}

/// A proposal with only its creation event has never seen an editor touch:
/// it needs review, with its creation time as sort key.
pub proof fn lemma_creation_only_included(t0: i64)
    ensures
        gate_spec(timeline_of(t0, None, Seq::<Event>::empty())) == Some(t0 as int),
{
    let es = timeline_of(t0, None, Seq::<Event>::empty());
    assert(es =~= seq![Event { actor: Actor::Author, when: t0 }]);
    assert(!has_editor(es));
}

/// Creation at `t0`, then an editor touch at `t1` after it, and nothing
/// else: the editor has seen the latest state, so the proposal is excluded.
pub proof fn lemma_editor_touch_excludes(t0: i64, t1: i64)
    requires
        t0 < t1,
    ensures
        gate_spec(timeline_of(t0, Some(Event { actor: Actor::Editor, when: t1 }), Seq::<
            Event,
        >::empty())) is None,
{
    let a = Event { actor: Actor::Author, when: t0 };
    let e = Event { actor: Actor::Editor, when: t1 };
    let es = timeline_of(t0, Some(e), Seq::<Event>::empty());
    assert(es =~= seq![a, e]);
    assert(es[1].actor is Editor);
    assert(has_editor(es));
    assert(es.drop_last() =~= seq![a]);
    assert(!has_editor(seq![a]));
    assert(max_editor_time(es) == t1 as int);
    assert(seq![a].drop_last() =~= Seq::<Event>::empty());
    assert(min_author_after(Seq::<Event>::empty(), t1 as int) is None);
    assert(min_author_after(seq![a], t1 as int) is None);
    assert(min_author_after(es, t1 as int) is None);
}

/// Creation at `t0`, an editor touch at `t1`, then a recognized author's
/// comment at `t2` after the touch: the proposal needs review again, with
/// the author's comment time as sort key.
pub proof fn lemma_author_reply_included(t0: i64, t1: i64, t2: i64)
    requires
        t0 < t1 < t2,
    ensures
        gate_spec(timeline_of(t0, Some(Event { actor: Actor::Editor, when: t1 }), seq![
            Event { actor: Actor::Author, when: t2 },
        ])) == Some(t2 as int),
{
    let a = Event { actor: Actor::Author, when: t0 };
    let e = Event { actor: Actor::Editor, when: t1 };
    let c = Event { actor: Actor::Author, when: t2 };
    let es = timeline_of(t0, Some(e), seq![c]);
    assert(es =~= seq![a, e, c]);
    assert(es[1].actor is Editor);
    assert(has_editor(es));
    assert(es.drop_last() =~= seq![a, e]);
    assert(seq![a, e].drop_last() =~= seq![a]);
    assert(!has_editor(seq![a]));
    assert(seq![a, e][1].actor is Editor);
    assert(has_editor(seq![a, e]));
    assert(max_editor_time(seq![a, e]) == t1 as int);
    assert(max_editor_time(es) == t1 as int);
    assert(seq![a].drop_last() =~= Seq::<Event>::empty());
    assert(min_author_after(Seq::<Event>::empty(), t1 as int) is None);
    assert(min_author_after(seq![a], t1 as int) is None);
    assert(min_author_after(seq![a, e], t1 as int) is None);
    assert(min_author_after(es, t1 as int) == Some(t2 as int));
}

/// Creation at `t0`, an author comment at `t2`, then an editor touch at
/// `t1` after it: the author spoke before the editor's last touch, so the
/// proposal is excluded.
pub proof fn lemma_author_before_touch_excluded(t0: i64, t1: i64, t2: i64)
    requires
        t0 < t2 < t1,
    ensures
        gate_spec(timeline_of(t0, Some(Event { actor: Actor::Editor, when: t1 }), seq![
            Event { actor: Actor::Author, when: t2 },
        ])) is None,
{
    let a = Event { actor: Actor::Author, when: t0 };
    let e = Event { actor: Actor::Editor, when: t1 };
    let c = Event { actor: Actor::Author, when: t2 };
    let es = timeline_of(t0, Some(e), seq![c]);
    assert(es =~= seq![a, e, c]);
    assert(es[1].actor is Editor);
    assert(has_editor(es));
    assert(es.drop_last() =~= seq![a, e]);
    assert(seq![a, e].drop_last() =~= seq![a]);
    assert(!has_editor(seq![a]));
    assert(seq![a, e][1].actor is Editor);
    assert(has_editor(seq![a, e]));
    assert(max_editor_time(seq![a, e]) == t1 as int);
    assert(max_editor_time(es) == t1 as int);
    assert(seq![a].drop_last() =~= Seq::<Event>::empty());
    assert(min_author_after(Seq::<Event>::empty(), t1 as int) is None);
    assert(min_author_after(seq![a], t1 as int) is None);
    assert(min_author_after(seq![a, e], t1 as int) is None);
    assert(min_author_after(es, t1 as int) is None);
}

} // verus!
