//! End-to-end checks of the review-gate engine on concrete values.

use review_gate::documents::{
    filter_spec_paths, is_spec_document_path, resolve_authors, Document, ResolveError,
};
use review_gate::driver::{
    candidate_urls, evaluate_proposal, filter_non_draft, sort_candidates, Candidate, Proposal,
};
use review_gate::editors::parse_editor_list;
use review_gate::gate::proposal_gate;
use review_gate::identity::IdentitySet;
use review_gate::timeline::{
    comment_events, last_editor_review, CommentRecord, GateError, ReviewKind, ReviewRecord,
};
use review_gate::{Actor, Event};

fn editors_of(content: &str) -> IdentitySet {
    parse_editor_list(content)
}

fn review(login: &str, state: ReviewKind, at: Option<i64>) -> ReviewRecord {
    ReviewRecord {
        reviewer: Some(login.to_string()),
        state,
        submitted_at: at,
    }
}

#[test]
fn editor_match_is_case_insensitive() {
    let editors = editors_of("editors:\n  - Alice\n");
    let reviews = vec![review("ALICE", ReviewKind::ChangesRequested, Some(10))];
    let got = last_editor_review(&reviews, false, &editors).unwrap();
    assert_eq!(
        got,
        Some(Event {
            actor: Actor::Editor,
            when: 10
        })
    );
}

#[test]
fn creation_only_is_included_at_creation_time() {
    let comments: Vec<Event> = Vec::new();
    assert_eq!(proposal_gate(5, None, &comments), Some(5));
}

#[test]
fn approved_review_is_not_an_editor_touch() {
    let editors = editors_of("  - alice\n");
    let reviews = vec![review("alice", ReviewKind::Approved, Some(10))];
    let ev = last_editor_review(&reviews, false, &editors).unwrap();
    assert_eq!(ev, None);
    let comments: Vec<Event> = Vec::new();
    assert_eq!(proposal_gate(5, ev, &comments), Some(5));
}

#[test]
fn editor_touch_with_no_reply_is_excluded() {
    let comments: Vec<Event> = Vec::new();
    let touch = Some(Event {
        actor: Actor::Editor,
        when: 10,
    });
    assert_eq!(proposal_gate(0, touch, &comments), None);
}

#[test]
fn author_reply_after_touch_is_included_at_reply_time() {
    let comments = vec![Event {
        actor: Actor::Author,
        when: 20,
    }];
    let touch = Some(Event {
        actor: Actor::Editor,
        when: 10,
    });
    assert_eq!(proposal_gate(0, touch, &comments), Some(20));
}

#[test]
fn author_comment_before_touch_is_excluded() {
    let comments = vec![Event {
        actor: Actor::Author,
        when: 5,
    }];
    let touch = Some(Event {
        actor: Actor::Editor,
        when: 10,
    });
    assert_eq!(proposal_gate(0, touch, &comments), None);
}

#[test]
fn several_editor_touches_use_the_latest() {
    let editors = editors_of("  - alice\n  - bob\n");
    let reviews = vec![
        review("alice", ReviewKind::ChangesRequested, Some(10)),
        review("bob", ReviewKind::Commented, Some(30)),
        review("alice", ReviewKind::Commented, Some(20)),
    ];
    let ev = last_editor_review(&reviews, false, &editors).unwrap();
    assert_eq!(
        ev,
        Some(Event {
            actor: Actor::Editor,
            when: 30
        })
    );
    let comments = vec![Event {
        actor: Actor::Author,
        when: 25,
    }];
    assert_eq!(proposal_gate(0, ev, &comments), None);
    let comments = vec![
        Event {
            actor: Actor::Author,
            when: 25,
        },
        Event {
            actor: Actor::Author,
            when: 40,
        },
        Event {
            actor: Actor::Author,
            when: 35,
        },
    ];
    assert_eq!(proposal_gate(0, ev, &comments), Some(35));
}

#[test]
fn truncated_review_listing_is_fatal() {
    let editors = editors_of("  - alice\n");
    let reviews: Vec<ReviewRecord> = Vec::new();
    assert_eq!(
        last_editor_review(&reviews, true, &editors),
        Err(GateError::ReviewPagesTruncated)
    );
}

#[test]
fn qualifying_review_without_time_is_fatal() {
    let editors = editors_of("  - alice\n");
    let reviews = vec![review("alice", ReviewKind::ChangesRequested, None)];
    assert_eq!(
        last_editor_review(&reviews, false, &editors),
        Err(GateError::MissingSubmissionTime)
    );
}

#[test]
fn unrecognized_reviewer_or_state_is_ignored() {
    let editors = editors_of("  - alice\n");
    let reviews = vec![
        review("mallory", ReviewKind::ChangesRequested, Some(10)),
        review("alice", ReviewKind::Dismissed, Some(20)),
        review("alice", ReviewKind::Pending, None),
        ReviewRecord {
            reviewer: None,
            state: ReviewKind::Commented,
            submitted_at: Some(30),
        },
    ];
    assert_eq!(last_editor_review(&reviews, false, &editors), Ok(None));
}

#[test]
fn comments_are_classified_by_set_membership() {
    let editors = editors_of("  - elaine\n");
    let mut authors = IdentitySet::new();
    authors.insert("arthur".to_string());
    let comments = vec![
        CommentRecord {
            author: "Elaine".to_string(),
            created_at: 10,
        },
        CommentRecord {
            author: "ARTHUR".to_string(),
            created_at: 20,
        },
        CommentRecord {
            author: "stranger".to_string(),
            created_at: 30,
        },
    ];
    let events = comment_events(&comments, &editors, &authors);
    assert_eq!(
        events,
        vec![
            Event {
                actor: Actor::Editor,
                when: 10
            },
            Event {
                actor: Actor::Author,
                when: 20
            },
        ]
    );
}

#[test]
fn editor_in_both_sets_counts_as_editor() {
    let editors = editors_of("  - pat\n");
    let mut authors = IdentitySet::new();
    authors.insert("pat".to_string());
    let comments = vec![CommentRecord {
        author: "pat".to_string(),
        created_at: 7,
    }];
    let events = comment_events(&comments, &editors, &authors);
    assert_eq!(
        events,
        vec![Event {
            actor: Actor::Editor,
            when: 7
        }]
    );
}

#[test]
fn drafts_never_enter_the_candidate_list() {
    let prs = vec![
        Proposal {
            number: 1,
            created_at: 10,
            is_draft: true,
            html_url: Some("u1".to_string()),
        },
        Proposal {
            number: 2,
            created_at: 20,
            is_draft: false,
            html_url: Some("u2".to_string()),
        },
        Proposal {
            number: 3,
            created_at: 30,
            is_draft: true,
            html_url: Some("u3".to_string()),
        },
        Proposal {
            number: 4,
            created_at: 40,
            is_draft: false,
            html_url: None,
        },
    ];
    let kept = filter_non_draft(&prs);
    let numbers: Vec<u64> = kept.iter().map(|p| p.number).collect();
    assert_eq!(numbers, vec![2, 4]);
    assert!(kept.iter().all(|p| !p.is_draft));
}

#[test]
fn output_is_ordered_by_sort_key() {
    let input = vec![
        Candidate {
            key: 30,
            url: "c".to_string(),
        },
        Candidate {
            key: 10,
            url: "a".to_string(),
        },
        Candidate {
            key: 20,
            url: "b".to_string(),
        },
    ];
    let urls = candidate_urls(&sort_candidates(&input));
    assert_eq!(urls, vec!["a".to_string(), "b".to_string(), "c".to_string()]);
}

#[test]
fn equal_sort_keys_keep_collection_order() {
    let input = vec![
        Candidate {
            key: 10,
            url: "first".to_string(),
        },
        Candidate {
            key: 10,
            url: "second".to_string(),
        },
        Candidate {
            key: 5,
            url: "earliest".to_string(),
        },
    ];
    let urls = candidate_urls(&sort_candidates(&input));
    assert_eq!(
        urls,
        vec![
            "earliest".to_string(),
            "first".to_string(),
            "second".to_string()
        ]
    );
}

#[test]
fn evaluate_proposal_pairs_key_and_link() {
    let p = Proposal {
        number: 9,
        created_at: 3,
        is_draft: false,
        html_url: Some("https://example.invalid/9".to_string()),
    };
    let comments: Vec<Event> = Vec::new();
    let c = evaluate_proposal(&p, None, &comments).unwrap();
    assert_eq!(c.key, 3);
    assert_eq!(c.url, "https://example.invalid/9".to_string());
}

#[test]
fn proposal_without_link_is_dropped() {
    let p = Proposal {
        number: 9,
        created_at: 3,
        is_draft: false,
        html_url: None,
    };
    let comments: Vec<Event> = Vec::new();
    assert!(evaluate_proposal(&p, None, &comments).is_none());
}

#[test]
fn excluded_proposal_yields_no_candidate() {
    let p = Proposal {
        number: 9,
        created_at: 3,
        is_draft: false,
        html_url: Some("u".to_string()),
    };
    let comments: Vec<Event> = Vec::new();
    let touch = Some(Event {
        actor: Actor::Editor,
        when: 8,
    });
    assert!(evaluate_proposal(&p, touch, &comments).is_none());
}

#[test]
fn spec_paths_are_filtered_by_convention() {
    assert!(is_spec_document_path("EIPS/eip-1.md"));
    assert!(is_spec_document_path("ERCS/erc-20.md"));
    assert!(is_spec_document_path("EIPS/erc-7.md"));
    assert!(!is_spec_document_path("docs/EIPS/eip-123.md"));
    assert!(!is_spec_document_path("EIPS/eip-1.mdx"));
    assert!(!is_spec_document_path("EIPS/eip-.md"));
    assert!(!is_spec_document_path("eip-1.md"));
    assert!(!is_spec_document_path("EIPS/eip-12"));
    assert!(!is_spec_document_path("README.md"));
    assert!(!is_spec_document_path("eips/eip-1.md"));
    assert!(!is_spec_document_path("EIPS/eip-1.md.bak"));
    let paths = vec![
        "EIPS/eip-1.md".to_string(),
        "assets/logo.svg".to_string(),
        "ERCS/erc-42.md".to_string(),
    ];
    assert_eq!(
        filter_spec_paths(&paths),
        vec!["EIPS/eip-1.md".to_string(), "ERCS/erc-42.md".to_string()]
    );
}

#[test]
fn editor_list_takes_only_two_space_items() {
    let editors = parse_editor_list("top:\n  - Alice\n  -Bob\n   - Carol\nother\n  - Dave\n");
    assert!(editors.contains(&"alice".to_string()));
    assert!(editors.contains(&"dave".to_string()));
    assert!(!editors.contains(&"bob".to_string()));
    assert!(!editors.contains(&"carol".to_string()));
    assert!(!editors.contains(&"Alice".to_string()));
    let empty = parse_editor_list("");
    assert!(!empty.contains(&"alice".to_string()));
}

#[test]
fn editor_list_lines_split_on_line_feed_only() {
    // A carriage return is part of the captured name, not a line break.
    let editors = parse_editor_list("  - Bob\r\n  - ann\n");
    assert!(editors.contains(&"bob\r".to_string()));
    assert!(!editors.contains(&"bob".to_string()));
    assert!(editors.contains(&"ann".to_string()));
}

#[test]
fn malformed_front_matter_skips_only_that_file() {
    let docs = vec![
        Document {
            path: "EIPS/eip-1.md".to_string(),
            content: "no front matter here".to_string(),
        },
        Document {
            path: "EIPS/eip-2.md".to_string(),
            content: "---\nauthor: Alice Dev (@Alice)\n---\nbody\n".to_string(),
        },
    ];
    let (authors, errors) = resolve_authors(&docs).unwrap();
    assert!(authors.contains(&"alice".to_string()));
    assert_eq!(errors.len(), 1);
}

#[test]
fn author_field_entries_are_split_and_trimmed() {
    let docs = vec![Document {
        path: "EIPS/eip-3.md".to_string(),
        content: "---\nauthor:  Alice Dev (@ALICE) , Bob (@bob) <bob@example.com>, Plain Name\n---\nbody\n"
            .to_string(),
    }];
    let (authors, errors) = resolve_authors(&docs).unwrap();
    assert!(errors.is_empty());
    assert!(authors.contains(&"alice".to_string()));
    assert!(authors.contains(&"bob".to_string()));
    assert!(!authors.contains(&"plain name".to_string()));
}

#[test]
fn document_without_author_field_is_fatal() {
    let docs = vec![Document {
        path: "EIPS/eip-4.md".to_string(),
        content: "---\ntitle: Nothing\n---\nbody\n".to_string(),
    }];
    assert!(matches!(
        resolve_authors(&docs),
        Err(ResolveError::MissingAuthorField)
    ));
}
