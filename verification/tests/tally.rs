use vote_tally::engine::tally_votes;
use vote_tally::types::{Choice, ChoiceResult, Election, Vote};

#[test]
fn test_01_no_choices() {
    let election = Election {
        id: 1,
        description: "Empty Election".to_string(),
        choices: vec![],
    };

    let votes = vec![Vote { contest_id: 1, choice_id: 1 }];
    let result = tally_votes(&election, &votes);

    assert_eq!(result.total_votes, 0);
    assert!(result.results.is_empty());
    assert!(result.winner.is_none());
}

#[test]
fn test_02_tied_votes() {
    let election = Election {
        id: 1,
        description: "Tied Election".to_string(),
        choices: vec![
            Choice { id: 1, text: "Option A".to_string() },
            Choice { id: 2, text: "Option B".to_string() },
        ],
    };

    let votes = vec![
        Vote { contest_id: 1, choice_id: 1 },
        Vote { contest_id: 1, choice_id: 2 },
    ];
    let result = tally_votes(&election, &votes);

    assert_eq!(result.total_votes, 2);
    assert_eq!(result.results.len(), 2);
    assert!(result.winner.is_none());
}

#[test]
fn test_03_invalid_votes() {
    let election = Election {
        id: 1,
        description: "Invalid Votes".to_string(),
        choices: vec![Choice { id: 1, text: "Valid Option".to_string() }],
    };

    let votes = vec![Vote { contest_id: 1, choice_id: 99 }];
    let result = tally_votes(&election, &votes);

    assert_eq!(result.total_votes, 0);
    assert_eq!(result.results[0].total_count, 0);
    assert!(result.winner.is_none());
}

#[test]
fn test_04_multiple_contests() {
    let election = Election {
        id: 1,
        description: "Election One".to_string(),
        choices: vec![Choice { id: 1, text: "Option A".to_string() }],
    };

    let votes = vec![Vote { contest_id: 2, choice_id: 1 }];
    let result = tally_votes(&election, &votes);

    assert_eq!(result.total_votes, 0);
    assert!(result.results.iter().all(|r| r.total_count == 0));
    assert!(result.winner.is_none());
}

#[test]
fn test_single_choice_wins() {
    let election = Election {
        id: 1,
        description: "One Choice".to_string(),
        choices: vec![Choice { id: 1, text: "A".to_string() }],
    };

    let votes = vec![Vote { contest_id: 1, choice_id: 1 }];
    let result = tally_votes(&election, &votes);

    assert_eq!(result.total_votes, 1);
    assert_eq!(result.results, vec![ChoiceResult { choice_id: 1, total_count: 1 }]);
    assert_eq!(result.winner, Some(Choice { id: 1, text: "A".to_string() }));
}

#[test]
fn test_stable_order_on_ties() {
    let election = Election {
        id: 1,
        description: "Stable Order".to_string(),
        choices: vec![
            Choice { id: 1, text: "A".to_string() },
            Choice { id: 2, text: "B".to_string() },
        ],
    };

    let votes = vec![
        Vote { contest_id: 1, choice_id: 1 },
        Vote { contest_id: 1, choice_id: 2 },
    ];
    let result = tally_votes(&election, &votes);

    // Equal counts keep the election's original choice order.
    assert_eq!(
        result.results,
        vec![
            ChoiceResult { choice_id: 1, total_count: 1 },
            ChoiceResult { choice_id: 2, total_count: 1 },
        ]
    );
    assert!(result.winner.is_none());
}

#[test]
fn test_results_sorted_descending() {
    let election = Election {
        id: 7,
        description: "Three Choices".to_string(),
        choices: vec![
            Choice { id: 1, text: "A".to_string() },
            Choice { id: 2, text: "B".to_string() },
            Choice { id: 3, text: "C".to_string() },
        ],
    };

    let votes = vec![
        Vote { contest_id: 7, choice_id: 2 },
        Vote { contest_id: 7, choice_id: 3 },
        Vote { contest_id: 7, choice_id: 2 },
        Vote { contest_id: 7, choice_id: 1 },
        Vote { contest_id: 7, choice_id: 3 },
        Vote { contest_id: 7, choice_id: 2 },
    ];
    let result = tally_votes(&election, &votes);

    assert_eq!(result.total_votes, 6);
    assert_eq!(
        result.results,
        vec![
            ChoiceResult { choice_id: 2, total_count: 3 },
            ChoiceResult { choice_id: 3, total_count: 2 },
            ChoiceResult { choice_id: 1, total_count: 1 },
        ]
    );
    assert_eq!(result.winner, Some(Choice { id: 2, text: "B".to_string() }));
}

#[test]
fn test_no_votes_no_winner() {
    let election = Election {
        id: 1,
        description: "No Votes".to_string(),
        choices: vec![
            Choice { id: 1, text: "A".to_string() },
            Choice { id: 2, text: "B".to_string() },
        ],
    };

    let votes: Vec<Vote> = vec![];
    let result = tally_votes(&election, &votes);

    assert_eq!(result.total_votes, 0);
    assert_eq!(
        result.results,
        vec![
            ChoiceResult { choice_id: 1, total_count: 0 },
            ChoiceResult { choice_id: 2, total_count: 0 },
        ]
    );
    // Two choices both at zero tie at the top: no winner.
    assert!(result.winner.is_none());
}

#[test]
fn test_duplicate_choice_ids() {
    let election = Election {
        id: 1,
        description: "Duplicates".to_string(),
        choices: vec![
            Choice { id: 1, text: "A".to_string() },
            Choice { id: 2, text: "B".to_string() },
            Choice { id: 2, text: "C".to_string() },
        ],
    };

    let votes = vec![
        Vote { contest_id: 1, choice_id: 1 },
        Vote { contest_id: 1, choice_id: 1 },
        Vote { contest_id: 1, choice_id: 2 },
    ];
    let result = tally_votes(&election, &votes);

    // The duplicate identifier is not double-counted, but each duplicate
    // choice still gets its own entry with the shared count.
    assert_eq!(result.total_votes, 3);
    assert_eq!(
        result.results,
        vec![
            ChoiceResult { choice_id: 1, total_count: 2 },
            ChoiceResult { choice_id: 2, total_count: 1 },
            ChoiceResult { choice_id: 2, total_count: 1 },
        ]
    );
    assert_eq!(result.winner, Some(Choice { id: 1, text: "A".to_string() }));
}

#[test]
fn test_duplicate_top_counts_tie() {
    let election = Election {
        id: 1,
        description: "Duplicate Leader".to_string(),
        choices: vec![
            Choice { id: 1, text: "A".to_string() },
            Choice { id: 1, text: "B".to_string() },
        ],
    };

    let votes = vec![Vote { contest_id: 1, choice_id: 1 }];
    let result = tally_votes(&election, &votes);

    // Both entries of the duplicated identifier report the shared count, so
    // the top two entries tie and there is no winner.
    assert_eq!(result.total_votes, 1);
    assert_eq!(
        result.results,
        vec![
            ChoiceResult { choice_id: 1, total_count: 1 },
            ChoiceResult { choice_id: 1, total_count: 1 },
        ]
    );
    assert!(result.winner.is_none());
}

#[test]
fn test_tally_is_deterministic() {
    let election = Election {
        id: 3,
        description: "Repeatable".to_string(),
        choices: vec![
            Choice { id: 1, text: "A".to_string() },
            Choice { id: 2, text: "B".to_string() },
        ],
    };

    let votes = vec![
        Vote { contest_id: 3, choice_id: 2 },
        Vote { contest_id: 3, choice_id: 2 },
        Vote { contest_id: 3, choice_id: 1 },
    ];

    let first = tally_votes(&election, &votes);
    let second = tally_votes(&election, &votes);

    assert_eq!(first, second);
}
