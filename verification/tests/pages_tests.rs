use hn_cli::errors::HnError;
use hn_cli::pages::aggregate_pages;
use hn_cli::story::Story;

fn story(rank: usize, id: &str) -> Story {
    Story {
        rank,
        id: id.to_string(),
        title: format!("story {id}"),
        url: None,
        points: None,
        author: None,
        comments: None,
        age: None,
    }
}

#[test]
fn failure_of_one_page_fails_the_whole_fetch() {
    let mut results = vec![
        Ok(vec![story(1, "a")]),
        Err(HnError::Transport("failed to send request".to_string())),
        Ok(vec![story(61, "c")]),
    ];
    let err = aggregate_pages(&mut results).unwrap_err();
    // the first failure surfaces; results of other pages never do
    assert_eq!(err, HnError::Transport("failed to send request".to_string()));
}

#[test]
fn success_preserves_requested_order() {
    let mut results = vec![
        Ok(vec![story(1, "a"), story(2, "b")]),
        Ok(vec![story(31, "c")]),
        Ok(vec![story(61, "d")]),
    ];
    let groups = aggregate_pages(&mut results).expect("all pages succeeded");
    assert_eq!(groups.len(), 3);
    assert_eq!(groups[0][0].id, "a");
    assert_eq!(groups[0][1].id, "b");
    assert_eq!(groups[1][0].id, "c");
    assert_eq!(groups[2][0].id, "d");
}

#[test]
fn earliest_failure_wins() {
    let mut results = vec![
        Err(HnError::EmptyPage(1)),
        Err(HnError::Transport("t".to_string())),
    ];
    assert_eq!(aggregate_pages(&mut results).unwrap_err(), HnError::EmptyPage(1));
}

#[test]
fn no_pages_aggregate_to_no_groups() {
    let mut results: Vec<Result<Vec<Story>, HnError>> = vec![];
    let groups = aggregate_pages(&mut results).expect("vacuously successful");
    assert!(groups.is_empty());
}
