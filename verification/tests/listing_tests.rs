use fasts3::errors::StoreError;
use fasts3::listing::{ListPage, ListStep, ListingCursor};

fn keys(names: &[&str]) -> Vec<Vec<u8>> {
    names.iter().map(|n| n.as_bytes().to_vec()).collect()
}

#[test]
fn three_pages_concatenate_in_page_order() {
    let pages = vec![
        ListPage {
            keys: keys(&["a/1", "a/2"]),
            prefixes: vec![],
            is_truncated: true,
            next_token: Some(b"t1".to_vec()),
        },
        ListPage {
            keys: keys(&["a/3"]),
            prefixes: vec![],
            is_truncated: true,
            next_token: Some(b"t2".to_vec()),
        },
        ListPage {
            keys: keys(&["a/4", "a/5"]),
            prefixes: vec![],
            is_truncated: false,
            next_token: None,
        },
    ];
    let mut cursor = ListingCursor::start();
    let mut expected_tokens = vec![b"t1".to_vec(), b"t2".to_vec()].into_iter();
    for page in pages {
        match cursor.absorb_page(page).unwrap() {
            ListStep::Continue(t) => assert_eq!(t, expected_tokens.next().unwrap()),
            ListStep::Done => assert!(expected_tokens.next().is_none()),
        }
    }
    assert_eq!(cursor.finish(), keys(&["a/1", "a/2", "a/3", "a/4", "a/5"]));
}

#[test]
fn truncated_page_without_token_is_a_protocol_violation() {
    let mut cursor = ListingCursor::start();
    let page = ListPage {
        keys: keys(&["x"]),
        prefixes: vec![],
        is_truncated: true,
        next_token: None,
    };
    assert_eq!(cursor.absorb_page(page).unwrap_err(), StoreError::StoreUnavailable);
    assert!(cursor.entries.is_empty());
}

#[test]
fn page_prefixes_follow_its_keys() {
    let mut cursor = ListingCursor::start();
    let page = ListPage {
        keys: keys(&["a/x.txt"]),
        prefixes: keys(&["a/sub/"]),
        is_truncated: false,
        next_token: None,
    };
    assert!(matches!(cursor.absorb_page(page).unwrap(), ListStep::Done));
    assert_eq!(cursor.finish(), keys(&["a/x.txt", "a/sub/"]));
}
