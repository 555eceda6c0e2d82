use kiki::git_changes::{bookmark_changes, detect_head};
use kiki::op_blobs::Bookmark;

fn marks(list: &[(&str, u8)]) -> Vec<Bookmark> {
    list.iter().map(|(name, id)| ((*name).to_owned(), vec![*id; 20])).collect()
}

#[test]
fn added_moved_and_deleted_bookmarks() {
    let exported = marks(&[("same", 1), ("moved", 2), ("gone", 3)]);
    let current = marks(&[("new", 4), ("same", 1), ("moved", 5)]);
    let changes = bookmark_changes(&exported, &current);
    assert_eq!(
        changes,
        vec![
            ("new".to_owned(), vec![4; 20]),
            ("moved".to_owned(), vec![5; 20]),
            ("gone".to_owned(), Vec::new()),
        ]
    );
    assert!(bookmark_changes(&current, &current).is_empty());
}

#[test]
fn the_last_mention_counts() {
    let exported = marks(&[("a", 1), ("a", 2)]);
    assert!(bookmark_changes(&exported, &marks(&[("a", 2)])).is_empty());
    let changes = bookmark_changes(&exported, &marks(&[("a", 2), ("a", 1)]));
    assert_eq!(changes, marks(&[("a", 1)]));
}

#[test]
fn heads_are_compared_with_the_export() {
    assert_eq!(detect_head(&[], Some(vec![1])), Vec::<u8>::new());
    assert_eq!(detect_head(&[1], Some(vec![1])), Vec::<u8>::new());
    assert_eq!(detect_head(&[1], Some(vec![2])), vec![2]);
    assert_eq!(detect_head(&[1], None), Vec::<u8>::new());
}
