use attrnav::list::StatefulList;

#[test]
fn with_items_puts_cursor_on_first() {
    let list = StatefulList::with_items(vec![10i32, 20, 30]);
    assert_eq!(list.cursor, Some(0));
    assert_eq!(list.items, vec![10, 20, 30]);
}

#[test]
fn with_items_empty_has_no_cursor() {
    let list: StatefulList<i32> = StatefulList::with_items(Vec::new());
    assert_eq!(list.cursor, None);
    assert!(list.items.is_empty());
}

#[test]
fn next_full_cycle_returns_to_start() {
    let mut list = StatefulList::with_items(vec![1i32, 2, 3, 4]);
    list.next();
    assert_eq!(list.cursor, Some(1));
    let start = list.cursor;
    for _ in 0..4 {
        list.next();
    }
    assert_eq!(list.cursor, start);
}

#[test]
fn previous_full_cycle_returns_to_start() {
    let mut list = StatefulList::with_items(vec![1i32, 2, 3, 4]);
    list.previous();
    assert_eq!(list.cursor, Some(3));
    let start = list.cursor;
    for _ in 0..4 {
        list.previous();
    }
    assert_eq!(list.cursor, start);
}

#[test]
fn next_then_previous_is_identity() {
    let mut list = StatefulList::with_items(vec![1i32, 2, 3]);
    list.next();
    list.previous();
    assert_eq!(list.cursor, Some(0));
    list.previous();
    list.next();
    assert_eq!(list.cursor, Some(0));
}

#[test]
fn next_wraps_past_the_end() {
    let mut list = StatefulList::with_items(vec![1i32, 2]);
    list.next();
    assert_eq!(list.cursor, Some(1));
    list.next();
    assert_eq!(list.cursor, Some(0));
}

#[test]
fn previous_wraps_before_the_front() {
    let mut list = StatefulList::with_items(vec![1i32, 2]);
    list.previous();
    assert_eq!(list.cursor, Some(1));
}

#[test]
fn single_item_list_stays_on_it() {
    let mut list = StatefulList::with_items(vec![7i32]);
    list.next();
    assert_eq!(list.cursor, Some(0));
    list.previous();
    assert_eq!(list.cursor, Some(0));
}

#[test]
fn empty_list_moves_are_no_ops() {
    let mut list: StatefulList<i32> = StatefulList::with_items(Vec::new());
    list.next();
    assert_eq!(list.cursor, None);
    list.previous();
    assert_eq!(list.cursor, None);
    assert!(list.items.is_empty());
}
