use linked_lists::fourth::List;
use std::rc::Rc;

#[test]
fn fourth_basics() {
    let mut list = List::new();

    // Check empty list behaves right
    assert_eq!(list.pop_front(), None);

    // Populate list
    list.push_front(1);
    list.push_front(2);
    list.push_front(3);

    // Check normal removal
    assert_eq!(list.pop_front(), Some(3));
    assert_eq!(list.pop_front(), Some(2));

    // Push some more just to make sure nothing's corrupted
    list.push_front(4);
    list.push_front(5);

    // Check normal removal
    assert_eq!(list.pop_front(), Some(5));
    assert_eq!(list.pop_front(), Some(4));

    // Check exhaustion
    assert_eq!(list.pop_front(), Some(1));
    assert_eq!(list.pop_front(), None);
}

#[test]
fn peek() {
    let mut list = List::new();
    assert!(list.peek_front().is_none());
    list.push_front(1);
    list.push_front(2);
    list.push_front(3);

    assert_eq!(&*list.peek_front().unwrap(), &3);
}

#[test]
fn peek_back_sees_the_other_end() {
    let mut list = List::new();
    assert!(list.peek_back().is_none());
    list.push_front(1);
    list.push_front(2);
    list.push_front(3);

    assert_eq!(list.peek_front(), Some(&3));
    assert_eq!(list.peek_back(), Some(&1));
}

#[test]
fn peek_leaves_the_list_alone() {
    let mut list = List::new();
    list.push_back(7);
    list.push_back(8);
    assert_eq!(list.peek_front(), Some(&7));
    assert_eq!(list.peek_front(), Some(&7));
    assert_eq!(list.peek_back(), Some(&8));
    assert_eq!(list.pop_front(), Some(7));
    assert_eq!(list.pop_front(), Some(8));
    assert_eq!(list.peek_front(), None);
    assert_eq!(list.peek_back(), None);
}

#[test]
fn front_is_a_stack() {
    let mut list = List::new();
    for v in 1..=50 {
        list.push_front(v);
    }
    for v in (1..=50).rev() {
        assert_eq!(list.pop_front(), Some(v));
    }
    assert_eq!(list.pop_front(), None);
    assert_eq!(list.pop_back(), None);
}

#[test]
fn back_is_a_stack() {
    let mut list = List::new();

    assert_eq!(list.pop_back(), None);

    list.push_back(1);
    list.push_back(2);
    list.push_back(3);

    assert_eq!(list.pop_back(), Some(3));
    assert_eq!(list.pop_back(), Some(2));

    list.push_back(4);
    list.push_back(5);

    assert_eq!(list.pop_back(), Some(5));
    assert_eq!(list.pop_back(), Some(4));

    assert_eq!(list.pop_back(), Some(1));
    assert_eq!(list.pop_back(), None);
}

#[test]
fn from_end_to_end_it_is_a_queue() {
    let mut list = List::new();
    for v in 0..20 {
        list.push_front(v);
    }
    for v in 0..20 {
        assert_eq!(list.pop_back(), Some(v));
    }
    assert_eq!(list.pop_back(), None);

    for v in 0..20 {
        list.push_back(v);
    }
    for v in 0..20 {
        assert_eq!(list.pop_front(), Some(v));
    }
    assert_eq!(list.pop_front(), None);
}

#[test]
fn both_ends_mixed() {
    let mut list = List::new();
    list.push_front(2);
    list.push_back(3);
    list.push_front(1);
    list.push_back(4);
    // 1 2 3 4
    assert_eq!(list.peek_front(), Some(&1));
    assert_eq!(list.peek_back(), Some(&4));
    assert_eq!(list.pop_front(), Some(1));
    assert_eq!(list.pop_back(), Some(4));
    list.push_back(5);
    list.push_front(0);
    // 0 2 3 5
    assert_eq!(list.pop_back(), Some(5));
    assert_eq!(list.pop_back(), Some(3));
    assert_eq!(list.pop_front(), Some(0));
    assert_eq!(list.pop_front(), Some(2));
    assert_eq!(list.pop_front(), None);
    assert_eq!(list.pop_back(), None);
}

#[test]
fn push_front_then_pop_front_changes_nothing() {
    let mut list = List::new();
    list.push_back(10);
    list.push_back(20);

    list.push_front(99);
    assert_eq!(list.pop_front(), Some(99));

    assert_eq!(list.peek_front(), Some(&10));
    assert_eq!(list.peek_back(), Some(&20));
    assert_eq!(list.pop_front(), Some(10));
    assert_eq!(list.pop_front(), Some(20));
    assert_eq!(list.pop_front(), None);
}

#[test]
fn push_back_then_pop_back_changes_nothing() {
    let mut list = List::new();
    list.push_back(10);
    list.push_back(20);

    list.push_back(99);
    assert_eq!(list.pop_back(), Some(99));

    assert_eq!(list.pop_front(), Some(10));
    assert_eq!(list.pop_front(), Some(20));
    assert_eq!(list.pop_front(), None);
}

#[test]
fn single_element_leaves_by_either_end() {
    let mut list = List::new();
    list.push_front(1);
    assert_eq!(list.peek_front(), Some(&1));
    assert_eq!(list.peek_back(), Some(&1));
    assert_eq!(list.pop_back(), Some(1));
    assert_eq!(list.pop_front(), None);
    assert_eq!(list.peek_front(), None);
    assert_eq!(list.peek_back(), None);

    list.push_back(2);
    assert_eq!(list.pop_front(), Some(2));
    assert_eq!(list.pop_back(), None);
}

#[test]
fn drained_list_starts_afresh() {
    let mut list = List::new();
    for round in 0..10 {
        for v in 0..round {
            list.push_back(v);
        }
        for v in 0..round {
            if v % 2 == 0 {
                assert_eq!(list.pop_front(), Some(v / 2));
            } else {
                assert_eq!(list.pop_back(), Some(round - 1 - v / 2));
            }
        }
        assert_eq!(list.pop_front(), None);
        assert_eq!(list.pop_back(), None);
        assert!(list.peek_front().is_none());
        assert!(list.peek_back().is_none());
    }
}

#[test]
fn nodes_are_used_again() {
    let mut list = List::new();
    list.push_back("a".to_string());
    list.push_back("b".to_string());
    list.push_back("c".to_string());
    assert_eq!(list.pop_front(), Some("a".to_string()));
    assert_eq!(list.pop_back(), Some("c".to_string()));
    list.push_front("d".to_string());
    list.push_back("e".to_string());
    list.push_back("f".to_string());
    // d b e f
    assert_eq!(list.pop_front(), Some("d".to_string()));
    assert_eq!(list.pop_front(), Some("b".to_string()));
    assert_eq!(list.pop_front(), Some("e".to_string()));
    assert_eq!(list.pop_front(), Some("f".to_string()));
    assert_eq!(list.pop_front(), None);
}

#[test]
fn long_list_is_destroyed() {
    let mut list = List::new();
    for v in 0..100_000u32 {
        list.push_front(v);
    }
    assert_eq!(list.peek_front(), Some(&99_999));
    assert_eq!(list.peek_back(), Some(&0));
    drop(list);
}

#[test]
fn elements_are_released_once() {
    let token = Rc::new(());
    let mut list = List::new();
    for _ in 0..5 {
        list.push_front(Rc::clone(&token));
        list.push_back(Rc::clone(&token));
    }
    assert_eq!(Rc::strong_count(&token), 11);

    let popped = list.pop_front();
    assert!(popped.is_some());
    assert_eq!(Rc::strong_count(&token), 11);
    drop(popped);
    assert_eq!(Rc::strong_count(&token), 10);

    drop(list.pop_back());
    assert_eq!(Rc::strong_count(&token), 9);

    drop(list);
    assert_eq!(Rc::strong_count(&token), 1);
}

#[test]
fn agrees_with_a_reference_deque() {
    let mut list = List::new();
    let mut reference = std::collections::VecDeque::new();
    let mut state: u64 = 0x2545_F491_4F6C_DD1D;
    for step in 0..20_000u64 {
        state = state
            .wrapping_mul(6364136223846793005)
            .wrapping_add(1442695040888963407);
        match (state >> 33) % 6 {
            0 | 1 => {
                list.push_front(step);
                reference.push_front(step);
            }
            2 | 3 => {
                list.push_back(step);
                reference.push_back(step);
            }
            4 => assert_eq!(list.pop_front(), reference.pop_front()),
            _ => assert_eq!(list.pop_back(), reference.pop_back()),
        }
        assert_eq!(list.peek_front(), reference.front());
        assert_eq!(list.peek_back(), reference.back());
        if step % 997 == 0 {
            while let Some(expected) = reference.pop_back() {
                assert_eq!(list.pop_back(), Some(expected));
            }
            assert_eq!(list.pop_back(), None);
            assert_eq!(list.pop_front(), None);
        }
    }
    while let Some(expected) = reference.pop_front() {
        assert_eq!(list.pop_front(), Some(expected));
    }
    assert_eq!(list.pop_front(), None);
    assert_eq!(list.peek_front(), None);
    assert_eq!(list.peek_back(), None);
}

#[test]
fn clear_empties_the_list() {
    let mut list = List::new();
    list.clear();
    assert_eq!(list.pop_front(), None);

    for v in 0..10 {
        list.push_back(v);
    }
    list.clear();
    assert_eq!(list.peek_front(), None);
    assert_eq!(list.peek_back(), None);
    assert_eq!(list.pop_front(), None);
    assert_eq!(list.pop_back(), None);

    list.push_front(1);
    list.push_back(2);
    assert_eq!(list.pop_front(), Some(1));
    assert_eq!(list.pop_front(), Some(2));
    assert_eq!(list.pop_front(), None);
}

#[test]
fn clear_releases_the_elements() {
    let token = Rc::new(());
    let mut list = List::new();
    for _ in 0..7 {
        list.push_back(Rc::clone(&token));
    }
    assert_eq!(Rc::strong_count(&token), 8);
    list.clear();
    assert_eq!(Rc::strong_count(&token), 1);
}

#[test]
fn clear_takes_a_long_list_apart() {
    let mut list = List::new();
    for v in 0..100_000u32 {
        list.push_back(v);
    }
    list.clear();
    assert_eq!(list.pop_front(), None);
}
