use epoch_reclaim::ring_buffer::RingBuffer;

#[test]
fn test_push_and_pop() {
    let mut buffer = RingBuffer::new(3);

    assert_eq!(buffer.push(1), Ok(()));
    assert_eq!(buffer.push(2), Ok(()));
    assert_eq!(buffer.push(3), Ok(()));

    // A fourth item does not fit.
    assert_eq!(buffer.push(4), Err(4));

    assert_eq!(buffer.pop(), Some(1));
    assert_eq!(buffer.pop(), Some(2));
    assert_eq!(buffer.pop(), Some(3));

    assert_eq!(buffer.pop(), None);
}

#[test]
fn test_overwrite_behavior() {
    let mut buffer = RingBuffer::new(2);

    assert_eq!(buffer.push(1), Ok(()));
    assert_eq!(buffer.push(2), Ok(()));

    assert_eq!(buffer.pop(), Some(1));

    assert_eq!(buffer.push(3), Ok(()));

    assert_eq!(buffer.pop(), Some(2));
    assert_eq!(buffer.pop(), Some(3));
    assert_eq!(buffer.pop(), None);
}

#[test]
fn test_empty_buffer() {
    let mut buffer = RingBuffer::new(3);

    assert_eq!(buffer.pop(), None);

    assert_eq!(buffer.push(1), Ok(()));
    assert_eq!(buffer.pop(), Some(1));
}

#[test]
fn test_full_buffer() {
    let mut buffer = RingBuffer::new(3);

    assert_eq!(buffer.push(1), Ok(()));
    assert_eq!(buffer.push(2), Ok(()));
    assert_eq!(buffer.push(3), Ok(()));

    assert_eq!(buffer.push(4), Err(4));

    assert_eq!(buffer.pop(), Some(1));
    assert_eq!(buffer.pop(), Some(2));
    assert_eq!(buffer.pop(), Some(3));
    assert_eq!(buffer.pop(), None);
}

#[test]
fn test_circular_behavior() {
    let mut buffer = RingBuffer::new(3);

    assert_eq!(buffer.push(1), Ok(()));
    assert_eq!(buffer.push(2), Ok(()));
    assert_eq!(buffer.pop(), Some(1));
    assert_eq!(buffer.pop(), Some(2));
    assert_eq!(buffer.push(3), Ok(()));
    assert_eq!(buffer.push(4), Ok(()));
    assert_eq!(buffer.push(5), Ok(()));
    assert_eq!(buffer.push(6), Err(6));

    assert_eq!(buffer.pop(), Some(3));
    assert_eq!(buffer.pop(), Some(4));
    assert_eq!(buffer.pop(), Some(5));
    assert_eq!(buffer.pop(), None);
}

#[test]
fn buffer_without_cells_refuses_everything() {
    let mut buffer: RingBuffer<u32> = RingBuffer::new(0);
    assert_eq!(buffer.push(9), Err(9));
    assert_eq!(buffer.pop(), None);
}

#[test]
fn clear_empties_a_buffer_that_has_wrapped() {
    let mut buffer: RingBuffer<u32> = RingBuffer::new(3);
    for i in 0..3u32 {
        assert_eq!(buffer.push(i), Ok(()));
    }
    assert_eq!(buffer.pop(), Some(0));
    assert_eq!(buffer.push(3), Ok(()));
    buffer.clear();
    assert_eq!(buffer.pop(), None);
    assert_eq!(buffer.push(10), Ok(()));
    assert_eq!(buffer.push(11), Ok(()));
    assert_eq!(buffer.push(12), Ok(()));
    assert_eq!(buffer.push(13), Err(13));
    assert_eq!(buffer.pop(), Some(10));
    assert_eq!(buffer.pop(), Some(11));
    assert_eq!(buffer.pop(), Some(12));
    assert_eq!(buffer.pop(), None);
}

#[test]
fn items_of_three_producers_leave_in_arrival_order() {
    let mut buffer: RingBuffer<u32> = RingBuffer::new(10);
    let mut results: Vec<u32> = Vec::new();
    let mut expected: Vec<u32> = Vec::new();
    for i in 0..10u32 {
        for id in 0..3u32 {
            let value: u32 = id * 10 + i;
            while buffer.push(value).is_err() {
                results.push(buffer.pop().unwrap());
            }
            expected.push(value);
        }
    }
    while let Some(value) = buffer.pop() {
        results.push(value);
    }
    assert_eq!(results.len(), 30);
    assert_eq!(results, expected);
}

#[test]
fn len_and_accepted_count_follow_pushes_and_pops() {
    let mut buffer: RingBuffer<u32> = RingBuffer::new(2);
    assert_eq!(buffer.len(), 0);
    assert_eq!(buffer.total_accepted(), 0);
    assert_eq!(buffer.push(1), Ok(()));
    assert_eq!(buffer.push(2), Ok(()));
    assert_eq!(buffer.push(3), Err(3));
    assert_eq!(buffer.len(), 2);
    assert_eq!(buffer.total_accepted(), 2);
    assert_eq!(buffer.pop(), Some(1));
    assert_eq!(buffer.len(), 1);
    assert_eq!(buffer.total_accepted(), 2);
    buffer.clear();
    assert_eq!(buffer.len(), 0);
    assert_eq!(buffer.total_accepted(), 0);
}

#[test]
fn clear_and_pop_give_up_every_item() {
    let token = std::rc::Rc::new(5u32);
    let mut buffer: RingBuffer<std::rc::Rc<u32>> = RingBuffer::new(3);
    assert!(buffer.push(token.clone()).is_ok());
    assert!(buffer.push(token.clone()).is_ok());
    assert_eq!(std::rc::Rc::strong_count(&token), 3);
    let first = buffer.pop();
    assert!(first.is_some());
    drop(first);
    assert_eq!(std::rc::Rc::strong_count(&token), 2);
    buffer.clear();
    assert_eq!(std::rc::Rc::strong_count(&token), 1);
}
