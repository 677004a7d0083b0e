use stride::Stride;

#[test]
fn iter_forward() {
    let stride = Stride::<_, 2>::new(&[1, 2, 3, 4, 5, 6]);
    let mut iterator = stride.iter();
    assert_eq!(iterator.next(), Some(&1));
    assert_eq!(iterator.next(), Some(&3));
    assert_eq!(iterator.next(), Some(&5));
    assert_eq!(iterator.next(), None);
    assert_eq!(iterator.next(), None);
    assert_eq!(iterator.next_back(), None);
}

#[test]
fn iter_backward() {
    let stride = Stride::<_, 2>::new(&[1, 2, 3, 4, 5, 6]);
    let mut iterator = stride.iter();
    assert_eq!(iterator.next_back(), Some(&5));
    assert_eq!(iterator.next_back(), Some(&3));
    assert_eq!(iterator.next_back(), Some(&1));
    assert_eq!(iterator.next_back(), None);
    assert_eq!(iterator.next(), None);
}

#[test]
fn iter_forward_is_the_sequence_of_indexed_elements() {
    let data: Vec<u32> = (0..23).collect();
    let stride = Stride::<_, 4>::new(&data);
    let mut iterator = stride.iter();
    let mut seen = Vec::new();
    while let Some(item) = iterator.next() {
        seen.push(*item);
    }
    let indexed: Vec<u32> = (0..stride.len()).map(|i| stride[i]).collect();
    assert_eq!(seen, indexed);
    assert_eq!(seen, vec![0, 4, 8, 12, 16, 20]);
}

#[test]
fn iter_backward_is_the_reverse_of_forward() {
    let data: Vec<u32> = (0..23).collect();
    let stride = Stride::<_, 4>::new(&data);
    let mut iterator = stride.iter();
    let mut seen = Vec::new();
    while let Some(item) = iterator.next_back() {
        seen.push(*item);
    }
    assert_eq!(seen, vec![20, 16, 12, 8, 4, 0]);
}

#[test]
fn iter_from_both_ends_in_turn() {
    let data = [1, 2, 3, 4, 5, 6, 7, 8, 9];
    let stride = Stride::<_, 2>::new(&data);
    let mut iterator = stride.iter();
    assert_eq!(iterator.len(), 5);
    assert_eq!(iterator.next(), Some(&1));
    assert_eq!(iterator.len(), 4);
    assert_eq!(iterator.next_back(), Some(&9));
    assert_eq!(iterator.len(), 3);
    assert_eq!(iterator.next(), Some(&3));
    assert_eq!(iterator.len(), 2);
    assert_eq!(iterator.next_back(), Some(&7));
    assert_eq!(iterator.len(), 1);
    assert_eq!(iterator.next(), Some(&5));
    assert_eq!(iterator.len(), 0);
    assert_eq!(iterator.next_back(), None);
    assert_eq!(iterator.next(), None);
    assert_eq!(iterator.len(), 0);
}

#[test]
fn iter_from_both_ends_with_a_short_last_group() {
    let data = [1, 2, 3, 4, 5, 6, 7];
    let stride = Stride::<_, 3>::new(&data);
    let mut iterator = stride.iter();
    assert_eq!(iterator.next_back(), Some(&7));
    assert_eq!(iterator.next_back(), Some(&4));
    assert_eq!(iterator.next(), Some(&1));
    assert_eq!(iterator.next(), None);
    assert_eq!(iterator.next_back(), None);
}

#[test]
fn iter_every_order_of_ends_yields_every_element_once() {
    let data: Vec<usize> = (0..17).collect();
    let stride = Stride::<_, 3>::new(&data);
    let len = stride.len();
    assert_eq!(len, 6);
    for pattern in 0u32..(1 << len) {
        let mut iterator = stride.iter();
        let mut front = Vec::new();
        let mut back = Vec::new();
        for call in 0..len {
            assert_eq!(iterator.len(), len - call);
            if pattern & (1 << call) != 0 {
                front.push(*iterator.next().unwrap());
            } else {
                back.push(*iterator.next_back().unwrap());
            }
        }
        assert_eq!(iterator.len(), 0);
        assert_eq!(iterator.next(), None);
        assert_eq!(iterator.next_back(), None);
        back.reverse();
        front.extend(back);
        assert_eq!(front, vec![0, 3, 6, 9, 12, 15]);
    }
}

#[test]
fn iter_len_counts_down() {
    let data = [0u8; 10];
    let stride = Stride::<_, 3>::new(&data);
    let mut iterator = stride.iter();
    assert_eq!(iterator.len(), 4);
    for taken in 1..=4 {
        assert!(iterator.next().is_some());
        assert_eq!(iterator.len(), 4 - taken);
    }
    assert!(iterator.next().is_none());
    assert_eq!(iterator.len(), 0);
}

#[test]
fn iter_stride_larger_than_the_buffer() {
    let stride = Stride::<_, 10>::new(&[1, 2, 3]);
    let mut iterator = stride.iter();
    assert_eq!(iterator.len(), 1);
    assert_eq!(iterator.next_back(), Some(&1));
    assert_eq!(iterator.next(), None);
}

#[test]
fn iter_can_be_cloned_and_started_again() {
    let stride = Stride::<_, 2>::new(&[1, 2, 3]);
    let mut first = stride.iter();
    assert_eq!(first.next(), Some(&1));
    let mut second = first.clone();
    assert_eq!(first.next(), Some(&3));
    assert_eq!(first.next(), None);
    assert_eq!(second.next(), Some(&3));
    let mut fresh = stride.iter();
    assert_eq!(fresh.next(), Some(&1));
}

#[test]
fn iter_yields_references_into_the_buffer() {
    let data = [1, 2, 3, 4, 5];
    let stride = Stride::<_, 2>::new(&data);
    let mut iterator = stride.iter();
    let first = iterator.next().unwrap();
    let last = iterator.next_back().unwrap();
    assert!(std::ptr::eq(first, &data[0]));
    assert!(std::ptr::eq(last, &data[4]));
}

#[test]
fn iter_mut_forward() {
    let slice = &mut [1, 1, 2, 2, 3, 3];
    let mut stride = Stride::<_, 2>::new_mut(slice);
    let mut iterator = stride.iter_mut();
    while let Some(elem) = iterator.next() {
        *elem *= 2;
    }
    assert_eq!(slice, &[2, 1, 4, 2, 6, 3]);
}

#[test]
fn iter_mut_backward() {
    let slice = &mut [1, 0, 0, 2, 0, 0, 3];
    let mut stride = Stride::<_, 3>::new_mut(slice);
    let mut iterator = stride.iter_mut();
    let mut count = 10;
    while let Some(elem) = iterator.next_back() {
        *elem += count;
        count += 10;
    }
    assert_eq!(slice, &[31, 0, 0, 22, 0, 0, 13]);
}

#[test]
fn iter_mut_from_both_ends_in_turn() {
    let slice = &mut [0, 9, 0, 9, 0, 9, 0, 9, 0];
    let mut stride = Stride::<_, 2>::new_mut(slice);
    let mut iterator = stride.iter_mut();
    assert_eq!(iterator.len(), 5);
    *iterator.next().unwrap() = 1;
    *iterator.next_back().unwrap() = 5;
    assert_eq!(iterator.len(), 3);
    *iterator.next().unwrap() = 2;
    *iterator.next_back().unwrap() = 4;
    *iterator.next_back().unwrap() = 3;
    assert_eq!(iterator.len(), 0);
    assert!(iterator.next().is_none());
    assert!(iterator.next_back().is_none());
    assert_eq!(slice, &[1, 9, 2, 9, 3, 9, 4, 9, 5]);
}

#[test]
fn iter_mut_yields_references_that_can_be_held_together() {
    let slice = &mut [1, 2, 3, 4, 5];
    let mut stride = Stride::<_, 2>::new_mut(slice);
    let mut iterator = stride.iter_mut();
    let first = iterator.next().unwrap();
    let last = iterator.next_back().unwrap();
    let middle = iterator.next().unwrap();
    assert!(iterator.next().is_none());
    std::mem::swap(first, last);
    *middle = 30;
    assert_eq!(slice, &[5, 2, 30, 4, 1]);
}

#[test]
fn iter_mut_leaves_what_it_did_not_visit() {
    let slice = &mut [1, 2, 3, 4, 5, 6, 7];
    let mut stride = Stride::<_, 2>::new_mut(slice);
    {
        let mut iterator = stride.iter_mut();
        *iterator.next().unwrap() = 10;
        *iterator.next_back().unwrap() = 70;
    }
    assert_eq!(stride[0], 10);
    assert_eq!(stride[1], 3);
    assert_eq!(stride[2], 5);
    assert_eq!(stride[3], 70);
    assert_eq!(slice, &[10, 2, 3, 4, 5, 6, 70]);
}

#[test]
fn iter_over_a_mutable_view_reads_only() {
    let slice = &mut [1, 2, 3, 4];
    let stride = Stride::<_, 3>::new_mut(slice);
    let mut iterator = stride.iter();
    assert_eq!(iterator.next(), Some(&1));
    assert_eq!(iterator.next(), Some(&4));
    assert_eq!(iterator.next(), None);
}
