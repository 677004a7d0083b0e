use std::cmp::Ordering;
use stride::Stride;

#[test]
fn eq_across_strides() {
    let a = Stride::<_, 3>::new(&[1, 0, 0, 4, 0, 0]);
    let b = Stride::<_, 2>::new(&[1, 0, 4, 0]);
    assert!(a == b);
    assert!(b == a);
    assert!(!(a != b));
}

#[test]
fn eq_ignores_the_gaps() {
    let a = Stride::<_, 2>::new(&[1, 7, 4, 7]);
    let b = Stride::<_, 2>::new(&[1, 8, 4]);
    assert!(a == b);
}

#[test]
fn ne_where_an_element_differs() {
    let a = Stride::<_, 3>::new(&[1, 0, 0, 4, 0, 0]);
    let b = Stride::<_, 2>::new(&[1, 0, 5, 0]);
    assert!(a != b);
    assert!(!(a == b));
}

#[test]
fn ne_where_only_the_length_differs() {
    let a = Stride::<_, 3>::new(&[1, 0, 0, 4, 0, 0]);
    let b = Stride::<_, 2>::new(&[1, 0, 4, 0, 6]);
    assert!(a != b);
    assert!(b != a);
}

#[test]
fn eq_of_empty_views() {
    let a = Stride::<i32, 3>::new(&[]);
    let b: Stride<i32, 5> = Default::default();
    assert!(a == b);
    let c = Stride::<_, 5>::new(&[1]);
    assert!(a != c);
}

#[test]
fn eq_between_element_types() {
    let texts = [String::from("a"), String::from("x"), String::from("b")];
    let a = Stride::<_, 2>::new(&texts);
    let b = Stride::<_, 1>::new(&["a", "b"]);
    let c = Stride::<_, 1>::new(&["a", "c"]);
    assert!(a == b);
    assert!(a != c);
}

#[test]
fn partial_cmp_by_the_first_difference() {
    let a = Stride::<_, 2>::new(&[1, 0, 3, 0]);
    let b = Stride::<_, 3>::new(&[1, 0, 0, 4, 0, 0]);
    assert_eq!(a.partial_cmp(&b), Some(Ordering::Less));
    assert_eq!(b.partial_cmp(&a), Some(Ordering::Greater));
    assert!(a < b);
    assert!(a <= b);
    assert!(b > a);
    assert!(b >= a);
    assert!(!(a > b));
}

#[test]
fn partial_cmp_a_prefix_comes_first() {
    let a = Stride::<_, 2>::new(&[1, 0, 4, 0]);
    let b = Stride::<_, 2>::new(&[1, 0, 4, 0, 6]);
    assert_eq!(a.partial_cmp(&b), Some(Ordering::Less));
    assert_eq!(b.partial_cmp(&a), Some(Ordering::Greater));
    assert!(a < b);
}

#[test]
fn partial_cmp_the_first_difference_beats_the_length() {
    let a = Stride::<_, 1>::new(&[2]);
    let b = Stride::<_, 1>::new(&[1, 9, 9]);
    assert_eq!(a.partial_cmp(&b), Some(Ordering::Greater));
    assert_eq!(b.partial_cmp(&a), Some(Ordering::Less));
}

#[test]
fn partial_cmp_of_equal_views() {
    let a = Stride::<_, 3>::new(&[1, 0, 0, 4, 0, 0]);
    let b = Stride::<_, 2>::new(&[1, 0, 4, 0]);
    assert_eq!(a.partial_cmp(&b), Some(Ordering::Equal));
    assert!(a <= b);
    assert!(a >= b);
    assert!(!(a < b));
}

#[test]
fn partial_cmp_of_elements_without_an_order() {
    let a = Stride::<_, 1>::new(&[1.0, f64::NAN, 3.0]);
    let b = Stride::<_, 1>::new(&[1.0, 2.0, 4.0]);
    assert_eq!(a.partial_cmp(&b), None);
    assert!(!(a < b));
    assert!(!(a >= b));
    let c = Stride::<_, 1>::new(&[0.5, f64::NAN]);
    assert_eq!(c.partial_cmp(&b), Some(Ordering::Less));
}

#[test]
fn cmp_by_the_first_difference() {
    let a = Stride::<_, 2>::new(&[1, 0, 3, 0]);
    let b = Stride::<_, 2>::new(&[1, 0, 4]);
    assert_eq!(a.cmp(&b), Ordering::Less);
    assert_eq!(b.cmp(&a), Ordering::Greater);
    assert_eq!(a.cmp(&a), Ordering::Equal);
}

#[test]
fn cmp_a_prefix_comes_first() {
    let a = Stride::<_, 2>::new(&[1, 0, 4, 0]);
    let b = Stride::<_, 2>::new(&[1, 0, 4, 0, 6]);
    assert_eq!(a.cmp(&b), Ordering::Less);
    assert_eq!(b.cmp(&a), Ordering::Greater);
    let empty = Stride::<i32, 2>::new(&[]);
    assert_eq!(empty.cmp(&a), Ordering::Less);
    assert_eq!(empty.cmp(&empty), Ordering::Equal);
}
