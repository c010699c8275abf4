use craytracer::util::partition_by;

fn check<T, F>(s: &mut [T], f: F)
where
    T: std::fmt::Display + std::fmt::Debug,
    F: Fn(&T) -> bool,
{
    let (left, right) = partition_by(s, &f);
    for t in left {
        assert_eq!(true, f(t), "Expected predicate to be true for {t}");
    }
    for t in right {
        assert_eq!(false, f(t), "Expected predicate to be false for {t}");
    }
}

#[test]
fn empty() {
    check(&mut Vec::<usize>::new(), |&i| i > 0);
}

#[test]
fn single() {
    check(&mut vec![1], |&i| i == 0);
    check(&mut vec![1], |&i| i == 1);
}

#[test]
fn sorted() {
    check(&mut vec![1, 2, 3], |&i| i > 0);
    check(&mut vec![1, 2, 3], |&i| i > 1);
    check(&mut vec![1, 2, 3], |&i| i > 2);
    check(&mut vec![1, 2, 3], |&i| i > 3);
}

#[test]
fn unsorted() {
    check(&mut vec![1, 2, 3, 4, 5], |&i| i % 2 == 0);
    check(&mut vec![1, 2, 3, 4, 5], |&i| i % 2 == 1);
}

#[test]
fn partition_keeps_every_element() {
    let mut v = vec![5, 3, 8, 1, 9, 2, 7];
    let (left, right) = partition_by(&mut v, |&i| i >= 5);
    let mut left: Vec<i32> = left.to_vec();
    let mut right: Vec<i32> = right.to_vec();
    left.sort();
    right.sort();
    assert_eq!(left, vec![5, 7, 8, 9]);
    assert_eq!(right, vec![1, 2, 3]);
    let mut all = v.clone();
    all.sort();
    assert_eq!(all, vec![1, 2, 3, 5, 7, 8, 9]);
}

#[test]
fn partition_all_true_and_all_false() {
    let mut v = vec![4, 6, 8];
    let (left, right) = partition_by(&mut v, |&i| i % 2 == 0);
    assert_eq!(left.len(), 3);
    assert_eq!(right.len(), 0);
    let mut w = vec![1, 3];
    let (left, right) = partition_by(&mut w, |&i| i % 2 == 0);
    assert_eq!(left.len(), 0);
    assert_eq!(right.len(), 2);
}

#[test]
fn partition_slice_is_left_then_right() {
    let mut v = vec![2, 1, 4, 3];
    let (l, r) = {
        let (l, r) = partition_by(&mut v, |&i| i > 2);
        (l.to_vec(), r.to_vec())
    };
    let mut joined = l.clone();
    joined.extend(r.iter());
    assert_eq!(joined, v);
}
