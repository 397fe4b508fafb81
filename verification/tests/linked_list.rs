use bank_ledger::linked_list::LinkedList;

#[test]
fn linked_list_v5_test_creation() {
    let vec = vec![1, 2, 3];
    println!("{:?}", vec.iter().next());
    vec.iter().for_each(|x| println!("{x}"));
    let list = LinkedList::new();
    let list = list.prepend(1);
    let list = list.prepend(42);
    let list = list.prepend(55);
    let (h1, ll2) = list.pop();

    assert_eq!(h1, Some(&55));
    assert_eq!(ll2.head(), Some(&42));

    let list2 = LinkedList::new().prepend(1).prepend(2).prepend(3);

    assert_eq!(list2.head(), Some(&3));
}

#[test]
fn linked_list_v5_test_append() {
    let list = LinkedList::new().prepend(1).prepend(2).prepend(3);

    let list = list.append(21).append(42);

    for (idx, elem) in list.into_vec().into_iter().enumerate() {
        let expected = match idx {
            0 => 3,
            1 => 2,
            2 => 1,
            3 => 21,
            4 => 42,
            _ => panic!("Something wrong with your code"),
        };

        assert_eq!(elem, expected);
    }
}

#[test]
fn linked_list_v5_test_split() {
    let list = LinkedList::new().prepend(1).prepend(2).prepend(3).prepend(42);

    let (first, second) = list.split(2);

    assert_eq!(first.into_vec(), vec![42, 3]);
    assert_eq!(second.into_vec(), vec![2, 1]);
}

#[test]
fn test_iter() {
    let list = LinkedList::new();
    let list = list.prepend(1);
    let list = list.prepend(42);
    let list = list.prepend(55);

    let iter = list.iter();

    assert_eq!(iter.into_iter().count(), 3);

    for (i, e) in list.iter().into_iter().enumerate() {
        let m = match i {
            0 => 55,
            1 => 42,
            2 => 1,
            _ => panic!("something wrong this your code"),
        };

        assert_eq!(e, &m);
    }
}

#[test]
fn linked_list_v5_test_into_iter() {
    let list = LinkedList::new().prepend(1).prepend(2).prepend(3);
    let mut idx = 4;
    for elem in list.into_vec().into_iter() {
        idx -= 1;
        assert_eq!(idx, elem);
        println!("{elem}");
    }
}

#[test]
fn test_from_iter() {
    let vec = vec![1, 2, 3, 42];
    let list = LinkedList::from_iter_rev(vec);

    assert_eq!(list.into_vec(), vec![42, 3, 2, 1]);
}

#[test]
fn linked_list_v3_test_prepend() {
    let list = LinkedList::new().prepend(1).prepend(2).prepend(3);

    for (idx, x) in list.into_vec().into_iter().enumerate() {
        assert_eq!(idx + x, 3)
    }
}

#[test]
fn linked_list_v3_test_append() {
    let list = LinkedList::new().append(1).append(2).append(3);

    for (idx, x) in list.into_vec().into_iter().enumerate() {
        assert_eq!(idx + 1, x)
    }
}

#[test]
fn linked_list_v3_test_insert() {
    let list = LinkedList::new().append(1).append(2).append(3);

    let list = list.insert(1, 4);

    assert_eq!(list.into_vec(), vec![1, 2, 4, 3]);
}

#[test]
fn test_replace() {
    let list = LinkedList::new().append(1).append(2).append(3);
    let list = list.replace(1, 42);

    assert_eq!(list.into_vec(), vec![1, 42, 3]);

    let list = LinkedList::new().append(1).append(2).append(3);
    let list = list.replace(0, 42);

    assert_eq!(list.into_vec(), vec![42, 2, 3]);
}

#[test]
fn linked_list_v3_test_split() {
    let list = LinkedList::new().prepend(1).prepend(2).prepend(3).prepend(42);

    let (first, second) = list.split(2);

    assert_eq!(first.into_vec(), vec![42, 3]);
    assert_eq!(second.into_vec(), vec![2, 1]);
}

#[test]
fn insert_behind_a_place_that_does_not_exist_changes_nothing() {
    let list = LinkedList::one(1).append(2);
    assert_eq!(list.insert(2, 9).into_vec(), vec![1, 2]);
    let list = LinkedList::one(1).append(2);
    assert_eq!(list.insert(0, 9).into_vec(), vec![1, 9, 2]);
    let list = LinkedList::one(1).append(2);
    assert_eq!(list.replace(5, 9).into_vec(), vec![1, 2]);
    let list = LinkedList::one(1).append(2);
    let (all, none) = list.split(7);
    assert_eq!(all.into_vec(), vec![1, 2]);
    assert!(none.into_vec().is_empty());
}

#[test]
fn linked_list_v2_test_creation() {
    let _ = LinkedList::<u32>::new();
    let one = LinkedList::one(42);
    let one_str = LinkedList::one("AAA".to_string());

    let longer = one.prepend(154);
    let longer_str = one_str.prepend("BBB".to_string());
    assert_eq!(longer.into_vec(), vec![154, 42]);
    assert_eq!(longer_str.into_vec(), vec!["BBB".to_string(), "AAA".to_string()]);
}

#[test]
fn linked_list_v6_test_prepend() {
    let list = LinkedList::new().prepend(1).prepend(2).prepend(3);
    list.iter().into_iter().zip([3, 2, 1]).for_each(|(inner, x)| assert_eq!(*inner, x));

    let list = LinkedList::new();
    let list = list.prepend(1).prepend(2).prepend(42);

    list.iter().into_iter().zip([42, 2, 1]).for_each(|(inner, x)| assert_eq!(*inner, x));
}

#[test]
fn linked_list_v6_test_append() {
    let list = LinkedList::new();
    let list = list.append(1);
    assert_eq!(list.head().map(|v| *v), Some(1));
    assert_eq!(list.iter().into_iter().last().map(|v| *v), Some(1));
    let list = list.append(2);
    assert_eq!(list.head().map(|v| *v), Some(1));
    assert_eq!(list.iter().into_iter().last().map(|v| *v), Some(2));
    let list = list.append(21).append(42);
    list.iter().into_iter().zip([1, 2, 21, 42]).for_each(|(elem, x)| assert_eq!(*elem, x));

    list.iter().into_iter().zip([1, 2, 21, 42]).for_each(|(elem, x)| assert_eq!(*elem, x));

    let mut iter = list.iter().into_iter();
    assert_eq!(iter.next().map(|v| *v), Some(1));
    assert_eq!(iter.next().map(|v| *v), Some(2));
    assert_eq!(iter.next().map(|v| *v), Some(21));
}

#[test]
fn test_replace_1() {
    let list = LinkedList::new();
    let list = list.append(1).append(2).append(3);
    let list = list.replace(1, 42);
    list.iter().into_iter().zip([1, 42, 3]).for_each(|(elem, x)| assert_eq!(*elem, x));
    let list = list.replace(2, 84);
    list.iter().into_iter().zip([1, 42, 84]).for_each(|(elem, x)| assert_eq!(*elem, x));
    assert_eq!(list.into_vec(), vec![1, 42, 84]);
}

#[test]
fn test_replace_2() {
    let list = LinkedList::new();
    let list = list.append("1").append("2").append("3");
    let list = list.replace(1, "42");
    list.iter().into_iter().zip(["1", "42", "3"]).for_each(|(elem, x)| assert_eq!(*elem, x));
    let list = list.replace(2, "84");
    list.iter().into_iter().zip(["1", "42", "84"]).for_each(|(elem, x)| assert_eq!(*elem, x));
    assert_eq!(list.into_vec(), vec!["1", "42", "84"]);
}

#[test]
fn linked_list_v6_test_insert() {
    let list = LinkedList::new();
    let list = list.append("1").append("2").append("3");
    let list = list.insert(1, "42");
    list.iter().into_iter().zip(["1", "2", "42", "3"]).for_each(|(elem, x)| assert_eq!(*elem, x));
    let list = list.insert(3, "84");
    list.iter()
        .into_iter()
        .zip(["1", "2", "42", "3", "84"])
        .for_each(|(elem, x)| assert_eq!(*elem, x));
    assert_eq!(list.into_vec(), vec!["1", "2", "42", "3", "84"]);
}

#[test]
fn linked_list_v6_test_split() {
    let list = LinkedList::new();
    let list = list.append("1").append("2").append("3").append("42");
    let (left, right) = list.split(2);

    assert_eq!(left.into_vec(), vec!["1", "2"]);
    assert_eq!(right.into_vec(), vec!["3", "42"]);
}
