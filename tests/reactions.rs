use polymer::pairs::Pairs;
use polymer::text::can_react;
use polymer::unit::{type_of, units_react};

#[test]
fn it_can_react() {
    assert!(can_react(&String::from("a"), &String::from("A")));
    assert!(can_react(&String::from("A"), &String::from("a")));
    assert!(can_react(&String::from("b"), &String::from("B")));
    assert!(can_react(&String::from("B"), &String::from("b")));
}

#[test]
fn it_can_not_react() {
    assert!(!can_react(&String::from("b"), &String::from("c")));
    assert!(!can_react(&String::from("B"), &String::from("B")));
    assert!(!can_react(&String::from("b"), &String::from("b")));
}

#[test]
fn it_can_iterate() {
    let content = "cdabcdef".to_string();
    let mut v = content.as_bytes().to_vec();
    v.reverse();

    println!("{:?}", v);

    let mut pairs = Pairs { pairs: v };

    assert_eq!(&pairs.next(), &Some((99, 100)));
    assert_eq!(&pairs.next(), &Some((100, 97)));
    assert_eq!(&pairs.next(), &Some((97, 98)));
    assert_eq!(&pairs.next(), &Some((98, 99)));
    assert_eq!(&pairs.next(), &Some((99, 100)));
    assert_eq!(&pairs.next(), &Some((100, 101)));
    assert_eq!(&pairs.next(), &Some((101, 102)));
    assert_eq!(&pairs.next(), &Some((102, 0)));
    assert_eq!(&pairs.next(), &Some((0, 0)));
}

#[test]
fn pairs_end_after_the_marker() {
    let mut pairs = Pairs::new(vec![7, 8]);
    assert_eq!(pairs.len(), 2);
    assert_eq!(pairs.next(), Some((7, 8)));
    assert_eq!(pairs.len(), 1);
    assert_eq!(pairs.next(), Some((8, 0)));
    assert_eq!(pairs.next(), Some((0, 0)));
    assert_eq!(pairs.next(), None);
    assert_eq!(pairs.next(), None);
}

#[test]
fn pairs_new_keeps_the_first_byte_on_top() {
    let pairs = Pairs::new(vec![1, 2, 3]);
    assert_eq!(pairs.pairs, vec![3, 2, 1]);
    let empty = Pairs::new(Vec::new());
    assert_eq!(empty.len(), 0);
}

#[test]
fn texts_react_letter_by_letter() {
    assert!(can_react("ab", "AB"));
    assert!(!can_react("ab", "ab"));
    assert!(!can_react("a", "aA"));
    assert!(!can_react("", ""));
    assert!(!can_react("1", "1"));
}

#[test]
fn units_fold_case_for_letters_only() {
    assert_eq!(type_of('A'), 'a' as u32);
    assert_eq!(type_of('z'), 'z' as u32);
    assert_eq!(type_of('@'), '@' as u32);
    assert_eq!(type_of('['), '[' as u32);
    assert!(units_react('c', 'C'));
    assert!(units_react('Z', 'z'));
    assert!(!units_react('a', 'a'));
    assert!(!units_react('a', 'B'));
    assert!(!units_react('@', '`'));
    assert!(!units_react('A', 'A'));
}
