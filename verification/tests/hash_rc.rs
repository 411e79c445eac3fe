use getting_farted_on::hash_rc::HashRc;
use std::collections::HashMap;
use std::rc::Rc;

#[test]
fn keys_compare_by_allocation() {
    let a = Rc::new(5);
    let b = Rc::new(5);
    let ka = HashRc::from(a.clone());
    let ka2 = HashRc::from(a.clone());
    let kb = HashRc::from(b.clone());
    assert!(ka == ka2);
    assert!(ka != kb);
    assert_eq!(**ka, 5);
}

#[test]
fn map_keyed_by_allocation() {
    let a = Rc::new("fart");
    let b = Rc::new("fart");
    let mut m: HashMap<HashRc<&str>, u32> = HashMap::new();
    *m.entry(HashRc::from(a.clone())).or_default() += 1;
    *m.entry(HashRc::from(a.clone())).or_default() += 1;
    *m.entry(HashRc::from(b.clone())).or_default() += 1;
    assert_eq!(m.len(), 2);
    assert_eq!(m[&HashRc::from(a)], 2);
}
