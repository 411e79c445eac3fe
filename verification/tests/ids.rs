use getting_farted_on::id::{Id, IdGen};

#[test]
fn replay_ids_count_down_from_minus_two() {
    assert_eq!(Id::replay(0), Id(-2));
    assert_eq!(Id::replay(1), Id(-3));
    assert_eq!(Id::replay(41), Id(-43));
}

#[test]
fn replay_ids_differ_from_localhost_and_each_other() {
    let local = Id::localhost();
    assert_eq!(local, Id(-1));
    let a = Id::replay(3);
    let b = Id::replay(4);
    assert_ne!(a, b);
    assert_ne!(a, local);
    assert_ne!(b, local);
}

#[test]
fn id_gen_counts_from_zero() {
    let mut g = IdGen::new();
    assert_eq!(g.gen(), Id(0));
    assert_eq!(g.gen(), Id(1));
    assert_eq!(g.gen(), Id(2));
}

#[test]
fn id_gen_default_is_new() {
    let mut g = IdGen::default();
    assert_eq!(g.gen(), Id(0));
}

#[test]
fn generated_ids_are_not_replays() {
    let mut g = IdGen::new();
    for i in 0..50usize {
        let id = g.gen();
        assert!(id.0 >= 0);
        assert_ne!(id, Id::replay(i));
        assert_ne!(id, Id::localhost());
    }
}
