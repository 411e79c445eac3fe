use getting_farted_on::chains::{chain_surfaces, Joint, Link};

fn link(to: usize, joint: Joint) -> Link {
    Link { to, joint }
}

#[test]
fn connected_surfaces_form_one_pass() {
    // 0 -> 1 -> 2 end to start, 3 alone, 4 meets 0 at 0's start.
    let links = vec![
        vec![link(0, Joint::StartToStart), link(0, Joint::EndToEnd), link(1, Joint::EndToStart), link(4, Joint::StartToEnd)],
        vec![link(0, Joint::StartToEnd), link(1, Joint::StartToStart), link(1, Joint::EndToEnd), link(2, Joint::EndToStart)],
        vec![link(1, Joint::StartToEnd), link(2, Joint::StartToStart), link(2, Joint::EndToEnd)],
        vec![link(3, Joint::StartToStart), link(3, Joint::EndToEnd)],
        vec![link(0, Joint::EndToStart), link(4, Joint::StartToStart), link(4, Joint::EndToEnd)],
    ];
    let chains = chain_surfaces(&links);
    assert_eq!(chains.passes, vec![vec![0, 1, 4, 2], vec![3]]);
    assert_eq!(chains.found_by, vec![None, Some((0, 2)), Some((1, 3)), None, Some((0, 3))]);
}

#[test]
fn lone_surfaces_are_their_own_passes() {
    let links: Vec<Vec<Link>> = vec![vec![], vec![], vec![]];
    let chains = chain_surfaces(&links);
    assert_eq!(chains.passes, vec![vec![0], vec![1], vec![2]]);
    assert_eq!(chains.found_by, vec![None, None, None]);
}

#[test]
fn no_surfaces() {
    let chains = chain_surfaces(&vec![]);
    assert!(chains.passes.is_empty());
    assert!(chains.found_by.is_empty());
}

#[test]
fn links_are_tried_in_order() {
    // 0 leads to 2 before 1; 2 and 1 both lead to 3, but 2 comes first.
    let links = vec![
        vec![link(2, Joint::EndToStart), link(1, Joint::StartToEnd)],
        vec![link(3, Joint::EndToStart), link(0, Joint::EndToStart)],
        vec![link(0, Joint::StartToEnd), link(3, Joint::EndToEnd)],
        vec![link(1, Joint::StartToEnd), link(2, Joint::EndToEnd)],
    ];
    let chains = chain_surfaces(&links);
    assert_eq!(chains.passes, vec![vec![0, 2, 1, 3]]);
    assert_eq!(chains.found_by, vec![None, Some((0, 1)), Some((0, 0)), Some((2, 1))]);
}
