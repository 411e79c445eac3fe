use getting_farted_on::layers::{render_full_flag, select_layers, GuyRenderLayerMode, LayerEdge, UnknownLayerMode};

fn start(full: bool) -> LayerEdge {
    LayerEdge::Start { render_full: full }
}

#[test]
fn leaf_groups_become_layers() {
    // root ( a ( ) b ( ) )
    let edges = vec![start(false), start(false), LayerEdge::End, start(false), LayerEdge::End, LayerEdge::End];
    assert_eq!(select_layers(&edges), vec![2, 4]);
}

#[test]
fn render_full_group_is_one_layer() {
    // root ( full ( x ( ) y ( ) ) z ( ) )
    let edges = vec![
        start(false),
        start(true),
        start(false),
        LayerEdge::End,
        start(false),
        LayerEdge::End,
        LayerEdge::End,
        start(false),
        LayerEdge::End,
        LayerEdge::End,
    ];
    assert_eq!(select_layers(&edges), vec![6, 8]);
}

#[test]
fn nested_render_full_inside_render_full_is_not_separate() {
    // full ( full ( ) )
    let edges = vec![start(true), start(true), LayerEdge::End, LayerEdge::End];
    assert_eq!(select_layers(&edges), vec![3]);
}

#[test]
fn single_group_is_a_layer() {
    let edges = vec![start(false), LayerEdge::End];
    assert_eq!(select_layers(&edges), vec![1]);
}

#[test]
fn empty_walk_has_no_layers() {
    let edges: Vec<LayerEdge> = vec![];
    assert_eq!(select_layers(&edges), Vec::<usize>::new());
}

#[test]
fn layer_modes_parse_by_name() {
    assert_eq!(GuyRenderLayerMode::from_str("body").unwrap(), GuyRenderLayerMode::Body);
    assert_eq!(GuyRenderLayerMode::from_str("force-fart").unwrap(), GuyRenderLayerMode::ForceFart);
    assert_eq!(GuyRenderLayerMode::from_str("idle").unwrap(), GuyRenderLayerMode::Idle);
    assert_eq!(GuyRenderLayerMode::from_str("growl").unwrap(), GuyRenderLayerMode::Growl);
    assert_eq!(GuyRenderLayerMode::from_str("cheeks").unwrap(), GuyRenderLayerMode::Cheeks);
}

#[test]
fn unknown_layer_mode_is_an_error() {
    let e = GuyRenderLayerMode::from_str("Body").unwrap_err();
    assert_eq!(e.text, "Body");
    assert!(GuyRenderLayerMode::from_str("").is_err());
    assert!(GuyRenderLayerMode::from_str("force_fart").is_err());
}

#[test]
fn render_full_attribute() {
    assert!(render_full_flag(Some("true")));
    assert!(!render_full_flag(Some("false")));
    assert!(!render_full_flag(None));
}

#[test]
fn unknown_mode_message() {
    let e = GuyRenderLayerMode::from_str("Body\n").err().unwrap();
    assert_eq!(e.message(), "\"Body\\n\" is unknown mode");
    let e = UnknownLayerMode { text: "fo\"o".to_string() };
    assert_eq!(e.message(), format!("{:?} is unknown mode", "fo\"o"));
}
