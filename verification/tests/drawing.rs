use getting_farted_on::drawing::{drawing_layers, walk_groups, DrawingError, XmlAttribute, XmlNode};
use getting_farted_on::layers::LayerEdge;

#[test]
fn leaf_and_full_groups_become_layers() {
    let svg = r#"<svg><g id="a"><g id="b"/></g><g id="c" render-full="true"><g id="d"/></g></svg>"#;
    let d = drawing_layers(svg).ok().unwrap();
    assert_eq!(
        d.steps,
        vec![(true, 2), (true, 3), (false, 3), (false, 2), (true, 4), (true, 5), (false, 5), (false, 4)]
    );
    assert_eq!(d.edges[4], LayerEdge::Start { render_full: true });
    assert_eq!(d.edges[0], LayerEdge::Start { render_full: false });
    assert_eq!(d.layers, vec![2, 7]);
    let ids: Vec<&str> = d.layers.iter().map(|&e| d.nodes[d.steps[e].1].attribute("id").unwrap()).collect();
    assert_eq!(ids, vec!["b", "c"]);
}

#[test]
fn groups_without_id_are_walked_through() {
    let svg = r#"<svg><g><g id="x"/><rect id="r"/></g></svg>"#;
    let d = drawing_layers(svg).ok().unwrap();
    assert_eq!(d.steps, vec![(true, 3), (false, 3)]);
    assert_eq!(d.layers, vec![1]);
}

#[test]
fn hidden_parts_are_shown() {
    let svg = r#"<svg><g id="a" style="display:none;opacity:1"/></svg>"#;
    let d = drawing_layers(svg).ok().unwrap();
    assert_eq!(d.nodes[2].attribute("style"), Some(";opacity:1"));
    assert_eq!(d.nodes[2].parent, Some(1));
    assert_eq!(d.nodes[0].parent, None);
}

#[test]
fn broken_xml_is_refused() {
    assert!(matches!(drawing_layers("<svg><g id=\"a\"></svg>"), Err(DrawingError::Xml)));
}

#[test]
fn render_full_must_be_boolean() {
    let svg = r#"<svg><g id="a" render-full="yes"/></svg>"#;
    assert!(matches!(drawing_layers(svg), Err(DrawingError::RenderFull)));
    let svg = r#"<svg><g id="a" render-full="false"/></svg>"#;
    assert_eq!(drawing_layers(svg).ok().unwrap().layers, vec![1]);
}

#[test]
fn namespaced_id_makes_a_group() {
    let svg = r#"<svg xmlns:x="urn:x"><g x:id="a"/></svg>"#;
    let d = drawing_layers(svg).ok().unwrap();
    assert_eq!(d.steps, vec![(true, 2), (false, 2)]);
    assert_eq!(d.nodes[2].attribute("id"), Some("a"));
}

#[test]
fn walk_over_given_nodes() {
    let node = |parent: Option<usize>, name: &str, id: Option<&str>| XmlNode {
        parent,
        name: name.to_string(),
        attributes: id
            .map(|v| vec![XmlAttribute { namespace: None, name: "id".to_string(), value: v.to_string() }])
            .unwrap_or_default(),
    };
    let nodes = vec![
        node(None, "", None),
        node(Some(0), "svg", None),
        node(Some(1), "g", Some("a")),
        node(Some(2), "g", Some("b")),
        node(Some(1), "g", Some("c")),
    ];
    let (steps, edges) = walk_groups(&nodes).unwrap();
    assert_eq!(steps, vec![(true, 2), (true, 3), (false, 3), (false, 2), (true, 4), (false, 4)]);
    assert_eq!(edges.len(), 6);
}
