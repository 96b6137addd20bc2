use html_diff::{go_through_tree, Attribute, Difference, Element, ElementInformation, Node};

fn element(name: &str, attributes: Vec<(&str, &str)>, children: Vec<Node>) -> Node {
    Node::Element(Element {
        namespace: String::new(),
        name: name.to_owned(),
        attributes: attributes
            .into_iter()
            .map(|(name, value)| Attribute {
                namespace: String::new(),
                name: name.to_owned(),
                value: value.to_owned(),
            })
            .collect(),
        children,
        markup: format!("<{}>", name),
    })
}

fn text(content: &str) -> Node {
    Node::Text { content: content.to_owned(), markup: content.to_owned() }
}

fn document(children: Vec<Node>) -> Node {
    Node::Other { children, markup: String::new() }
}

fn compare(one: &Node, two: &Node) -> Vec<Difference> {
    let mut path: Vec<String> = Vec::new();
    let differences = go_through_tree(one, two, &mut path);
    assert_eq!(path.len(), 0);
    differences
}

#[test]
fn a_tree_has_no_difference_with_itself() {
    let tree = document(vec![
        element("a", vec![("k", "v")], vec![text("x"), element("b", vec![], vec![])]),
        text("  "),
        Node::Comment,
        document(vec![text("y")]),
    ]);
    assert_eq!(compare(&tree, &tree).len(), 0);
}

#[test]
fn a_difference_three_elements_deep_has_three_segments() {
    let one = document(vec![
        element("skipped", vec![], vec![]),
        element("a", vec![], vec![element("b", vec![], vec![element("c", vec![], vec![text("x")])])]),
    ]);
    let two = document(vec![
        element("skipped", vec![], vec![]),
        element("a", vec![], vec![element("b", vec![], vec![element("c", vec![], vec![text("y")])])]),
    ]);
    let differences = compare(&one, &two);
    assert_eq!(differences.len(), 1, "{:?}", differences);
    match differences[0] {
        Difference::NodeText { ref elem, .. } => assert_eq!(elem.path, "a[1]/b[0]/c[0]"),
        _ => unreachable!(),
    }
}

#[test]
fn each_node_without_a_counterpart_is_reported() {
    let one = document(vec![
        element("a", vec![], vec![]),
        element("b", vec![], vec![]),
        text("t"),
        element("c", vec![], vec![element("deep", vec![], vec![])]),
    ]);
    let two = document(vec![element("a", vec![], vec![])]);
    let differences = compare(&one, &two);
    assert_eq!(differences.len(), 3, "{:?}", differences);
    let names = ["b", "", "c"];
    let contents = ["<b>", "t", "<c>"];
    for k in 0..3 {
        match differences[k] {
            Difference::NotPresent { ref elem, ref opposite_elem } => {
                assert_eq!(
                    *elem,
                    Some(ElementInformation {
                        element_name: names[k].to_owned(),
                        element_content: contents[k].to_owned(),
                        path: "".to_owned(),
                    })
                );
                assert_eq!(*opposite_elem, None);
            }
            _ => unreachable!(),
        }
    }
    let back = compare(&two, &one);
    assert_eq!(back.len(), 3, "{:?}", back);
    for k in 0..3 {
        match back[k] {
            Difference::NotPresent { ref elem, ref opposite_elem } => {
                assert_eq!(*elem, None);
                assert_eq!(opposite_elem.as_ref().map(|info| info.element_name.as_str()), Some(names[k]));
            }
            _ => unreachable!(),
        }
    }
}

#[test]
fn a_node_that_is_not_significant_takes_no_position() {
    let one = document(vec![
        Node::Comment,
        element("a", vec![], vec![]),
        text(" \n\t\u{a0}"),
        text(""),
        element("b", vec![], vec![Node::Comment]),
    ]);
    let two = document(vec![element("a", vec![], vec![]), element("b", vec![], vec![])]);
    assert_eq!(compare(&one, &two).len(), 0);
    assert_eq!(compare(&two, &one).len(), 0);
}

#[test]
fn nodes_that_are_neither_element_nor_text_match() {
    let one = document(vec![document(vec![text("x")])]);
    let two = document(vec![Node::Other { children: vec![text("y")], markup: "other".to_owned() }]);
    let differences = compare(&one, &two);
    assert_eq!(differences.len(), 1, "{:?}", differences);
    match differences[0] {
        Difference::NodeText { ref elem, ref elem_text, ref opposite_elem_text, .. } => {
            assert_eq!(elem.path, "");
            assert_eq!(elem_text, "x");
            assert_eq!(opposite_elem_text, "y");
        }
        _ => unreachable!(),
    }
}

#[test]
fn a_text_against_another_kind_is_a_difference_of_kind() {
    let one = document(vec![text("x")]);
    let two = document(vec![document(vec![])]);
    let differences = compare(&one, &two);
    assert_eq!(differences.len(), 1, "{:?}", differences);
    assert!(differences[0].is_node_type());
    assert_eq!(differences[0].to_string(), " => [Types differ]: expected \"\", found \"\"");
}

#[test]
fn the_last_value_of_a_repeated_attribute_counts() {
    let one = document(vec![element("a", vec![("k", "1"), ("m", "x"), ("k", "2")], vec![])]);
    let two = document(vec![element("a", vec![("m", "x"), ("k", "2")], vec![])]);
    assert_eq!(compare(&one, &two).len(), 0);
    let three = document(vec![element("a", vec![("k", "1"), ("m", "x")], vec![])]);
    let differences = compare(&one, &three);
    assert_eq!(differences.len(), 1, "{:?}", differences);
    match differences[0] {
        Difference::NodeAttributes { ref elem, ref elem_attributes, ref opposite_elem_attributes, .. } => {
            assert_eq!(elem.element_content, "<a \"k\"=\"1\" \"m\"=\"x\" \"k\"=\"2\"></a>");
            assert_eq!(elem_attributes.len(), 2);
            assert_eq!(elem_attributes.entries()[0].name, "k");
            assert_eq!(elem_attributes.entries()[0].value, "2");
            assert_eq!(elem_attributes.entries()[1].name, "m");
            assert_eq!(opposite_elem_attributes.get(&"".to_owned(), &"k".to_owned()), Some(&"1".to_owned()));
        }
        _ => unreachable!(),
    }
}

#[test]
fn the_count_of_matched_elements_starts_anew_below_each_element() {
    let one = document(vec![
        element("a", vec![], vec![element("x", vec![], vec![]), element("y", vec![], vec![text("1")])]),
        element("b", vec![], vec![element("z", vec![], vec![text("2")])]),
    ]);
    let two = document(vec![
        element("a", vec![], vec![element("x", vec![], vec![]), element("y", vec![], vec![text("3")])]),
        element("b", vec![], vec![element("z", vec![], vec![text("4")])]),
    ]);
    let differences = compare(&one, &two);
    assert_eq!(differences.len(), 2, "{:?}", differences);
    assert_eq!(
        differences[0].to_string(),
        "a[0]/y[1] => [Texts differ]: expected \"1\", found \"3\""
    );
    assert_eq!(
        differences[1].to_string(),
        "b[1]/z[0] => [Texts differ]: expected \"2\", found \"4\""
    );
}

fn named(namespace: &str, name: &str, attributes: Vec<(&str, &str, &str)>) -> Node {
    Node::Element(Element {
        namespace: namespace.to_owned(),
        name: name.to_owned(),
        attributes: attributes
            .into_iter()
            .map(|(namespace, name, value)| Attribute {
                namespace: namespace.to_owned(),
                name: name.to_owned(),
                value: value.to_owned(),
            })
            .collect(),
        children: vec![],
        markup: format!("<{}>", name),
    })
}

#[test]
fn elements_of_one_local_name_in_two_namespaces_differ_in_name() {
    let one = document(vec![named("http://www.w3.org/1999/xhtml", "a", vec![])]);
    let two = document(vec![named("http://www.w3.org/2000/svg", "a", vec![])]);
    let differences = compare(&one, &two);
    assert_eq!(differences.len(), 1, "{:?}", differences);
    assert!(differences[0].is_node_name());
    assert_eq!(differences[0].to_string(), " => [Tags differ]: expected \"a\", found \"a\"");
    assert_eq!(compare(&one, &one).len(), 0);
}

#[test]
fn an_attribute_is_found_by_namespace_and_local_name() {
    let one = document(vec![named("", "a", vec![("", "href", "x"), ("xlink", "href", "y")])]);
    let two = document(vec![named("", "a", vec![("xlink", "href", "y"), ("", "href", "x")])]);
    let three = document(vec![named("", "a", vec![("", "href", "y"), ("xlink", "href", "x")])]);
    let four = document(vec![named("", "a", vec![("", "href", "x")])]);
    assert_eq!(compare(&one, &two).len(), 0);
    assert_eq!(compare(&one, &three).len(), 1);
    assert!(compare(&one, &three)[0].is_node_attributes());
    assert_eq!(compare(&one, &four).len(), 1);
    assert_eq!(
        compare(&one, &four)[0].to_string(),
        " => [Attributes differ in \"a\"]: expected \"{\"href\": \"x\", \"href\": \"y\"}\", found \"{\"href\": \"x\"}\""
    );
}

#[test]
fn a_path_starts_with_what_the_caller_gave() {
    let one = document(vec![element("a", vec![], vec![text("x")])]);
    let two = document(vec![element("a", vec![], vec![text("y")])]);
    let mut path = vec!["top".to_owned(), "next[4]".to_owned()];
    let differences = go_through_tree(&one, &two, &mut path);
    assert_eq!(path, vec!["top".to_owned(), "next[4]".to_owned()]);
    assert_eq!(differences.len(), 1, "{:?}", differences);
    assert_eq!(
        differences[0].to_string(),
        "top/next[4]/a[0] => [Texts differ]: expected \"x\", found \"y\""
    );
}
