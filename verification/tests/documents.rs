use html_diff::{get_differences, Difference, ElementInformation};

#[test]
fn basic_diff() {
    let original = "<div><foo></foo></div>";
    let other = "<div><p></p></div>";

    let differences = get_differences(original, other);
    assert_eq!(differences.len(), 1, "{:?}", differences);
    assert_eq!(differences[0].is_node_name(), true, "{:?}", differences[0]);
}

// Test if we stop correctly at first difference and don't go down.
#[test]
fn children_diff() {
    let original = "<div><foo><p></p></foo></div>";
    let other = "<div><p><t></t></p></div>";

    let differences = get_differences(original, other);
    assert_eq!(differences.len(), 1, "{:?}", differences);
    assert_eq!(differences[0].is_node_name(), true, "{:?}", differences[0]);
}

#[test]
fn check_child_below() {
    let original = "<div><foo></foo><a></a><b><c></c></b></div>";
    let other = "<div><foo></foo><a></a><b><c><d></d></c></b></div>";

    let differences = get_differences(original, other);
    assert_eq!(differences.len(), 1, "{:?}", differences);
    assert_eq!(differences[0].is_not_present(), true, "{:?}", differences[0]);
}

#[test]
fn test_path() {
    let original = "<div><foo></foo><a></a><b><c></c></b></div>";
    let other = "<div><foo></foo><a></a><b><c><d></d></c></b></div>";

    let differences = get_differences(original, other);
    assert_eq!(differences.len(), 1, "{:?}", differences);
    assert_eq!(differences[0].is_not_present(), true, "{:?}", differences[0]);
    match differences[0] {
        Difference::NotPresent { ref elem, ref opposite_elem } => {
            assert_eq!(elem.is_none(), true, "{:?}", elem);
            assert_eq!(opposite_elem.is_some(), true, "{:?}", opposite_elem);
            assert_eq!(*opposite_elem,
                       Some(ElementInformation {
                           element_name: "d".to_owned(),
                           element_content: "<d></d>".to_owned(),
                           path: "html[0]/body[1]/div[0]/b[2]/c[0]".to_owned(),
                       }),
                       "{:?}", opposite_elem);
        }
        _ => unreachable!(),
    }
    assert_eq!(differences[0].is_not_present(), true, "{:?}", differences[0]);
}

#[test]
fn identical_documents_have_no_difference() {
    let content = "<html><head><title>t</title></head><body><div id=\"a\"><p>one</p><p>two</p></div></body></html>";
    let differences = get_differences(content, content);
    assert_eq!(differences.len(), 0, "{:?}", differences);
}

#[test]
fn empty_documents_have_no_difference() {
    let differences = get_differences("", "");
    assert_eq!(differences.len(), 0, "{:?}", differences);
}

#[test]
fn missing_trailing_sibling_is_not_present() {
    let differences = get_differences("<div></div><p></p>", "<div></div>");
    assert_eq!(differences.len(), 1, "{:?}", differences);
    match differences[0] {
        Difference::NotPresent { ref elem, ref opposite_elem } => {
            assert_eq!(
                *elem,
                Some(ElementInformation {
                    element_name: "p".to_owned(),
                    element_content: "<p></p>".to_owned(),
                    path: "html[0]/body[1]".to_owned(),
                })
            );
            assert_eq!(*opposite_elem, None);
        }
        _ => unreachable!(),
    }
    assert_eq!(
        differences[0].to_string(),
        "html[0]/body[1] => [One element is missing]: expected \"p\""
    );
}

#[test]
fn extra_trailing_sibling_is_unexpected() {
    let differences = get_differences("<div></div>", "<div></div><p>x</p>");
    assert_eq!(differences.len(), 1, "{:?}", differences);
    assert!(differences[0].is_not_present());
    assert_eq!(
        differences[0].to_string(),
        "html[0]/body[1] => [Unexpected element \"p\"]: found \"<p>x</p>\""
    );
}

#[test]
fn comments_and_blank_texts_are_passed_over() {
    let with = "<div><!-- note --> <p></p>\n\t<!-- more --><span></span> </div>";
    let without = "<div><p></p><span></span></div>";
    assert_eq!(get_differences(with, without).len(), 0);
    assert_eq!(get_differences(without, with).len(), 0);
}

#[test]
fn a_text_that_is_not_blank_counts() {
    let differences = get_differences("<div> x <p></p></div>", "<div><p></p></div>");
    assert_eq!(differences.len(), 2, "{:?}", differences);
    assert!(differences[0].is_node_type());
    assert!(differences[1].is_not_present());
}

#[test]
fn texts_that_differ_are_reported_with_both_texts() {
    let differences = get_differences("<p>one</p>", "<p>two</p>");
    assert_eq!(differences.len(), 1, "{:?}", differences);
    assert!(differences[0].is_node_text());
    match differences[0] {
        Difference::NodeText { ref elem, ref elem_text, ref opposite_elem, ref opposite_elem_text } => {
            assert_eq!(elem_text, "one");
            assert_eq!(opposite_elem_text, "two");
            let place = ElementInformation {
                element_name: String::new(),
                element_content: String::new(),
                path: "html[0]/body[1]/p[0]".to_owned(),
            };
            assert_eq!(*elem, place);
            assert_eq!(*opposite_elem, place);
        }
        _ => unreachable!(),
    }
    assert_eq!(
        differences[0].to_string(),
        "html[0]/body[1]/p[0] => [Texts differ]: expected \"one\", found \"two\""
    );
}

#[test]
fn a_text_is_quoted_with_escapes_in_the_message() {
    let differences = get_differences("<p>say \"hi\"\\now</p>", "<p>x</p>");
    assert_eq!(differences.len(), 1, "{:?}", differences);
    assert_eq!(
        differences[0].to_string(),
        "html[0]/body[1]/p[0] => [Texts differ]: expected \"say \\\"hi\\\"\\\\now\", found \"x\""
    );
}

#[test]
fn names_that_differ_are_reported_with_both_elements() {
    let differences = get_differences("<div><foo id=\"x\">hello <b>you</b></foo></div>", "<div><p></p></div>");
    assert_eq!(differences.len(), 1, "{:?}", differences);
    match differences[0] {
        Difference::NodeName { ref elem, ref opposite_elem } => {
            assert_eq!(
                *elem,
                ElementInformation {
                    element_name: "foo".to_owned(),
                    element_content: "<foo \"id\"=\"x\">hello you</foo>".to_owned(),
                    path: "html[0]/body[1]/div[0]".to_owned(),
                }
            );
            assert_eq!(
                *opposite_elem,
                ElementInformation {
                    element_name: "p".to_owned(),
                    element_content: "<p ></p>".to_owned(),
                    path: "html[0]/body[1]/div[0]".to_owned(),
                }
            );
        }
        _ => unreachable!(),
    }
    assert_eq!(
        differences[0].to_string(),
        "html[0]/body[1]/div[0] => [Tags differ]: expected \"foo\", found \"p\""
    );
}

#[test]
fn attributes_that_differ_are_reported_once() {
    let differences = get_differences(
        "<p class=\"a\" id=\"one\" title=\"t\"></p>",
        "<p class=\"b\" id=\"two\"></p>",
    );
    assert_eq!(differences.len(), 1, "{:?}", differences);
    assert!(differences[0].is_node_attributes());
    match differences[0] {
        Difference::NodeAttributes { ref elem, ref elem_attributes, ref opposite_elem_attributes, .. } => {
            assert_eq!(elem.element_name, "p");
            assert_eq!(elem.path, "html[0]/body[1]");
            assert_eq!(elem_attributes.len(), 3);
            assert_eq!(opposite_elem_attributes.len(), 2);
            assert_eq!(elem_attributes.get(&"".to_owned(), &"class".to_owned()), Some(&"a".to_owned()));
            assert_eq!(opposite_elem_attributes.get(&"".to_owned(), &"class".to_owned()), Some(&"b".to_owned()));
            assert_eq!(opposite_elem_attributes.get(&"".to_owned(), &"title".to_owned()), None);
        }
        _ => unreachable!(),
    }
    assert_eq!(
        differences[0].to_string(),
        "html[0]/body[1] => [Attributes differ in \"p\"]: expected \"{\"class\": \"a\", \"id\": \"one\", \"title\": \"t\"}\", found \"{\"class\": \"b\", \"id\": \"two\"}\""
    );
}

#[test]
fn the_order_of_attributes_does_not_count() {
    let differences = get_differences("<p id=\"x\" class=\"a\"></p>", "<p class=\"a\" id=\"x\"></p>");
    assert_eq!(differences.len(), 0, "{:?}", differences);
}

#[test]
fn an_attribute_on_one_side_only_is_a_difference() {
    let differences = get_differences("<p></p>", "<p hidden></p>");
    assert_eq!(differences.len(), 1, "{:?}", differences);
    assert!(differences[0].is_node_attributes());
    assert_eq!(
        differences[0].to_string(),
        "html[0]/body[1] => [Attributes differ in \"p\"]: expected \"{}\", found \"{\"hidden\": \"\"}\""
    );
}

#[test]
fn kinds_that_differ_are_reported() {
    let differences = get_differences("<div><p></p></div>", "<div>text</div>");
    assert_eq!(differences.len(), 1, "{:?}", differences);
    assert!(differences[0].is_node_type());
    match differences[0] {
        Difference::NodeType { ref elem, ref opposite_elem } => {
            assert_eq!(elem.element_name, "p");
            assert_eq!(elem.element_content, "<p></p>");
            assert_eq!(opposite_elem.element_name, "");
            assert_eq!(opposite_elem.element_content, "text");
            assert_eq!(elem.path, "html[0]/body[1]/div[0]");
            assert_eq!(opposite_elem.path, "html[0]/body[1]/div[0]");
        }
        _ => unreachable!(),
    }
    assert_eq!(
        differences[0].to_string(),
        "html[0]/body[1]/div[0] => [Types differ]: expected \"p\", found \"\""
    );
}

#[test]
fn the_other_way_round_exchanges_the_sides() {
    let one = "<div><p class=\"a\">x</p><i>k</i><b></b></div>";
    let two = "<div><p class=\"b\">x</p><i>m</i></div>";
    let forth = get_differences(one, two);
    let back = get_differences(two, one);
    assert_eq!(forth.len(), 3, "{:?}", forth);
    assert_eq!(back.len(), 3, "{:?}", back);
    match (&forth[0], &back[0]) {
        (
            Difference::NodeAttributes { elem: e1, elem_attributes: a1, opposite_elem: o1, opposite_elem_attributes: oa1 },
            Difference::NodeAttributes { elem: e2, elem_attributes: a2, opposite_elem: o2, opposite_elem_attributes: oa2 },
        ) => {
            assert_eq!(e1, o2);
            assert_eq!(o1, e2);
            assert_eq!(a1.get(&"".to_owned(), &"class".to_owned()), oa2.get(&"".to_owned(), &"class".to_owned()));
            assert_eq!(oa1.get(&"".to_owned(), &"class".to_owned()), a2.get(&"".to_owned(), &"class".to_owned()));
            assert_eq!(e1.path, e2.path);
        }
        _ => unreachable!(),
    }
    match (&forth[1], &back[1]) {
        (
            Difference::NodeText { elem: e1, elem_text: t1, opposite_elem: o1, opposite_elem_text: ot1 },
            Difference::NodeText { elem: e2, elem_text: t2, opposite_elem: o2, opposite_elem_text: ot2 },
        ) => {
            assert_eq!(t1, ot2);
            assert_eq!(ot1, t2);
            assert_eq!(e1, o2);
            assert_eq!(o1, e2);
            assert_eq!(e1.path, "html[0]/body[1]/div[0]/i[0]");
        }
        _ => unreachable!(),
    }
    match (&forth[2], &back[2]) {
        (
            Difference::NotPresent { elem: e1, opposite_elem: o1 },
            Difference::NotPresent { elem: e2, opposite_elem: o2 },
        ) => {
            assert!(e1.is_some() && o1.is_none());
            assert_eq!(e1, o2);
            assert_eq!(o1, e2);
        }
        _ => unreachable!(),
    }
}

#[test]
fn nothing_below_a_pair_that_differs_is_reported() {
    let one = "<div><a><p>x</p><i></i></a><b>k</b></div>";
    let two = "<div><c><q>y</q></c><b>k</b></div>";
    let differences = get_differences(one, two);
    assert_eq!(differences.len(), 1, "{:?}", differences);
    assert!(differences[0].is_node_name());
}

#[test]
fn only_matched_elements_are_counted_in_a_path() {
    let one = "<div><a></a><x></x>text<c><p>one</p></c></div>";
    let two = "<div><a></a><y></y>text<c><p>two</p></c></div>";
    let differences = get_differences(one, two);
    assert_eq!(differences.len(), 2, "{:?}", differences);
    assert!(differences[0].is_node_name());
    assert!(differences[1].is_node_text());
    assert_eq!(
        differences[1].to_string(),
        "html[0]/body[1]/div[0]/c[1]/p[0] => [Texts differ]: expected \"one\", found \"two\""
    );
}

#[test]
fn attributes_of_one_local_name_in_two_namespaces_are_told_apart() {
    let one = "<svg><a href=\"x\" xlink:href=\"y\"></a></svg>";
    let two = "<svg><a href=\"z\" xlink:href=\"y\"></a></svg>";
    let differences = get_differences(one, two);
    assert_eq!(differences.len(), 1, "{:?}", differences);
    match differences[0] {
        Difference::NodeAttributes { ref elem, ref elem_attributes, ref opposite_elem_attributes, .. } => {
            assert_eq!(elem.path, "html[0]/body[1]/svg[0]");
            assert_eq!(elem_attributes.len(), 2);
            assert_eq!(elem_attributes.get(&"".to_owned(), &"href".to_owned()), Some(&"x".to_owned()));
            assert_eq!(opposite_elem_attributes.get(&"".to_owned(), &"href".to_owned()), Some(&"z".to_owned()));
            let xlink = "http://www.w3.org/1999/xlink".to_owned();
            assert_eq!(elem_attributes.get(&xlink, &"href".to_owned()), Some(&"y".to_owned()));
            assert_eq!(opposite_elem_attributes.get(&xlink, &"href".to_owned()), Some(&"y".to_owned()));
        }
        _ => unreachable!(),
    }
    assert_eq!(get_differences(one, one).len(), 0);
}

#[test]
fn a_place_at_the_top_is_empty() {
    let differences = get_differences("<!DOCTYPE html><p></p>", "<p></p>");
    assert_eq!(differences.len(), 2, "{:?}", differences);
    assert!(differences[0].is_node_type());
    assert!(differences[1].is_not_present());
    assert_eq!(
        differences[0].to_string(),
        " => [Types differ]: expected \"\", found \"html\""
    );
}
