use bower::sexp_html::{attrs_to_html, is_attr_list, sexp_to_html};
use bower::value::Value;

fn sym(s: &str) -> Value {
    Value::Symbol(s.to_string())
}

fn text(s: &str) -> Value {
    Value::String(s.to_string())
}

fn list(items: Vec<Value>) -> Value {
    Value::List(items)
}

#[test]
fn empty_list_after_tag_is_an_attribute_list() {
    let tree = list(vec![sym("div"), list(vec![])]);
    assert_eq!(sexp_to_html(&tree), "<div></div>");
}

#[test]
fn element_with_attribute_and_child() {
    let tree = list(vec![
        sym("a"),
        list(vec![list(vec![sym("href"), text("/x")])]),
        text("click"),
    ]);
    assert_eq!(sexp_to_html(&tree), "<a href=\"/x\">click</a>");
}

#[test]
fn nested_elements() {
    let tree = list(vec![
        sym("ul"),
        list(vec![sym("li"), text("one")]),
        list(vec![sym("li"), text("two")]),
    ]);
    assert_eq!(sexp_to_html(&tree), "<ul><li>one</li><li>two</li></ul>");
}

#[test]
fn vector_is_a_fragment() {
    let tree = Value::Vector(vec![text("a"), text("b")]);
    assert_eq!(sexp_to_html(&tree), "ab");
}

#[test]
fn empty_list_renders_to_nothing() {
    assert_eq!(sexp_to_html(&list(vec![])), "");
}

#[test]
fn empty_vector_renders_to_nothing() {
    assert_eq!(sexp_to_html(&Value::Vector(vec![])), "");
}

#[test]
fn strings_and_symbols_render_unescaped() {
    assert_eq!(sexp_to_html(&text("<b>bold</b> & \"more\"")), "<b>bold</b> & \"more\"");
    assert_eq!(sexp_to_html(&sym("a<b")), "a<b");
}

#[test]
fn integers_render_in_decimal() {
    assert_eq!(sexp_to_html(&Value::Int(0)), "0");
    assert_eq!(sexp_to_html(&Value::Int(7)), "7");
    assert_eq!(sexp_to_html(&Value::Int(10)), "10");
    assert_eq!(sexp_to_html(&Value::Int(42)), "42");
    assert_eq!(sexp_to_html(&Value::Int(-7)), "-7");
    assert_eq!(sexp_to_html(&Value::Int(1234567890)), "1234567890");
    assert_eq!(sexp_to_html(&Value::Int(i64::MAX)), "9223372036854775807");
    assert_eq!(sexp_to_html(&Value::Int(i64::MIN)), "-9223372036854775808");
}

#[test]
fn integers_render_as_std_formats_them() {
    let samples: Vec<i64> = vec![1, 9, 99, 100, 101, -1, -10, -99, -100, 65535, -4294967296];
    for n in samples {
        assert_eq!(sexp_to_html(&Value::Int(n)), n.to_string());
    }
}

#[test]
fn floats_render_as_their_text() {
    assert_eq!(sexp_to_html(&Value::Float(1.5f64.to_string())), "1.5");
    assert_eq!(sexp_to_html(&Value::Float((-0.25f64).to_string())), "-0.25");
}

#[test]
fn booleans_render_as_words() {
    assert_eq!(sexp_to_html(&Value::Bool(true)), "true");
    assert_eq!(sexp_to_html(&Value::Bool(false)), "false");
}

#[test]
fn null_and_hash_render_to_nothing() {
    assert_eq!(sexp_to_html(&Value::Null), "");
    assert_eq!(sexp_to_html(&Value::Hash(vec![(sym("k"), text("v"))])), "");
    let tree = list(vec![sym("p"), Value::Null, text("x"), Value::Hash(vec![])]);
    assert_eq!(sexp_to_html(&tree), "<p>x</p>");
}

#[test]
fn list_without_leading_symbol_is_a_fragment() {
    let tree = list(vec![text("a"), list(vec![sym("b"), text("c")]), Value::Int(3)]);
    assert_eq!(sexp_to_html(&tree), "a<b>c</b>3");
    let tree = list(vec![list(vec![]), sym("x")]);
    assert_eq!(sexp_to_html(&tree), "x");
}

#[test]
fn tag_alone_is_an_empty_element() {
    assert_eq!(sexp_to_html(&list(vec![sym("br")])), "<br></br>");
}

#[test]
fn second_item_that_is_no_attribute_list_is_a_child() {
    let tree = list(vec![sym("p"), list(vec![sym("em"), text("x"), text("y")])]);
    assert_eq!(sexp_to_html(&tree), "<p><em>xy</em></p>");
    let tree = list(vec![sym("p"), list(vec![text("only")])]);
    assert_eq!(sexp_to_html(&tree), "<p>only</p>");
    let tree = list(vec![sym("p"), Value::Vector(vec![])]);
    assert_eq!(sexp_to_html(&tree), "<p></p>");
}

#[test]
fn two_item_child_list_is_taken_for_attributes() {
    // (p ((b "x"))) has a second item whose members are all pairs.
    let tree = list(vec![sym("p"), list(vec![list(vec![sym("b"), text("x")])])]);
    assert_eq!(sexp_to_html(&tree), "<p b=\"x\"></p>");
}

#[test]
fn attributes_are_joined_by_spaces() {
    let tree = list(vec![
        sym("img"),
        list(vec![
            list(vec![sym("src"), text("a.png")]),
            list(vec![text("alt"), sym("logo")]),
            list(vec![sym("width"), Value::Int(120)]),
        ]),
    ]);
    assert_eq!(sexp_to_html(&tree), "<img src=\"a.png\" alt=\"logo\" width=\"120\"></img>");
}

#[test]
fn unsupported_attribute_pairs_are_left_out() {
    let tree = list(vec![
        sym("div"),
        list(vec![
            list(vec![Value::Int(1), text("x")]),
            list(vec![sym("id"), text("main")]),
            list(vec![sym("hidden"), Value::Bool(true)]),
            list(vec![sym("n"), Value::Float(2.5f64.to_string())]),
            list(vec![sym("data"), list(vec![])]),
        ]),
        text("body"),
    ]);
    assert_eq!(sexp_to_html(&tree), "<div id=\"main\">body</div>");
}

#[test]
fn attribute_list_without_supported_pairs_adds_no_space() {
    let tree = list(vec![
        sym("div"),
        list(vec![list(vec![Value::Null, Value::Null])]),
        text("c"),
    ]);
    assert_eq!(sexp_to_html(&tree), "<div>c</div>");
}

#[test]
fn attribute_values_are_not_escaped() {
    let tree = list(vec![sym("a"), list(vec![list(vec![sym("t"), text("\"<>")])])]);
    assert_eq!(sexp_to_html(&tree), "<a t=\"\"<>\"></a>");
}

#[test]
fn only_the_second_item_can_be_an_attribute_list() {
    let tree = list(vec![sym("p"), text("x"), list(vec![])]);
    assert_eq!(sexp_to_html(&tree), "<p>x</p>");
    let tree = list(vec![sym("p"), text("x"), list(vec![list(vec![sym("a"), text("b")])])]);
    assert_eq!(sexp_to_html(&tree), "<p>x<a>b</a></p>");
}

#[test]
fn rendering_twice_gives_the_same_text() {
    let build = || {
        list(vec![
            sym("section"),
            list(vec![list(vec![sym("class"), text("post")])]),
            list(vec![sym("h1"), text("Title")]),
            Value::Vector(vec![Value::Int(1), Value::Bool(false), Value::Null]),
        ])
    };
    let tree = build();
    let first = sexp_to_html(&tree);
    let second = sexp_to_html(&tree);
    assert_eq!(first, second);
    assert_eq!(first, sexp_to_html(&build()));
    assert_eq!(first, "<section class=\"post\"><h1>Title</h1>1false</section>");
}

#[test]
fn element_without_attributes_is_wrapped_in_its_tag() {
    let tags = vec!["p", "section", "x-y", ""];
    for tag in tags {
        let tree = list(vec![sym(tag), text("inner"), Value::Int(5)]);
        let html = sexp_to_html(&tree);
        assert!(html.starts_with(&format!("<{}>", tag)));
        assert!(html.ends_with(&format!("</{}>", tag)));
        assert_eq!(html, format!("<{}>inner5</{}>", tag, tag));
    }
}

#[test]
fn is_attr_list_accepts_lists_of_pairs() {
    assert!(is_attr_list(&vec![]));
    assert!(is_attr_list(&vec![list(vec![sym("a"), text("b")])]));
    assert!(is_attr_list(&vec![
        list(vec![sym("a"), text("b")]),
        list(vec![Value::Null, Value::Null]),
    ]));
}

#[test]
fn is_attr_list_refuses_anything_else() {
    assert!(!is_attr_list(&vec![text("a")]));
    assert!(!is_attr_list(&vec![list(vec![sym("a")])]));
    assert!(!is_attr_list(&vec![list(vec![sym("a"), text("b"), text("c")])]));
    assert!(!is_attr_list(&vec![list(vec![sym("a"), text("b")]), sym("c")]));
    assert!(!is_attr_list(&vec![Value::Vector(vec![sym("a"), text("b")])]));
    assert!(!is_attr_list(&vec![list(vec![])]));
}

#[test]
fn attrs_to_html_writes_each_supported_pair() {
    assert_eq!(attrs_to_html(&vec![]), "");
    assert_eq!(attrs_to_html(&vec![list(vec![sym("href"), text("/x")])]), " href=\"/x\"");
    assert_eq!(
        attrs_to_html(&vec![
            list(vec![text("a"), Value::Int(-3)]),
            list(vec![sym("b"), sym("c")]),
        ]),
        " a=\"-3\" b=\"c\""
    );
}

#[test]
fn attrs_to_html_passes_over_what_is_no_pair() {
    assert_eq!(
        attrs_to_html(&vec![
            text("loose"),
            list(vec![sym("one")]),
            list(vec![sym("k"), text("v")]),
            list(vec![sym("a"), text("b"), text("c")]),
            list(vec![Value::Bool(true), text("v")]),
        ]),
        " k=\"v\""
    );
}
