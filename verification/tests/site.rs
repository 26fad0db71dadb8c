use bower::post::Post;
use bower::site::{
    full_page, post_to_filepath_hash, rendered_pages, site_script, Page, DOCTYPE,
    HELPER_RENDER_ALL_POSTS, HELPER_RENDER_FULL_INDEX, HELPER_RENDER_FULL_POST,
};
use bower::value::Value;

fn sym(s: &str) -> Value {
    Value::Symbol(s.to_string())
}

fn text(s: &str) -> Value {
    Value::String(s.to_string())
}

#[test]
fn helpers_are_worded() {
    assert_eq!(
        HELPER_RENDER_FULL_POST,
        "\n(define (render-full-post post)\n  (render-page (render-post post)))\n"
    );
    assert_eq!(
        HELPER_RENDER_FULL_INDEX,
        "\n(define (render-full-index posts)\n  (render-page (render-index posts)))\n"
    );
    assert_eq!(
        HELPER_RENDER_ALL_POSTS,
        "\n(define (render-all-posts posts)\n  (map (lambda (post)\n         (list (hash-ref post 'filepath)\n               (render-full-post post)))\n       posts))\n"
    );
    assert_eq!(DOCTYPE, "<!DOCTYPE html>\n");
}

#[test]
fn script_without_helpers_gets_all_three() {
    let site = "(define (render-page body) body)\n";
    let expected = format!(
        "{}{}{}{}",
        site, HELPER_RENDER_FULL_POST, HELPER_RENDER_FULL_INDEX, HELPER_RENDER_ALL_POSTS
    );
    assert_eq!(site_script(site), expected);
    assert_eq!(site_script(""), expected[site.len()..]);
}

#[test]
fn script_keeps_its_own_helpers() {
    let site = "(define (render-full-index posts) posts)\n";
    let expected = format!("{}{}{}", site, HELPER_RENDER_FULL_POST, HELPER_RENDER_ALL_POSTS);
    assert_eq!(site_script(site), expected);

    let site = "(define (render-full-post p) p)(define (render-all-posts ps) ps)";
    let expected = format!("{}{}", site, HELPER_RENDER_FULL_INDEX);
    assert_eq!(site_script(site), expected);
}

#[test]
fn script_with_every_helper_is_unchanged() {
    let site = "(define (render-full-post p) p)\n(define (render-full-index p) p)\n(define (render-all-posts p) p)\n";
    assert_eq!(site_script(site), site);
}

#[test]
fn helper_is_told_by_the_start_of_its_definition() {
    let site = "(define render-full-post 1) ; (define  (render-full-post";
    let expected = format!(
        "{}{}{}{}",
        site, HELPER_RENDER_FULL_POST, HELPER_RENDER_FULL_INDEX, HELPER_RENDER_ALL_POSTS
    );
    assert_eq!(site_script(site), expected);
    let site = "(define (render-full-postscript x) x)";
    let expected = format!("{}{}{}", site, HELPER_RENDER_FULL_INDEX, HELPER_RENDER_ALL_POSTS);
    assert_eq!(site_script(site), expected);
}

#[test]
fn filepath_hash_holds_filepath_title_date_and_content() {
    let post = Post {
        title: "Title".to_string(),
        date: "2025-01-01".to_string(),
        content_html: "<p>x</p>".to_string(),
        file_path: "posts/first.md".to_string(),
    };
    assert_eq!(
        post_to_filepath_hash("first", &post),
        Value::Hash(vec![
            (sym("filepath"), text("first")),
            (sym("title"), text("Title")),
            (sym("date"), text("2025-01-01")),
            (sym("content"), text("<p>x</p>")),
        ])
    );
}

#[test]
fn full_page_begins_with_the_doctype() {
    let tree = Value::List(vec![sym("html"), Value::List(vec![sym("body"), text("hi")])]);
    assert_eq!(full_page(&tree), "<!DOCTYPE html>\n<html><body>hi</body></html>");
    assert_eq!(full_page(&Value::Null), "<!DOCTYPE html>\n");
}

#[test]
fn one_page_for_each_named_tree() {
    let result = Value::List(vec![
        Value::List(vec![text("first"), Value::List(vec![sym("p"), text("1")])]),
        Value::List(vec![text("second"), text("plain")]),
    ]);
    assert_eq!(
        rendered_pages(&result),
        vec![
            Page {
                path: "build/first.html".to_string(),
                html: "<!DOCTYPE html>\n<p>1</p>".to_string(),
            },
            Page {
                path: "build/second.html".to_string(),
                html: "<!DOCTYPE html>\nplain".to_string(),
            },
        ]
    );
}

#[test]
fn items_that_name_no_page_are_passed_over() {
    let result = Value::List(vec![
        text("loose"),
        Value::List(vec![sym("name"), text("x")]),
        Value::List(vec![text("a")]),
        Value::List(vec![text("a"), text("b"), text("c")]),
        Value::Vector(vec![text("v"), text("x")]),
        Value::List(vec![text("kept"), Value::Int(7)]),
        Value::Null,
    ]);
    assert_eq!(
        rendered_pages(&result),
        vec![Page { path: "build/kept.html".to_string(), html: "<!DOCTYPE html>\n7".to_string() }]
    );
}

#[test]
fn result_that_is_no_list_gives_no_page() {
    assert_eq!(rendered_pages(&Value::Null), vec![]);
    assert_eq!(rendered_pages(&Value::List(vec![])), vec![]);
    let pair = vec![text("a"), text("b")];
    assert_eq!(rendered_pages(&Value::Vector(vec![Value::List(pair)])), vec![]);
    assert_eq!(rendered_pages(&text("x")), vec![]);
}
