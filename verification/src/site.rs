//! The site build, as far as it computes: the template script with its
//! default helpers, the hash map of a post, and the pages that come out of the
//! templates' results.

use vstd::prelude::*;
use vstd::string::StringExecFns;
use crate::post::{keyed_post_hash, lemma_keys_differ, post_hash, Post};
use crate::sexp_html::{markup, sexp_to_html};
use crate::text::{chars_of, find, occurs};
use crate::value::{lemma_view_items, views, Value, ValueView};

verus! {

/// The default definition of `render-full-post`.
pub const HELPER_RENDER_FULL_POST: &'static str =
    "\n(define (render-full-post post)\n  (render-page (render-post post)))\n";

/// The default definition of `render-full-index`.
pub const HELPER_RENDER_FULL_INDEX: &'static str =
    "\n(define (render-full-index posts)\n  (render-page (render-index posts)))\n";

/// The default definition of `render-all-posts`.
pub const HELPER_RENDER_ALL_POSTS: &'static str =
    "\n(define (render-all-posts posts)\n  (map (lambda (post)\n         (list (hash-ref post 'filepath)\n               (render-full-post post)))\n       posts))\n";

/// How a definition of `render-full-post` begins.
pub const DEFINES_RENDER_FULL_POST: &'static str = "(define (render-full-post";

/// How a definition of `render-full-index` begins.
pub const DEFINES_RENDER_FULL_INDEX: &'static str = "(define (render-full-index";

/// How a definition of `render-all-posts` begins.
pub const DEFINES_RENDER_ALL_POSTS: &'static str = "(define (render-all-posts";

/// The line that every page begins with.
pub const DOCTYPE: &'static str = "<!DOCTYPE html>\n";

/// `helper`, unless `script` holds `definition`.
pub open spec fn helper_if_missing(
    script: Seq<char>,
    definition: Seq<char>,
    helper: Seq<char>,
) -> Seq<char> {
    if occurs(script, definition) {
        Seq::empty()
    } else {
        helper
    }
}

/// The default helpers that `site_scm` does not define itself, in the order
/// `render-full-post`, `render-full-index`, `render-all-posts`.
pub open spec fn missing_helpers(site_scm: Seq<char>) -> Seq<char> {
    helper_if_missing(site_scm, DEFINES_RENDER_FULL_POST@, HELPER_RENDER_FULL_POST@)
        + helper_if_missing(site_scm, DEFINES_RENDER_FULL_INDEX@, HELPER_RENDER_FULL_INDEX@)
        + helper_if_missing(site_scm, DEFINES_RENDER_ALL_POSTS@, HELPER_RENDER_ALL_POSTS@)
}

/// Appends `helper` to `script` unless `site` holds `definition`.
fn append_if_missing(script: &mut String, site: &Vec<char>, definition: &str, helper: &str)
    ensures
        final(script)@ == old(script)@ + helper_if_missing(site@, definition@, helper@),
{
    let needle = chars_of(definition);
    match find(site, &needle) {
        Some(_) => {
            assert(old(script)@ + Seq::<char>::empty() =~= old(script)@);
        },
        None => {
            script.append(helper);
        },
    }
}

/// The script to run for a site: the site's own script, followed by the
/// default helpers that it does not define.
pub fn site_script(site_scm: &str) -> (script: String)
    ensures
        script@ == site_scm@ + missing_helpers(site_scm@),
{
    let site = chars_of(site_scm);
    let mut script = String::from_str(site_scm);
    append_if_missing(&mut script, &site, DEFINES_RENDER_FULL_POST, HELPER_RENDER_FULL_POST);
    append_if_missing(&mut script, &site, DEFINES_RENDER_FULL_INDEX, HELPER_RENDER_FULL_INDEX);
    append_if_missing(&mut script, &site, DEFINES_RENDER_ALL_POSTS, HELPER_RENDER_ALL_POSTS);
    assert(script@ =~= site_scm@ + missing_helpers(site_scm@));
    script
}

/// The hash map that a post goes to the site's templates as: the symbols
/// `filepath`, `title`, `date` and `content` with the post's file name,
/// title, date and HTML as strings.
pub fn post_to_filepath_hash(filename: &str, post: &Post) -> (hash: Value)
    ensures
        hash@ == post_hash("filepath"@, filename@, *post),
        hash@.wf(),
{
    proof {
        reveal_strlit("filepath");
        lemma_keys_differ();
        assert("filepath"@.len() == 8);
    }
    keyed_post_hash("filepath", filename, post)
}

/// The text of a page: the doctype line, then the markup of `sexp`.
pub open spec fn page_text(sexp: ValueView) -> Seq<char> {
    DOCTYPE@ + markup(sexp)
}

/// The text of a whole page, from the tree that a template gave for it.
pub fn full_page(sexp: &Value) -> (html: String)
    ensures
        html@ == page_text(sexp@),
{
    let mut html = String::from_str(DOCTYPE);
    let body = sexp_to_html(sexp);
    html.append(body.as_str());
    html
}

/// A page to write: the path of its file and its text.
#[derive(Debug, Clone, PartialEq, Eq)]
pub struct Page {
    pub path: String,
    pub html: String,
}

/// The path of the page named `name`.
pub open spec fn page_path(name: Seq<char>) -> Seq<char> {
    "build/"@ + name + ".html"@
}

/// The page that `item` asks for, as path and text: `item` is a list of two,
/// a string that names the page and the page's tree. Anything else asks for
/// no page.
pub open spec fn page_of(item: ValueView) -> Option<(Seq<char>, Seq<char>)> {
    match item {
        ValueView::List(pair) => if pair.len() == 2 {
            match pair[0] {
                ValueView::String(name) => Some((page_path(name), page_text(pair[1]))),
                _ => None,
            }
        } else {
            None
        },
        _ => None,
    }
}

/// The pages that `items` ask for, in order.
pub open spec fn pages_of(items: Seq<ValueView>) -> Seq<(Seq<char>, Seq<char>)>
    decreases items.len(),
{
    if items.len() == 0 {
        Seq::empty()
    } else {
        match page_of(items.last()) {
            Some(page) => pages_of(items.drop_last()).push(page),
            None => pages_of(items.drop_last()),
        }
    }
}

/// The pages that the result of `render-all-posts` asks for: those of its
/// items where it is a list, none where it is anything else.
pub open spec fn rendered(result: ValueView) -> Seq<(Seq<char>, Seq<char>)> {
    match result {
        ValueView::List(items) => pages_of(items),
        _ => Seq::empty(),
    }
}

/// Paths and texts of `pages`, in order.
pub open spec fn page_views(pages: Seq<Page>) -> Seq<(Seq<char>, Seq<char>)> {
    Seq::new(pages.len(), |i: int| (pages[i].path@, pages[i].html@))
}

/// The pages to write for the result of `render-all-posts`: one for each item
/// that is a list of a file name and a tree, as `build/<name>.html`. Other
/// items are passed over.
pub fn rendered_pages(result: &Value) -> (pages: Vec<Page>)
    ensures
        page_views(pages@) == rendered(result@),
{
    let mut pages: Vec<Page> = Vec::new();
    if let Value::List(items) = result {
        proof {
            lemma_view_items(*items);
        }
        let ghost all = views(items@);
        let mut i: usize = 0;
        while i < items.len()
            invariant
                i <= items.len(),
                all == views(items@),
                page_views(pages@) == pages_of(all.take(i as int)),
            decreases items.len() - i,
        {
            let ghost before = page_views(pages@);
            proof {
                assert(all.take(i + 1).drop_last() =~= all.take(i as int));
            }
            if let Value::List(pair) = &items[i] {
                proof {
                    lemma_view_items(*pair);
                }
                if pair.len() == 2 {
                    if let Value::String(name) = &pair[0] {
                        let mut path = String::from_str("build/");
                        path.append(name.as_str());
                        path.append(".html");
                        let html = full_page(&pair[1]);
                        pages.push(Page { path, html });
                        assert(page_views(pages@) =~= before.push(
                            (page_path(name@), page_text(pair[1]@)),
                        ));
                    }
                }
            }
            i += 1;
        }
        assert(all.take(i as int) =~= all);
    }
    pages
}

} // verus!
