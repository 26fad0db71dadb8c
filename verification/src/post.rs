//! Posts: the framing of a post file into front matter and Markdown body,
//! and the hash map that a post is handed to templates as.

use vstd::prelude::*;
use vstd::string::StringExecFns;
use crate::markdown::{markdown_html, markdown_to_html};
use crate::text::{
    chars_of, find, first_occurrence, lemma_first_occurrence_is_least, skip_whitespace, string_of,
    trim_start,
};
use crate::value::{entry_views, lemma_view_entries, Value, ValueView};

verus! {

/// A post, ready for the templates.
#[derive(Debug, Clone)]
pub struct Post {
    pub title: String,
    pub date: String,
    pub content_html: String,
    pub file_path: String,
}

/// A post file, cut into its two parts.
#[derive(Debug, Clone)]
pub struct RawPost {
    /// The text between the opening `---` and the closing one.
    pub front_matter: String,
    /// The Markdown text after the closing `---`, without leading white space.
    pub markdown: String,
}

/// The line that opens and closes the front matter.
pub open spec fn fence() -> Seq<char> {
    seq!['-', '-', '-']
}

/// A closing fence: a fence at the start of a line.
pub open spec fn closing_fence() -> Seq<char> {
    seq!['\n', '-', '-', '-']
}

/// A closing fence that is a whole line.
pub open spec fn closing_fence_line() -> Seq<char> {
    seq!['\n', '-', '-', '-', '\n']
}

/// Whether `content` begins, after leading white space, with a fence.
pub open spec fn has_opening(content: Seq<char>) -> bool {
    fence().is_prefix_of(trim_start(content))
}

/// What follows the opening fence of `content`.
pub open spec fn after_opening(content: Seq<char>) -> Seq<char> {
    trim_start(content).skip(3)
}

/// Where the front matter of `rest` ends: at the first closing fence that is
/// a whole line or, where there is none, at the first closing fence.
pub open spec fn closing_index(rest: Seq<char>) -> Option<int> {
    match first_occurrence(rest, closing_fence_line()) {
        Some(i) => Some(i),
        None => first_occurrence(rest, closing_fence()),
    }
}

/// The failure of a post file that does not begin with a fence.
pub open spec fn missing_opening_message(file_path: Seq<char>) -> Seq<char> {
    "Invalid post format in "@ + file_path + ": must start with ---"@
}

/// The failure of a post file whose front matter is not closed.
pub open spec fn missing_closing_message(file_path: Seq<char>) -> Seq<char> {
    "Invalid post format in "@ + file_path + ": missing closing ---"@
}

/// The failure of a post file whose front matter is not the YAML expected.
pub open spec fn yaml_failure_message(file_path: Seq<char>, detail: Seq<char>) -> Seq<char> {
    "Failed to parse YAML frontmatter in "@ + file_path + ": "@ + detail
}

/// Cuts the text of a post file into front matter and Markdown body.
///
/// The file begins, after leading white space, with `---`. The front matter
/// runs up to the next line that begins with `---` (a line that is `---`
/// alone, where there is one). The body is what follows those four
/// characters, without its leading white space. A failure names `file_path`.
pub fn split_front_matter(file_path: &str, content: &str) -> (result: Result<RawPost, String>)
    ensures
        match result {
            Ok(raw) => {
                &&& has_opening(content@)
                &&& closing_index(after_opening(content@)) matches Some(end)
                &&& raw.front_matter@ == after_opening(content@).take(end)
                &&& raw.markdown@ == trim_start(after_opening(content@).skip(end + 4))
            },
            Err(message) => if has_opening(content@) {
                &&& closing_index(after_opening(content@)) is None
                &&& message@ == missing_closing_message(file_path@)
            } else {
                message@ == missing_opening_message(file_path@)
            },
        },
{
    let chars = chars_of(content);
    let n = chars.len();
    let begin = skip_whitespace(&chars, 0, n);
    assert(chars@.subrange(0, n as int) =~= chars@);
    let ghost trimmed = trim_start(content@);
    if n - begin < 3 || chars[begin] != '-' || chars[begin + 1] != '-' || chars[begin + 2] != '-' {
        assert(!has_opening(content@)) by {
            if fence().is_prefix_of(trimmed) {
                assert(trimmed[0] == fence()[0]);
                assert(trimmed[1] == fence()[1]);
                assert(trimmed[2] == fence()[2]);
            }
        }
        let mut message = String::from_str("Invalid post format in ");
        message.append(file_path);
        message.append(": must start with ---");
        return Err(message);
    }
    assert(has_opening(content@)) by {
        assert(trimmed.subrange(0, 3) =~= fence());
    }
    let mut rest: Vec<char> = Vec::new();
    let mut i: usize = begin + 3;
    while i < n
        invariant
            begin + 3 <= i <= n == chars.len(),
            rest@ == chars@.subrange(begin + 3, i as int),
        decreases n - i,
    {
        rest.push(chars[i]);
        i += 1;
    }
    assert(rest@ =~= after_opening(content@));
    let fence_line: Vec<char> = vec!['\n', '-', '-', '-', '\n'];
    let fence: Vec<char> = vec!['\n', '-', '-', '-'];
    assert(fence_line@ =~= closing_fence_line());
    assert(fence@ =~= closing_fence());
    let end = match find(&rest, &fence_line) {
        Some(end) => Some(end),
        None => find(&rest, &fence),
    };
    match end {
        None => {
            let mut message = String::from_str("Invalid post format in ");
            message.append(file_path);
            message.append(": missing closing ---");
            Err(message)
        },
        Some(end) => {
            proof {
                lemma_first_occurrence_is_least(rest@, closing_fence_line());
                lemma_first_occurrence_is_least(rest@, closing_fence());
            }
            let m = rest.len();
            let body = skip_whitespace(&rest, end + 4, m);
            assert(rest@.subrange(end + 4, m as int) =~= rest@.skip(end + 4));
            assert(rest@.subrange(0, end as int) =~= rest@.take(end as int));
            Ok(
                RawPost {
                    front_matter: string_of(&rest, 0, end),
                    markdown: string_of(&rest, body, m),
                },
            )
        },
    }
}

/// The failure to report when the front matter of the post file `file_path`
/// is not the YAML expected; `detail` says what is wrong with it.
pub fn yaml_failure(file_path: &str, detail: &str) -> (message: String)
    ensures
        message@ == yaml_failure_message(file_path@, detail@),
{
    let mut message = String::from_str("Failed to parse YAML frontmatter in ");
    message.append(file_path);
    message.append(": ");
    message.append(detail);
    message
}

/// The post of the file `file_path`, from the title and date of its front
/// matter and its Markdown body, which is converted to HTML.
pub fn build_post(file_path: &str, title: String, date: String, markdown: &str) -> (post: Post)
    ensures
        post.title@ == title@,
        post.date@ == date@,
        post.content_html@ == markdown_html(markdown@),
        post.file_path@ == file_path@,
{
    let content_html = markdown_to_html(markdown);
    Post { title, date, content_html, file_path: String::from_str(file_path) }
}

/// The hash map of a post: the symbol `id_key` with the text `id`, and the
/// symbols `title`, `date` and `content` with the post's title, date and HTML.
pub open spec fn post_hash(id_key: Seq<char>, id: Seq<char>, post: Post) -> ValueView {
    ValueView::Hash(
        seq![
            (ValueView::Symbol(id_key), ValueView::String(id)),
            (ValueView::Symbol("title"@), ValueView::String(post.title@)),
            (ValueView::Symbol("date"@), ValueView::String(post.date@)),
            (ValueView::Symbol("content"@), ValueView::String(post.content_html@)),
        ],
    )
}

/// The keys `title`, `date` and `content` differ in length.
pub(crate) proof fn lemma_keys_differ()
    ensures
        "title"@.len() == 5,
        "date"@.len() == 4,
        "content"@.len() == 7,
{
    reveal_strlit("title");
    reveal_strlit("date");
    reveal_strlit("content");
}

/// The hash map of a post, its first key being `id_key`.
pub(crate) fn keyed_post_hash(id_key: &str, id: &str, post: &Post) -> (hash: Value)
    requires
        id_key@ != "title"@,
        id_key@ != "date"@,
        id_key@ != "content"@,
    ensures
        hash@ == post_hash(id_key@, id@, *post),
        hash@.wf(),
{
    let mut entries: Vec<(Value, Value)> = Vec::new();
    entries.push((Value::Symbol(String::from_str(id_key)), Value::String(String::from_str(id))));
    entries.push((Value::Symbol(String::from_str("title")), Value::String(post.title.clone())));
    entries.push((Value::Symbol(String::from_str("date")), Value::String(post.date.clone())));
    entries.push(
        (Value::Symbol(String::from_str("content")), Value::String(post.content_html.clone())),
    );
    proof {
        lemma_view_entries(entries);
        let expected = post_hash(id_key@, id@, *post)->Hash_0;
        assert(entry_views(entries@) =~= expected);
        lemma_keys_differ();
        assert(crate::value::distinct_keys(expected));
        assert forall|i: int| 0 <= i < expected.len() implies (#[trigger] expected[i]).0.wf()
            && expected[i].1.wf() by {
            assert(expected[i].0 is Symbol);
            assert(expected[i].1 is String);
        }
    }
    Value::Hash(entries)
}

/// The hash map that a post is handed to templates as: the symbols `id`,
/// `title`, `date` and `content` with the post's identifier, title, date and
/// HTML as strings.
pub fn post_to_steel_hash(post_id: &str, post: &Post) -> (hash: Value)
    ensures
        hash@ == post_hash("id"@, post_id@, *post),
        hash@.wf(),
{
    proof {
        reveal_strlit("id");
        lemma_keys_differ();
        assert("id"@.len() == 2);
    }
    keyed_post_hash("id", post_id, post)
}

} // verus!
