//! Posts and standalone pages: the records, how they are read from a file
//! with TOML front matter, and the file text written for them.
//!
//! Reading and writing the files themselves is left to the caller; the
//! functions here take and return the file names and texts.

use vstd::prelude::*;
use crate::front_matter::{parse_md_file, split_front_matter};
use crate::names::{file_stem, is_name_char, is_parent_dir, is_valid_name, is_valid_name_text, last_component, last_component_of, lemma_last_index_of_unique, stem_of};
use crate::text::chars_of;
use crate::toml_doc::{value_at, bool_at, date_text_at, extract_bool, extract_date_text, extract_string, extract_string_array, parse_toml, text_at, texts_at, toml_document, TomlTree, TomlValue};

verus! {

broadcast use vstd::string::group_string_axioms;

/// A standalone page (about, archives, ...).
#[derive(Debug, Clone)]
pub struct Page {
    pub name: String,
    pub title: String,
    pub draft: bool,
    pub content: String,
}

/// The front matter of a post.
#[derive(Debug, Clone)]
pub struct PostMeta {
    pub slug: String,
    pub title: String,
    pub date: String,
    pub description: String,
    pub categories: Vec<String>,
    pub tags: Vec<String>,
    pub draft: bool,
}

/// A whole post: front matter and body.
#[derive(Debug, Clone)]
pub struct Post {
    pub meta: PostMeta,
    pub content: String,
}

/// Why a post or page could not be read or written.
#[derive(Debug, Clone, Copy, PartialEq, Eq)]
pub enum ContentError {
    /// The file does not open with a `+++` front matter block.
    MissingFrontMatter,
    /// The front matter is not a TOML document.
    InvalidFrontMatter,
    /// The slug does not match `^[a-zA-Z0-9_\-]+$`.
    InvalidSlug,
    /// The page name does not match `^[a-zA-Z0-9_\-]+$`.
    InvalidPageName,
}

pub struct PageView {
    pub name: Seq<char>,
    pub title: Seq<char>,
    pub draft: bool,
    pub content: Seq<char>,
}

pub struct PostMetaView {
    pub slug: Seq<char>,
    pub title: Seq<char>,
    pub date: Seq<char>,
    pub description: Seq<char>,
    pub categories: Seq<Seq<char>>,
    pub tags: Seq<Seq<char>>,
    pub draft: bool,
}

pub struct PostView {
    pub meta: PostMetaView,
    pub content: Seq<char>,
}

/// The texts of a list of strings.
pub open spec fn texts_of(v: Seq<String>) -> Seq<Seq<char>> {
    v.map_values(|s: String| s@)
}

impl View for Page {
    type V = PageView;

    open spec fn view(&self) -> PageView {
        PageView { name: self.name@, title: self.title@, draft: self.draft, content: self.content@ }
    }
}

impl View for PostMeta {
    type V = PostMetaView;

    open spec fn view(&self) -> PostMetaView {
        PostMetaView {
            slug: self.slug@,
            title: self.title@,
            date: self.date@,
            description: self.description@,
            categories: texts_of(self.categories@),
            tags: texts_of(self.tags@),
            draft: self.draft,
        }
    }
}

impl View for Post {
    type V = PostView;

    open spec fn view(&self) -> PostView {
        PostView { meta: self.meta@, content: self.content@ }
    }
}

/// The front matter of the post `slug` read from the TOML document `doc`:
/// the strings `title` and `description`, the `date` (a string, or the text
/// of a date-time), the string arrays
/// `categories`, `tags`, and the boolean `draft` (false when absent).
pub open spec fn meta_from(slug: Seq<char>, doc: TomlTree) -> PostMetaView {
    PostMetaView {
        slug: slug,
        title: text_at(doc, "title"@),
        date: date_text_at(doc, "date"@),
        description: text_at(doc, "description"@),
        categories: texts_at(doc, "categories"@),
        tags: texts_at(doc, "tags"@),
        draft: bool_at(doc, "draft"@, false),
    }
}

/// What reading the post file named `name` with text `text` gives: its slug
/// is the file stem of `name`, its front matter comes from the TOML block,
/// its body is what follows the block.
pub open spec fn post_from_file_spec(name: Seq<char>, text: Seq<char>) -> Result<PostView, ContentError> {
    match split_front_matter(text) {
        None => Err(ContentError::MissingFrontMatter),
        Some((fm, body)) => match toml_document(fm) {
            None => Err(ContentError::InvalidFrontMatter),
            Some(doc) => Ok(PostView { meta: meta_from(file_stem(name), doc), content: body }),
        },
    }
}

/// `r` is `spec`, reading `Post`s by their views.
pub open spec fn post_result_is(r: Result<Post, ContentError>, spec: Result<PostView, ContentError>) -> bool {
    match r {
        Ok(p) => spec == Ok::<PostView, ContentError>(p@),
        Err(e) => spec == Err::<PostView, ContentError>(e),
    }
}

/// The post `slug` with front matter document `doc` and body `content`.
pub fn post_from_front_matter(slug: String, doc: &TomlValue, content: String) -> (r: Post)
    ensures
        r@ == (PostView { meta: meta_from(slug@, doc@), content: content@ }),
{
    let meta = PostMeta {
        slug,
        title: extract_string(doc, "title"),
        date: extract_date_text(doc, "date"),
        description: extract_string(doc, "description"),
        categories: extract_string_array(doc, "categories"),
        tags: extract_string_array(doc, "tags"),
        draft: extract_bool(doc, "draft", false),
    };
    Post { meta, content }
}

/// Reads the post file named `name` (a file name, no directory) whose text
/// is `text`.
pub fn post_from_file(name: &str, text: &str) -> (r: Result<Post, ContentError>)
    ensures
        post_result_is(r, post_from_file_spec(name@, text@)),
{
    match parse_md_file(text) {
        None => Err(ContentError::MissingFrontMatter),
        Some(parsed) => {
            match parse_toml(parsed.frontmatter.as_str()) {
                Err(_) => Err(ContentError::InvalidFrontMatter),
                Ok(doc) => Ok(post_from_front_matter(stem_of(name), &doc, parsed.content)),
            }
        },
    }
}

/// The file name that the post `slug` is read from: the last path component
/// of `{slug}.md`.
pub open spec fn post_read_name(slug: Seq<char>) -> Seq<char> {
    last_component(slug + ".md"@)
}

/// `s` followed by `.md`.
fn with_md(s: &str) -> (r: String)
    ensures
        r@ == s@ + ".md"@,
{
    let mut out = String::from_str(s);
    out.append(".md");
    out
}

/// The post `slug`, from the text `text` of its file `{slug}.md`.
/// As when the file is read, the slug of the result is the file stem of the
/// last path component of `{slug}.md`, which is `slug` for every valid slug.
pub fn get_post(slug: &str, text: &str) -> (r: Result<Post, ContentError>)
    ensures
        post_result_is(r, post_from_file_spec(post_read_name(slug@), text@)),
{
    let path = with_md(slug);
    let name = last_component_of(path.as_str());
    post_from_file(name.as_str(), text)
}

/// The file name of the post `slug`, `{slug}.md`, once the slug is checked.
pub open spec fn post_file_name_spec(slug: Seq<char>) -> Result<Seq<char>, ContentError> {
    if is_valid_name(slug) {
        Ok(slug + ".md"@)
    } else {
        Err(ContentError::InvalidSlug)
    }
}

/// The file name of the page `name`, `{name}.md`, once the name is checked.
pub open spec fn page_file_name_spec(name: Seq<char>) -> Result<Seq<char>, ContentError> {
    if is_valid_name(name) {
        Ok(name + ".md"@)
    } else {
        Err(ContentError::InvalidPageName)
    }
}

/// `r` is `spec`, reading `String`s by their texts.
pub open spec fn name_result_is(r: Result<String, ContentError>, spec: Result<Seq<char>, ContentError>) -> bool {
    match r {
        Ok(s) => spec == Ok::<Seq<char>, ContentError>(s@),
        Err(e) => spec == Err::<Seq<char>, ContentError>(e),
    }
}

/// Checks the slug of a post to delete and gives the name of its file.
pub fn delete_post(slug: &str) -> (r: Result<String, ContentError>)
    ensures
        name_result_is(r, post_file_name_spec(slug@)),
{
    if is_valid_name_text(slug) {
        Ok(with_md(slug))
    } else {
        Err(ContentError::InvalidSlug)
    }
}

/// Checks a page name and gives the name of its file.
pub fn page_file_name(name: &str) -> (r: Result<String, ContentError>)
    ensures
        name_result_is(r, page_file_name_spec(name@)),
{
    if is_valid_name_text(name) {
        Ok(with_md(name))
    } else {
        Err(ContentError::InvalidPageName)
    }
}

/// The page `name` as it reads when its file does not exist, or holds no
/// front matter: its name as title, not a draft, and the given body.
pub open spec fn plain_page(name: Seq<char>, content: Seq<char>) -> PageView {
    PageView { name: name, title: name, draft: false, content: content }
}

/// What reading the page `name` gives, where `text` is the text of its file,
/// or `None` when there is no such file.
pub open spec fn get_page_spec(name: Seq<char>, text: Option<Seq<char>>) -> Result<PageView, ContentError> {
    if !is_valid_name(name) {
        Err(ContentError::InvalidPageName)
    } else {
        match text {
            None => Ok(plain_page(name, Seq::empty())),
            Some(t) => match split_front_matter(t) {
                None => Ok(plain_page(name, t)),
                Some((fm, body)) => match toml_document(fm) {
                    None => Err(ContentError::InvalidFrontMatter),
                    Some(doc) => Ok(
                        PageView {
                            name: name,
                            title: text_at(doc, "title"@),
                            draft: bool_at(doc, "draft"@, false),
                            content: body,
                        },
                    ),
                },
            },
        }
    }
}

/// Reads the page `name` from the text of its file, `None` when the file
/// does not exist.
pub fn get_page(name: &str, text: Option<&str>) -> (r: Result<Page, ContentError>)
    ensures
        match r {
            Ok(p) => get_page_spec(name@, match text { Some(t) => Some(t@), None => None }) == Ok::<PageView, ContentError>(p@),
            Err(e) => get_page_spec(name@, match text { Some(t) => Some(t@), None => None }) == Err::<PageView, ContentError>(e),
        },
{
    if !is_valid_name_text(name) {
        return Err(ContentError::InvalidPageName);
    }
    match text {
        None => Ok(Page { name: String::from_str(name), title: String::from_str(name), draft: false, content: String::new() }),
        Some(t) => match parse_md_file(t) {
            None => Ok(Page { name: String::from_str(name), title: String::from_str(name), draft: false, content: String::from_str(t) }),
            Some(parsed) => match parse_toml(parsed.frontmatter.as_str()) {
                Err(_) => Err(ContentError::InvalidFrontMatter),
                Ok(doc) => Ok(
                    Page {
                        name: String::from_str(name),
                        title: extract_string(&doc, "title"),
                        draft: extract_bool(&doc, "draft", false),
                        content: parsed.content,
                    },
                ),
            },
        },
    }
}

/// A valid name, with `.md` added, is a single path component: it has no
/// `/`, it is neither `.` nor `..`, and its file stem is the name itself. So
/// the files of posts and pages stay in their directory, and a post read
/// under a valid slug carries that slug.
pub proof fn law_valid_names_stay_in_directory(name: Seq<char>)
    requires
        is_valid_name(name),
    ensures
        forall|i: int| 0 <= i < (name + ".md"@).len() ==> #[trigger] (name + ".md"@)[i] != '/',
        last_component(name + ".md"@) == name + ".md"@,
        file_stem(name + ".md"@) == name,
        post_read_name(name) == name + ".md"@,
        file_stem(post_read_name(name)) == name,
{
    reveal_strlit(".md");
    let p = name + ".md"@;
    assert(".md"@ =~= seq!['.', 'm', 'd']);
    assert forall|i: int| 0 <= i < p.len() implies #[trigger] p[i] != '/' by {
        if i < name.len() {
            assert(p[i] == name[i]);
            assert(is_name_char(name[i]));
        }
    }
    lemma_last_index_of_unique(p, '/', -1);
    assert(p.skip(0) =~= p);
    assert forall|j: int| name.len() < j < p.len() implies p[j] != '.' by {}
    lemma_last_index_of_unique(p, '.', name.len() as int);
    assert(p.take(name.len() as int) =~= name);
    if is_parent_dir(p) {
        assert(p.len() == 2);
    }
}

/// The draft flag written in the TOML front matter of the file text `t`:
/// `true` only where the front matter parses and holds `draft = true`.
pub open spec fn draft_written(t: Seq<char>) -> bool {
    match split_front_matter(t) {
        Some((fm, _)) => match toml_document(fm) {
            Some(doc) => value_at(doc, "draft"@) == Some(TomlTree::Boolean(true)),
            None => false,
        },
        None => false,
    }
}

/// A page reads as a draft only where its front matter says `draft = true`:
/// a missing page, a file without front matter, and front matter without a
/// boolean `draft` (or with `draft = false`) read as not a draft. A page
/// that reads has the name asked for.
pub proof fn law_page_is_draft_only_when_written(name: Seq<char>, text: Option<Seq<char>>)
    ensures
        get_page_spec(name, text) matches Ok(p) ==> p.name == name && (p.draft <==> match text {
            Some(t) => draft_written(t),
            None => false,
        }),
{
}

/// A post reads as a draft only where its front matter says `draft = true`;
/// without a boolean `draft` it is not a draft.
pub proof fn law_post_is_draft_only_when_written(name: Seq<char>, text: Seq<char>)
    ensures
        post_from_file_spec(name, text) matches Ok(p) ==> (p.meta.draft <==> draft_written(text)),
{
}

} // verus!
