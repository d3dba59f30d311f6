use ncblog::content::{delete_post, get_page, get_post, page_file_name, post_from_file, ContentError, Page, Post, PostMeta};
use ncblog::front_matter::parse_md_file;
use ncblog::names::{is_post_file, is_valid_name_text, last_component_of, stem_of};
use ncblog::post_list::{list_posts, sort_by_date_desc};
use ncblog::render::{page_file_text, post_file_text, save_page, save_post};

fn meta(slug: &str, title: &str, date: &str) -> PostMeta {
    PostMeta {
        slug: slug.to_string(),
        title: title.to_string(),
        date: date.to_string(),
        description: String::new(),
        categories: vec![],
        tags: vec![],
        draft: false,
    }
}

#[test]
fn splits_front_matter_and_body() {
    let p = parse_md_file("+++\ntitle = \"Hello\"\n+++\n\nBody text").unwrap();
    assert_eq!(p.frontmatter, "title = \"Hello\"");
    assert_eq!(p.content, "Body text");
}

#[test]
fn split_trims_front_matter_and_leading_newlines_only() {
    let p = parse_md_file("+++  \n a = 1 \n\n+++\n\n\n  Text\n").unwrap();
    assert_eq!(p.frontmatter, "a = 1");
    assert_eq!(p.content, "  Text\n");
}

#[test]
fn split_stops_at_first_marker() {
    let p = parse_md_file("+++\na\n+++\nb\n+++\nc").unwrap();
    assert_eq!(p.frontmatter, "a");
    assert_eq!(p.content, "b\n+++\nc");
}

#[test]
fn split_marker_may_start_right_after_opening() {
    let p = parse_md_file("+++\n+++rest").unwrap();
    assert_eq!(p.frontmatter, "");
    assert_eq!(p.content, "rest");
}

#[test]
fn split_needs_opening_and_closing() {
    assert!(parse_md_file("no front matter").is_none());
    assert!(parse_md_file("++").is_none());
    assert!(parse_md_file("+++\ntitle = \"x\"\n").is_none());
    assert!(parse_md_file("---\ntitle: x\n---\n").is_none());
    assert!(parse_md_file("").is_none());
}

#[test]
fn split_handles_non_ascii() {
    let p = parse_md_file("+++\ntitle = \"你好\"\n+++\n\n正文").unwrap();
    assert_eq!(p.frontmatter, "title = \"你好\"");
    assert_eq!(p.content, "正文");
}

#[test]
fn reads_post_fields() {
    let text = "+++\ntitle = \"Hello World\"\ndate = \"2026-04-14\"\ndescription = \"A short summary\"\ncategories = [\"Tech\"]\ntags = [\"rust\", 3, \"hugo\"]\ndraft = true\n+++\n\nYour content here...";
    let post = get_post("hello", text).unwrap();
    assert_eq!(post.meta.slug, "hello");
    assert_eq!(post.meta.title, "Hello World");
    assert_eq!(post.meta.date, "2026-04-14");
    assert_eq!(post.meta.description, "A short summary");
    assert_eq!(post.meta.categories, vec!["Tech".to_string()]);
    assert_eq!(post.meta.tags, vec!["rust".to_string(), "hugo".to_string()]);
    assert!(post.meta.draft);
    assert_eq!(post.content, "Your content here...");
}

#[test]
fn missing_fields_read_as_empty_and_not_draft() {
    let post = get_post("p", "+++\nother = 1\n+++\nbody").unwrap();
    assert_eq!(post.meta.title, "");
    assert_eq!(post.meta.date, "");
    assert_eq!(post.meta.description, "");
    assert!(post.meta.categories.is_empty());
    assert!(post.meta.tags.is_empty());
    assert!(!post.meta.draft);
}

#[test]
fn wrongly_typed_fields_read_as_empty() {
    let post = get_post("p", "+++\ntitle = 5\ncategories = \"x\"\ndraft = \"yes\"\n+++\nbody").unwrap();
    assert_eq!(post.meta.title, "");
    assert!(post.meta.categories.is_empty());
    assert!(!post.meta.draft);
}

#[test]
fn a_toml_date_time_reads_as_its_text() {
    let post = get_post("p", "+++\ntitle = \"T\"\ndate = 2026-04-14T09:00:00Z\n+++\nbody").unwrap();
    assert_eq!(post.meta.date, "2026-04-14T09:00:00Z");
    let post = get_post("p", "+++\ndate = 2026-04-14\n+++\n").unwrap();
    assert_eq!(post.meta.date, "2026-04-14");
    let post = get_post("p", "+++\ndate = 1979-05-27 07:32:00.500+08:00\n+++\n").unwrap();
    assert_eq!(post.meta.date, "1979-05-27T07:32:00.5+08:00");
    let post = get_post("p", "+++\ndate = 2026\n+++\n").unwrap();
    assert_eq!(post.meta.date, "");
}

fn readme_post() -> Post {
    Post {
        meta: PostMeta {
            slug: "hello-world".to_string(),
            title: "Hello World".to_string(),
            date: "2026-04-14T09:00:00Z".to_string(),
            description: "A short summary".to_string(),
            categories: vec!["Tech".to_string()],
            tags: vec!["rust".to_string(), "hugo".to_string()],
            draft: false,
        },
        content: "Your content here...\n".to_string(),
    }
}

fn same_post(a: &Post, b: &Post) {
    assert_eq!(a.meta.slug, b.meta.slug);
    assert_eq!(a.meta.title, b.meta.title);
    assert_eq!(a.meta.date, b.meta.date);
    assert_eq!(a.meta.description, b.meta.description);
    assert_eq!(a.meta.categories, b.meta.categories);
    assert_eq!(a.meta.tags, b.meta.tags);
    assert_eq!(a.meta.draft, b.meta.draft);
    assert_eq!(a.content, b.content);
}

#[test]
fn readme_example_post_reads() {
    let text = "+++\ntitle = \"Hello World\"\ndate = 2026-04-14T09:00:00Z\ndescription = \"A short summary\"\ncategories = [\"Tech\"]\ntags = [\"rust\", \"hugo\"]\ndraft = false\n+++\n\nYour content here...\n";
    same_post(&get_post("hello-world", text).unwrap(), &readme_post());
}

#[test]
fn readme_example_post_saves_and_reads_back() {
    let post = readme_post();
    let (name, text) = save_post(&post).unwrap();
    assert_eq!(name, "hello-world.md");
    same_post(&get_post("hello-world", &text).unwrap(), &post);
}

#[test]
fn quotes_in_categories_and_tags_are_escaped() {
    let mut post = readme_post();
    post.meta.categories = vec!["Say \"hi\"".to_string()];
    post.meta.tags = vec!["a\"b".to_string(), "c".to_string()];
    let (_, text) = save_post(&post).unwrap();
    assert!(text.contains("categories = [\"Say \\\"hi\\\"\"]\ntags = [\"a\\\"b\", \"c\"]\n"));
    same_post(&get_post("hello-world", &text).unwrap(), &post);
}

#[test]
fn post_errors() {
    assert_eq!(get_post("p", "just text").unwrap_err(), ContentError::MissingFrontMatter);
    assert_eq!(get_post("p", "+++\ntitle = \n+++\nbody").unwrap_err(), ContentError::InvalidFrontMatter);
}

#[test]
fn slug_comes_from_the_file_name() {
    let text = "+++\ntitle = \"x\"\n+++\n";
    assert_eq!(get_post("a/b", text).unwrap().meta.slug, "b");
    assert_eq!(get_post("", text).unwrap().meta.slug, ".md");
    assert_eq!(get_post("a.b", text).unwrap().meta.slug, "a.b");
    assert_eq!(post_from_file("x.md", text).unwrap().meta.slug, "x");
}

#[test]
fn file_name_helpers() {
    assert!(is_post_file("a.md"));
    assert!(is_post_file("a.b.md"));
    assert!(!is_post_file(".md"));
    assert!(!is_post_file("a.MD"));
    assert!(!is_post_file("a.md.bak"));
    assert!(!is_post_file("md"));
    assert!(is_post_file("..md"));
    assert_eq!(stem_of("a.b.md"), "a.b");
    assert_eq!(stem_of(".md"), ".md");
    assert_eq!(stem_of("noext"), "noext");
    assert_eq!(stem_of(".."), "");
    assert_eq!(stem_of(""), "");
    assert_eq!(last_component_of("x/y/z.md"), "z.md");
    assert_eq!(last_component_of("z.md"), "z.md");
}

#[test]
fn names_are_checked() {
    assert!(is_valid_name_text("hello-world_2"));
    assert!(!is_valid_name_text(""));
    assert!(!is_valid_name_text("a b"));
    assert!(!is_valid_name_text("../etc"));
    assert!(!is_valid_name_text("a.md"));
    assert!(!is_valid_name_text("名"));
    assert!(!is_valid_name_text("abc\n"));
}

#[test]
fn saves_post_text() {
    let post = Post {
        meta: PostMeta {
            slug: "hello".to_string(),
            title: "Say \"hi\"".to_string(),
            date: "2026-04-14T09:00:00Z".to_string(),
            description: "A \"short\" one".to_string(),
            categories: vec!["Tech".to_string()],
            tags: vec!["rust".to_string(), "hugo".to_string()],
            draft: false,
        },
        content: "Body".to_string(),
    };
    let (name, text) = save_post(&post).unwrap();
    assert_eq!(name, "hello.md");
    assert_eq!(
        text,
        "+++\ntitle = \"Say \\\"hi\\\"\"\ndate = 2026-04-14T09:00:00Z\ndescription = \"A \\\"short\\\" one\"\ncategories = [\"Tech\"]\ntags = [\"rust\", \"hugo\"]\ndraft = false\n+++\n\nBody"
    );
    assert_eq!(post_file_text(&post), text);
}

#[test]
fn saves_empty_lists() {
    let post = Post { meta: meta("e", "", ""), content: String::new() };
    let (_, text) = save_post(&post).unwrap();
    assert_eq!(
        text,
        "+++\ntitle = \"\"\ndate = \ndescription = \"\"\ncategories = []\ntags = []\ndraft = false\n+++\n\n"
    );
}

#[test]
fn refuses_bad_slug() {
    let post = Post { meta: meta("../evil", "t", "d"), content: String::new() };
    assert_eq!(save_post(&post).unwrap_err(), ContentError::InvalidSlug);
    let post = Post { meta: meta("", "t", "d"), content: String::new() };
    assert_eq!(save_post(&post).unwrap_err(), ContentError::InvalidSlug);
}

#[test]
fn saved_post_reads_back() {
    let post = Post {
        meta: PostMeta {
            slug: "round".to_string(),
            title: "Round \"trip\"".to_string(),
            date: "\"2026-04-14\"".to_string(),
            description: "desc".to_string(),
            categories: vec!["A".to_string(), "B".to_string()],
            tags: vec!["t".to_string()],
            draft: true,
        },
        content: "\n\nHello\nworld\n".to_string(),
    };
    let (name, text) = save_post(&post).unwrap();
    let back = post_from_file(&name, &text).unwrap();
    assert_eq!(back.meta.slug, "round");
    assert_eq!(back.meta.title, "Round \"trip\"");
    assert_eq!(back.meta.date, "2026-04-14");
    assert_eq!(back.meta.description, "desc");
    assert_eq!(back.meta.categories, vec!["A".to_string(), "B".to_string()]);
    assert_eq!(back.meta.tags, vec!["t".to_string()]);
    assert!(back.meta.draft);
    assert_eq!(back.content, "Hello\nworld\n");
}

#[test]
fn saved_file_splits_back() {
    let post = Post { meta: meta("s", "T", "2026-01-01"), content: "\nbody".to_string() };
    let (_, text) = save_post(&post).unwrap();
    let parts = parse_md_file(&text).unwrap();
    assert_eq!(
        parts.frontmatter,
        "title = \"T\"\ndate = 2026-01-01\ndescription = \"\"\ncategories = []\ntags = []\ndraft = false"
    );
    assert_eq!(parts.content, "body");
}

#[test]
fn delete_checks_slug() {
    assert_eq!(delete_post("old-post").unwrap(), "old-post.md");
    assert_eq!(delete_post("../x").unwrap_err(), ContentError::InvalidSlug);
    assert_eq!(delete_post("").unwrap_err(), ContentError::InvalidSlug);
}

#[test]
fn page_file_names() {
    assert_eq!(page_file_name("about").unwrap(), "about.md");
    assert_eq!(page_file_name("a/b").unwrap_err(), ContentError::InvalidPageName);
}

#[test]
fn missing_page_is_empty() {
    let p = get_page("about", None).unwrap();
    assert_eq!(p.name, "about");
    assert_eq!(p.title, "about");
    assert!(!p.draft);
    assert_eq!(p.content, "");
}

#[test]
fn page_without_front_matter_is_all_body() {
    let p = get_page("archives", Some("plain text\n")).unwrap();
    assert_eq!(p.title, "archives");
    assert!(!p.draft);
    assert_eq!(p.content, "plain text\n");
}

#[test]
fn page_with_front_matter() {
    let p = get_page("about", Some("+++\ntitle = \"About me\"\ndraft = true\n+++\n\nHi")).unwrap();
    assert_eq!(p.name, "about");
    assert_eq!(p.title, "About me");
    assert!(p.draft);
    assert_eq!(p.content, "Hi");
}

#[test]
fn page_errors() {
    assert_eq!(get_page("bad name", None).unwrap_err(), ContentError::InvalidPageName);
    assert_eq!(get_page("about", Some("+++\n= =\n+++\n")).unwrap_err(), ContentError::InvalidFrontMatter);
}

#[test]
fn saves_page_text_and_reads_it_back() {
    let page = Page { name: "about".to_string(), title: "About \"me\"".to_string(), draft: true, content: "Hello".to_string() };
    let (name, text) = save_page(&page).unwrap();
    assert_eq!(name, "about.md");
    assert_eq!(text, "+++\ntitle = \"About \\\"me\\\"\"\ndraft = true\n+++\n\nHello");
    assert_eq!(page_file_text(&page), text);
    let back = get_page("about", Some(&text)).unwrap();
    assert_eq!(back.title, "About \"me\"");
    assert!(back.draft);
    assert_eq!(back.content, "Hello");
    let bad = Page { name: "a.b".to_string(), title: String::new(), draft: false, content: String::new() };
    assert_eq!(save_page(&bad).unwrap_err(), ContentError::InvalidPageName);
}

fn file(name: &str, title: &str, date: &str) -> (String, String) {
    (name.to_string(), format!("+++\ntitle = \"{}\"\ndate = \"{}\"\n+++\nbody", title, date))
}

#[test]
fn lists_posts_newest_first_keeping_ties_in_order() {
    let files = vec![
        file("a.md", "A", "2024-01-01"),
        file("b.md", "B", "2025-06-01"),
        ("notes.txt".to_string(), "+++\ntitle = \"N\"\n+++\n".to_string()),
        file("c.md", "C", "2024-01-01"),
        ("broken.md".to_string(), "no front matter".to_string()),
        file("d.md", "D", "2026-01-01"),
        file("e.md", "E", "2024-01-01"),
    ];
    let list = list_posts(files);
    let slugs: Vec<&str> = list.iter().map(|m| m.slug.as_str()).collect();
    assert_eq!(slugs, vec!["d", "b", "a", "c", "e"]);
    assert_eq!(list[0].title, "D");
}

#[test]
fn lists_nothing_from_nothing() {
    assert!(list_posts(vec![]).is_empty());
}

#[test]
fn date_order_is_by_characters() {
    let metas = vec![meta("x", "", "2024-1"), meta("y", "", "2024-10"), meta("z", "", ""), meta("w", "", "2024-10")];
    let sorted = sort_by_date_desc(metas);
    let slugs: Vec<&str> = sorted.iter().map(|m| m.slug.as_str()).collect();
    assert_eq!(slugs, vec!["y", "w", "x", "z"]);
}

#[test]
fn lists_readme_format_posts_newest_first_with_dates() {
    let files = vec![
        ("a.md".to_string(), "+++\ntitle = \"A\"\ndate = 2026-01-01T00:00:00Z\n+++\n".to_string()),
        ("b.md".to_string(), "+++\ntitle = \"B\"\ndate = 2026-04-14T09:00:00Z\n+++\n".to_string()),
    ];
    let list = list_posts(files);
    assert_eq!(list.len(), 2);
    assert_eq!(list[0].slug, "b");
    assert_eq!(list[0].date, "2026-04-14T09:00:00Z");
    assert_eq!(list[1].slug, "a");
    assert_eq!(list[1].date, "2026-01-01T00:00:00Z");
}
