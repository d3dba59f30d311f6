//! Site settings kept in `hugo.toml`: the fields the admin panel edits, how
//! they are read from the document, and how writing them changes it.

use vstd::prelude::*;
use crate::text::same_text;
use crate::toml_doc::{
    entries_view, entry_value, extract_string, get, lemma_entries_view, parse_toml, pretty_toml, text_at,
    toml_document, toml_pretty_text, value_at, TomlTree, TomlValue,
};

verus! {

broadcast use vstd::string::group_string_axioms;

/// The editable site settings.
#[derive(Debug, Clone)]
pub struct SiteConfig {
    pub title: String,
    pub base_url: String,
    pub description: String,
    pub author: String,
    pub bio: String,
    pub github: String,
    pub twitter: String,
    pub email: String,
}

pub struct SiteConfigView {
    pub title: Seq<char>,
    pub base_url: Seq<char>,
    pub description: Seq<char>,
    pub author: Seq<char>,
    pub bio: Seq<char>,
    pub github: Seq<char>,
    pub twitter: Seq<char>,
    pub email: Seq<char>,
}

impl View for SiteConfig {
    type V = SiteConfigView;

    open spec fn view(&self) -> SiteConfigView {
        SiteConfigView {
            title: self.title@,
            base_url: self.base_url@,
            description: self.description@,
            author: self.author@,
            bio: self.bio@,
            github: self.github@,
            twitter: self.twitter@,
            email: self.email@,
        }
    }
}

/// Why the settings could not be read or written.
#[derive(Debug, Clone, Copy, PartialEq, Eq)]
pub enum ConfigError {
    /// `hugo.toml` is not a TOML document.
    InvalidToml,
    /// The updated document could not be written as TOML.
    SerializeFailed,
}

/// The text at `key` of `v`, where there is a `v`.
pub open spec fn text_in(v: Option<TomlTree>, key: Seq<char>) -> Seq<char> {
    match v {
        Some(t) => text_at(t, key),
        None => Seq::empty(),
    }
}

/// The table `params` of the document.
pub open spec fn params_of(doc: TomlTree) -> Option<TomlTree> {
    value_at(doc, "params"@)
}

/// The table `params.social` of the document.
pub open spec fn social_of(doc: TomlTree) -> Option<TomlTree> {
    match params_of(doc) {
        Some(p) => value_at(p, "social"@),
        None => None,
    }
}

/// The settings read from `doc`: `title`, `baseURL` and `description` at the
/// top, `author` and `bio` in `params`, `github`, `twitter` and `email` in
/// `params.social`; a missing or non-string field reads as empty.
pub open spec fn config_from(doc: TomlTree) -> SiteConfigView {
    SiteConfigView {
        title: text_at(doc, "title"@),
        base_url: text_at(doc, "baseURL"@),
        description: text_at(doc, "description"@),
        author: text_in(params_of(doc), "author"@),
        bio: text_in(params_of(doc), "bio"@),
        github: text_in(social_of(doc), "github"@),
        twitter: text_in(social_of(doc), "twitter"@),
        email: text_in(social_of(doc), "email"@),
    }
}

/// The position of the first entry with key `key`, or -1.
pub open spec fn key_position(entries: Seq<(Seq<char>, TomlTree)>, key: Seq<char>) -> int
    decreases entries.len(),
{
    if entries.len() == 0 {
        -1
    } else if entries[0].0 == key {
        0
    } else {
        let k = key_position(entries.drop_first(), key);
        if k < 0 {
            -1
        } else {
            k + 1
        }
    }
}

/// The table `entries` with `key` set to `value`, as a map insert does:
/// the entry of `key` gets the new value, or a new entry is added at the end.
pub open spec fn table_insert(entries: Seq<(Seq<char>, TomlTree)>, key: Seq<char>, value: TomlTree) -> Seq<(Seq<char>, TomlTree)> {
    let k = key_position(entries, key);
    if k >= 0 {
        entries.update(k, (key, value))
    } else {
        entries.push((key, value))
    }
}

/// The table `entries` with an empty table added under `key` where `key`
/// has no entry (`entry(key).or_insert(Table::new())`).
pub open spec fn table_with_entry(entries: Seq<(Seq<char>, TomlTree)>, key: Seq<char>) -> Seq<(Seq<char>, TomlTree)> {
    if key_position(entries, key) >= 0 {
        entries
    } else {
        entries.push((key, TomlTree::Table(Seq::empty())))
    }
}

/// The table `entries` with `f` applied to the value of `key`, once an
/// empty table has been added there where `key` had no entry.
pub open spec fn with_entry_changed(
    entries: Seq<(Seq<char>, TomlTree)>,
    key: Seq<char>,
    f: spec_fn(TomlTree) -> TomlTree,
) -> Seq<(Seq<char>, TomlTree)> {
    let t = table_with_entry(entries, key);
    let k = key_position(t, key);
    t.update(k, (key, f(t[k].1)))
}

/// `params.social` after writing the settings: the three links set, if it
/// is a table; unchanged otherwise.
pub open spec fn social_written(social: TomlTree, cfg: SiteConfigView) -> TomlTree {
    match social {
        TomlTree::Table(s) => TomlTree::Table(
            table_insert(
                table_insert(table_insert(s, "github"@, TomlTree::Text(cfg.github)), "twitter"@, TomlTree::Text(cfg.twitter)),
                "email"@,
                TomlTree::Text(cfg.email),
            ),
        ),
        other => other,
    }
}

/// `params` after writing the settings: `author` and `bio` set and `social`
/// written (added if missing), if it is a table; unchanged otherwise.
pub open spec fn params_written(params: TomlTree, cfg: SiteConfigView) -> TomlTree {
    match params {
        TomlTree::Table(p) => TomlTree::Table(
            with_entry_changed(
                table_insert(table_insert(p, "author"@, TomlTree::Text(cfg.author)), "bio"@, TomlTree::Text(cfg.bio)),
                "social"@,
                |s: TomlTree| social_written(s, cfg),
            ),
        ),
        other => other,
    }
}

/// The document after writing the settings: `title`, `baseURL` and
/// `description` set and `params` written (added if missing), if the
/// document is a table; unchanged otherwise.
pub open spec fn config_written(doc: TomlTree, cfg: SiteConfigView) -> TomlTree {
    match doc {
        TomlTree::Table(t) => TomlTree::Table(
            with_entry_changed(
                table_insert(
                    table_insert(table_insert(t, "title"@, TomlTree::Text(cfg.title)), "baseURL"@, TomlTree::Text(cfg.base_url)),
                    "description"@,
                    TomlTree::Text(cfg.description),
                ),
                "params"@,
                |p: TomlTree| params_written(p, cfg),
            ),
        ),
        other => other,
    }
}

/// `key_position` finds the first entry with the key.
pub proof fn lemma_key_position(entries: Seq<(Seq<char>, TomlTree)>, key: Seq<char>)
    ensures
        -1 <= key_position(entries, key) < entries.len(),
        key_position(entries, key) >= 0 ==> entries[key_position(entries, key)].0 == key,
        forall|j: int| 0 <= j < entries.len() && (key_position(entries, key) < 0 || j < key_position(entries, key))
            ==> #[trigger] entries[j].0 != key,
    decreases entries.len(),
{
    if entries.len() > 0 && entries[0].0 != key {
        let t = entries.drop_first();
        lemma_key_position(t, key);
        assert forall|j: int| 0 <= j < entries.len() && (key_position(entries, key) < 0 || j < key_position(entries, key))
            implies #[trigger] entries[j].0 != key by {
            if j > 0 {
                assert(entries[j] == t[j - 1]);
            }
        }
    }
}

/// A position with the key, and no earlier one, is the position.
pub proof fn lemma_key_position_is(entries: Seq<(Seq<char>, TomlTree)>, key: Seq<char>, k: int)
    requires
        -1 <= k < entries.len(),
        k >= 0 ==> entries[k].0 == key,
        forall|j: int| 0 <= j < entries.len() && (k < 0 || j < k) ==> #[trigger] entries[j].0 != key,
    ensures
        key_position(entries, key) == k,
{
    lemma_key_position(entries, key);
    let p = key_position(entries, key);
    if p >= 0 && (k < 0 || p < k) {
        assert(entries[p].0 != key);
    } else if k >= 0 && (p < 0 || k < p) {
        assert(entries[k].0 != key);
    }
}

/// The value found for a key is the value at its first position.
pub proof fn lemma_entry_value_position(entries: Seq<(Seq<char>, TomlTree)>, key: Seq<char>)
    ensures
        entry_value(entries, key) == if key_position(entries, key) >= 0 {
            Some(entries[key_position(entries, key)].1)
        } else {
            None::<TomlTree>
        },
    decreases entries.len(),
{
    if entries.len() > 0 && entries[0].0 != key {
        let t = entries.drop_first();
        lemma_entry_value_position(t, key);
        lemma_key_position(t, key);
        let k = key_position(t, key);
        if k >= 0 {
            assert(entries[k + 1] == t[k]);
        }
    }
}

/// After setting `key`, the table holds `value` there and is unchanged
/// at every other key.
pub proof fn lemma_insert_lookup(e: Seq<(Seq<char>, TomlTree)>, key: Seq<char>, value: TomlTree, other: Seq<char>)
    ensures
        entry_value(table_insert(e, key, value), other) == if other == key {
            Some(value)
        } else {
            entry_value(e, other)
        },
{
    let r = table_insert(e, key, value);
    let p = key_position(e, key);
    lemma_key_position(e, key);
    lemma_key_position(e, other);
    lemma_entry_value_position(e, other);
    lemma_entry_value_position(r, other);
    let q = key_position(e, other);
    if p >= 0 {
        assert(r == e.update(p, (key, value)));
        if other == key {
            assert forall|j: int| 0 <= j < r.len() && j < p implies #[trigger] r[j].0 != other by {
                assert(r[j] == e[j]);
            }
            lemma_key_position_is(r, other, p);
        } else {
            assert forall|j: int| 0 <= j < r.len() && (q < 0 || j < q) implies #[trigger] r[j].0 != other by {
                if j != p {
                    assert(r[j] == e[j]);
                }
            }
            if q >= 0 {
                assert(r[q] == e[q]);
            }
            lemma_key_position_is(r, other, q);
        }
    } else {
        assert(r == e.push((key, value)));
        if other == key {
            assert forall|j: int| 0 <= j < r.len() && j < e.len() implies #[trigger] r[j].0 != other by {
                assert(r[j] == e[j]);
            }
            lemma_key_position_is(r, other, e.len() as int);
        } else {
            assert forall|j: int| 0 <= j < r.len() && (q < 0 || j < q) implies #[trigger] r[j].0 != other by {
                if j < e.len() {
                    assert(r[j] == e[j]);
                }
            }
            if q >= 0 {
                assert(r[q] == e[q]);
            }
            lemma_key_position_is(r, other, q);
        }
    }
}

/// After changing the entry `key` with `f` (an empty table standing in for
/// a missing entry), the table holds `f` of the old value there and is
/// unchanged at every other key.
pub proof fn lemma_changed_lookup(
    e: Seq<(Seq<char>, TomlTree)>,
    key: Seq<char>,
    f: spec_fn(TomlTree) -> TomlTree,
    other: Seq<char>,
)
    ensures
        entry_value(with_entry_changed(e, key, f), other) == if other == key {
            Some(
                f(
                    match entry_value(e, key) {
                        Some(x) => x,
                        None => TomlTree::Table(Seq::empty()),
                    },
                ),
            )
        } else {
            entry_value(e, other)
        },
{
    let t = table_with_entry(e, key);
    lemma_key_position(e, key);
    lemma_entry_value_position(e, key);
    let p0 = key_position(e, key);
    if p0 < 0 {
        assert forall|j: int| 0 <= j < t.len() && j < e.len() implies #[trigger] t[j].0 != key by {
            assert(t[j] == e[j]);
        }
        lemma_key_position_is(t, key, e.len() as int);
        lemma_insert_lookup(e, key, TomlTree::Table(Seq::empty()), other);
        assert(table_insert(e, key, TomlTree::Table(Seq::empty())) == t);
    } else {
        assert(t == e);
    }
    let k = key_position(t, key);
    lemma_key_position(t, key);
    lemma_entry_value_position(t, key);
    assert(t[k].0 == key);
    assert(t.update(k, (key, f(t[k].1))) == table_insert(t, key, f(t[k].1)));
    lemma_insert_lookup(t, key, f(t[k].1), other);
}

/// The keys that writing the settings sets are told apart.
proof fn lemma_config_keys_distinct()
    ensures
        "title"@ != "baseURL"@,
        "title"@ != "description"@,
        "title"@ != "params"@,
        "baseURL"@ != "description"@,
        "baseURL"@ != "params"@,
        "description"@ != "params"@,
        "author"@ != "bio"@,
        "author"@ != "social"@,
        "bio"@ != "social"@,
        "github"@ != "twitter"@,
        "github"@ != "email"@,
        "twitter"@ != "email"@,
{
    reveal_strlit("title");
    reveal_strlit("baseURL");
    reveal_strlit("description");
    reveal_strlit("params");
    reveal_strlit("author");
    reveal_strlit("bio");
    reveal_strlit("social");
    reveal_strlit("github");
    reveal_strlit("twitter");
    reveal_strlit("email");
    assert("author"@[0] != "social"@[0]);
    assert("title"@.len() != "baseURL"@.len());
    assert("title"@.len() != "description"@.len());
    assert("github"@.len() != "twitter"@.len());
}

/// There is a value, and it is a table.
pub open spec fn holds_table(v: Option<TomlTree>) -> bool {
    match v {
        Some(t) => t is Table,
        None => false,
    }
}

/// The value standing in for a missing table entry.
pub open spec fn or_empty_table(v: Option<TomlTree>) -> TomlTree {
    match v {
        Some(x) => x,
        None => TomlTree::Table(Seq::empty()),
    }
}

/// Writing the settings into a document and reading them back gives the
/// settings written. This holds of every document that is a table and whose
/// `params` and `params.social`, where present, are tables; where one of
/// them is some other value, writing leaves it as it is.
pub proof fn law_written_config_reads_back(doc: TomlTree, cfg: SiteConfigView)
    requires
        doc is Table,
        match params_of(doc) {
            Some(p) => p is Table,
            None => true,
        },
        match social_of(doc) {
            Some(x) => x is Table,
            None => true,
        },
    ensures
        config_from(config_written(doc, cfg)) == cfg,
{
    lemma_config_keys_distinct();
    let t = doc->Table_0;
    let i1 = table_insert(t, "title"@, TomlTree::Text(cfg.title));
    let i2 = table_insert(i1, "baseURL"@, TomlTree::Text(cfg.base_url));
    let i3 = table_insert(i2, "description"@, TomlTree::Text(cfg.description));
    let f = |p: TomlTree| params_written(p, cfg);
    let w = with_entry_changed(i3, "params"@, f);
    assert(config_written(doc, cfg) == TomlTree::Table(w));
    // the top-level strings
    lemma_changed_lookup(i3, "params"@, f, "title"@);
    lemma_changed_lookup(i3, "params"@, f, "baseURL"@);
    lemma_changed_lookup(i3, "params"@, f, "description"@);
    lemma_changed_lookup(i3, "params"@, f, "params"@);
    lemma_insert_lookup(i2, "description"@, TomlTree::Text(cfg.description), "title"@);
    lemma_insert_lookup(i2, "description"@, TomlTree::Text(cfg.description), "baseURL"@);
    lemma_insert_lookup(i2, "description"@, TomlTree::Text(cfg.description), "description"@);
    lemma_insert_lookup(i2, "description"@, TomlTree::Text(cfg.description), "params"@);
    lemma_insert_lookup(i1, "baseURL"@, TomlTree::Text(cfg.base_url), "title"@);
    lemma_insert_lookup(i1, "baseURL"@, TomlTree::Text(cfg.base_url), "baseURL"@);
    lemma_insert_lookup(i1, "baseURL"@, TomlTree::Text(cfg.base_url), "params"@);
    lemma_insert_lookup(t, "title"@, TomlTree::Text(cfg.title), "title"@);
    lemma_insert_lookup(t, "title"@, TomlTree::Text(cfg.title), "params"@);
    // params
    let old_params = or_empty_table(params_of(doc));
    assert(entry_value(i3, "params"@) == params_of(doc));
    let p = old_params->Table_0;
    let j1 = table_insert(p, "author"@, TomlTree::Text(cfg.author));
    let j2 = table_insert(j1, "bio"@, TomlTree::Text(cfg.bio));
    let g = |x: TomlTree| social_written(x, cfg);
    let wp = with_entry_changed(j2, "social"@, g);
    assert(params_of(config_written(doc, cfg)) == Some(TomlTree::Table(wp)));
    lemma_changed_lookup(j2, "social"@, g, "author"@);
    lemma_changed_lookup(j2, "social"@, g, "bio"@);
    lemma_changed_lookup(j2, "social"@, g, "social"@);
    lemma_insert_lookup(j1, "bio"@, TomlTree::Text(cfg.bio), "author"@);
    lemma_insert_lookup(j1, "bio"@, TomlTree::Text(cfg.bio), "bio"@);
    lemma_insert_lookup(j1, "bio"@, TomlTree::Text(cfg.bio), "social"@);
    lemma_insert_lookup(p, "author"@, TomlTree::Text(cfg.author), "author"@);
    lemma_insert_lookup(p, "author"@, TomlTree::Text(cfg.author), "social"@);
    // params.social
    let old_social = or_empty_table(entry_value(p, "social"@));
    assert(entry_value(j2, "social"@) == entry_value(p, "social"@));
    match params_of(doc) {
        Some(pp) => {
            assert(entry_value(p, "social"@) == social_of(doc));
        },
        None => {
            assert(entry_value(p, "social"@) is None);
        },
    }
    let s0 = old_social->Table_0;
    let k1 = table_insert(s0, "github"@, TomlTree::Text(cfg.github));
    let k2 = table_insert(k1, "twitter"@, TomlTree::Text(cfg.twitter));
    lemma_insert_lookup(k2, "email"@, TomlTree::Text(cfg.email), "github"@);
    lemma_insert_lookup(k2, "email"@, TomlTree::Text(cfg.email), "twitter"@);
    lemma_insert_lookup(k2, "email"@, TomlTree::Text(cfg.email), "email"@);
    lemma_insert_lookup(k1, "twitter"@, TomlTree::Text(cfg.twitter), "github"@);
    lemma_insert_lookup(k1, "twitter"@, TomlTree::Text(cfg.twitter), "twitter"@);
    lemma_insert_lookup(s0, "github"@, TomlTree::Text(cfg.github), "github"@);
    assert(social_of(config_written(doc, cfg)) == Some(g(old_social)));
}

/// Writing the settings changes nothing but what it writes: a document
/// that is not a table stays as it is; every other entry of the document,
/// of its `params` table and of its `params.social` table reads as before.
pub proof fn law_config_write_keeps_other_settings(doc: TomlTree, cfg: SiteConfigView, key: Seq<char>)
    ensures
        !(doc is Table) ==> config_written(doc, cfg) == doc,
        key != "title"@ && key != "baseURL"@ && key != "description"@ && key != "params"@
            ==> value_at(config_written(doc, cfg), key) == value_at(doc, key),
        (doc is Table && holds_table(params_of(doc)) && key != "author"@ && key != "bio"@
            && key != "social"@) ==> value_at(params_of(config_written(doc, cfg))->Some_0, key)
            == value_at(params_of(doc)->Some_0, key),
        (doc is Table && holds_table(params_of(doc)) && holds_table(social_of(doc))
            && key != "github"@ && key != "twitter"@ && key != "email"@) ==> value_at(
            social_of(config_written(doc, cfg))->Some_0,
            key,
        ) == value_at(social_of(doc)->Some_0, key),
{
    lemma_config_keys_distinct();
    if doc is Table {
        let t = doc->Table_0;
        let i1 = table_insert(t, "title"@, TomlTree::Text(cfg.title));
        let i2 = table_insert(i1, "baseURL"@, TomlTree::Text(cfg.base_url));
        let i3 = table_insert(i2, "description"@, TomlTree::Text(cfg.description));
        let f = |p: TomlTree| params_written(p, cfg);
        lemma_changed_lookup(i3, "params"@, f, key);
        lemma_insert_lookup(i2, "description"@, TomlTree::Text(cfg.description), key);
        lemma_insert_lookup(i1, "baseURL"@, TomlTree::Text(cfg.base_url), key);
        lemma_insert_lookup(t, "title"@, TomlTree::Text(cfg.title), key);
        lemma_changed_lookup(i3, "params"@, f, "params"@);
        lemma_insert_lookup(i2, "description"@, TomlTree::Text(cfg.description), "params"@);
        lemma_insert_lookup(i1, "baseURL"@, TomlTree::Text(cfg.base_url), "params"@);
        lemma_insert_lookup(t, "title"@, TomlTree::Text(cfg.title), "params"@);
        if holds_table(params_of(doc)) {
            let pp = params_of(doc)->Some_0;
            let p = pp->Table_0;
            let j1 = table_insert(p, "author"@, TomlTree::Text(cfg.author));
            let j2 = table_insert(j1, "bio"@, TomlTree::Text(cfg.bio));
            let g = |x: TomlTree| social_written(x, cfg);
            let wp = with_entry_changed(j2, "social"@, g);
            assert(params_of(config_written(doc, cfg)) == Some(TomlTree::Table(wp)));
            lemma_changed_lookup(j2, "social"@, g, key);
            lemma_insert_lookup(j1, "bio"@, TomlTree::Text(cfg.bio), key);
            lemma_insert_lookup(p, "author"@, TomlTree::Text(cfg.author), key);
            lemma_changed_lookup(j2, "social"@, g, "social"@);
            lemma_insert_lookup(j1, "bio"@, TomlTree::Text(cfg.bio), "social"@);
            lemma_insert_lookup(p, "author"@, TomlTree::Text(cfg.author), "social"@);
            if holds_table(social_of(doc)) {
                let xx = social_of(doc)->Some_0;
                let s0 = xx->Table_0;
                let k1 = table_insert(s0, "github"@, TomlTree::Text(cfg.github));
                let k2 = table_insert(k1, "twitter"@, TomlTree::Text(cfg.twitter));
                assert(social_of(config_written(doc, cfg)) == Some(g(xx)));
                lemma_insert_lookup(k2, "email"@, TomlTree::Text(cfg.email), key);
                lemma_insert_lookup(k1, "twitter"@, TomlTree::Text(cfg.twitter), key);
                lemma_insert_lookup(s0, "github"@, TomlTree::Text(cfg.github), key);
            }
        }
    }
}

/// The views of `e` with the entry at `k` replaced by `x`.
proof fn lemma_entries_view_update(e: Seq<(String, TomlValue)>, k: int, x: (String, TomlValue))
    requires
        0 <= k < e.len(),
    ensures
        entries_view(e.update(k, x)) == entries_view(e).update(k, (x.0@, x.1@)),
{
    lemma_entries_view(e);
    lemma_entries_view(e.update(k, x));
    assert(entries_view(e.update(k, x)) =~= entries_view(e).update(k, (x.0@, x.1@)));
}

/// The views of `e` with `x` added at the end.
proof fn lemma_entries_view_push(e: Seq<(String, TomlValue)>, x: (String, TomlValue))
    ensures
        entries_view(e.push(x)) == entries_view(e).push((x.0@, x.1@)),
{
    assert(e.push(x).drop_last() =~= e);
}

/// Where the first entry with key `key` is.
fn position_of(entries: &Vec<(String, TomlValue)>, key: &str) -> (r: Option<usize>)
    ensures
        match r {
            Some(i) => i as int == key_position(entries_view(entries@), key@),
            None => key_position(entries_view(entries@), key@) == -1,
        },
{
    let ghost ev = entries_view(entries@);
    proof {
        lemma_entries_view(entries@);
    }
    let mut i: usize = 0;
    while i < entries.len()
        invariant
            i <= entries.len(),
            ev == entries_view(entries@),
            ev.len() == entries@.len(),
            forall|k: int| 0 <= k < entries@.len() ==> #[trigger] ev[k] == (entries@[k].0@, entries@[k].1@),
            forall|j: int| 0 <= j < i ==> #[trigger] ev[j].0 != key@,
        decreases entries.len() - i,
    {
        if same_text(entries[i].0.as_str(), key) {
            proof {
                lemma_key_position_is(ev, key@, i as int);
            }
            return Some(i);
        }
        i = i + 1;
    }
    proof {
        lemma_key_position_is(ev, key@, -1);
    }
    None
}

/// Sets `key` to `value` in the table `entries` (`Map::insert`).
fn insert_entry(entries: Vec<(String, TomlValue)>, key: &str, value: TomlValue) -> (r: Vec<(String, TomlValue)>)
    ensures
        entries_view(r@) == table_insert(entries_view(entries@), key@, value@),
{
    let mut entries = entries;
    let ghost before = entries@;
    let item = (String::from_str(key), value);
    match position_of(&entries, key) {
        Some(i) => {
            proof {
                lemma_key_position(entries_view(before), key@);
                lemma_entries_view(before);
            }
            entries.set(i, item);
            proof {
                lemma_entries_view_update(before, i as int, item);
            }
        },
        None => {
            entries.push(item);
            proof {
                lemma_entries_view_push(before, item);
            }
        },
    }
    entries
}

/// Adds an empty table under `key` where `key` has no entry
/// (`entry(key).or_insert(Table::new())`), and tells where the entry is.
fn entry_or_table(entries: Vec<(String, TomlValue)>, key: &str) -> (r: (Vec<(String, TomlValue)>, usize))
    ensures
        entries_view(r.0@) == table_with_entry(entries_view(entries@), key@),
        r.1 as int == key_position(table_with_entry(entries_view(entries@), key@), key@),
        r.1 < r.0@.len(),
{
    let mut entries = entries;
    let ghost before = entries@;
    proof {
        lemma_entries_view(before);
    }
    match position_of(&entries, key) {
        Some(i) => {
            proof {
                lemma_key_position(entries_view(before), key@);
            }
            (entries, i)
        },
        None => {
            let item = (String::from_str(key), TomlValue::Table(Vec::new()));
            let n = entries.len();
            entries.push(item);
            proof {
                lemma_entries_view_push(before, item);
                assert(item.1@ == TomlTree::Table(Seq::empty()));
                let t = table_with_entry(entries_view(before), key@);
                assert(t == entries_view(before).push((key@, TomlTree::Table(Seq::empty()))));
                lemma_key_position(entries_view(before), key@);
                assert forall|j: int| 0 <= j < t.len() && j < n implies #[trigger] t[j].0 != key@ by {
                    assert(t[j] == entries_view(before)[j]);
                }
                lemma_key_position_is(t, key@, n as int);
            }
            (entries, n)
        },
    }
}

/// `params.social` with the three links of `cfg` set, if it is a table.
fn write_social(social: TomlValue, cfg: &SiteConfig) -> (r: TomlValue)
    ensures
        r@ == social_written(social@, cfg@),
{
    match social {
        TomlValue::Table(s) => {
            let s = insert_entry(s, "github", TomlValue::Text(cfg.github.clone()));
            let s = insert_entry(s, "twitter", TomlValue::Text(cfg.twitter.clone()));
            let s = insert_entry(s, "email", TomlValue::Text(cfg.email.clone()));
            TomlValue::Table(s)
        },
        other => other,
    }
}

/// `params` with `author`, `bio` and the links of `cfg` set, if it is a table.
fn write_params(params: TomlValue, cfg: &SiteConfig) -> (r: TomlValue)
    ensures
        r@ == params_written(params@, cfg@),
{
    match params {
        TomlValue::Table(p) => {
            let ghost pv = entries_view(p@);
            let p = insert_entry(p, "author", TomlValue::Text(cfg.author.clone()));
            let p = insert_entry(p, "bio", TomlValue::Text(cfg.bio.clone()));
            let ghost t0 = entries_view(p@);
            let (mut p, k) = entry_or_table(p, "social");
            let ghost before = p@;
            proof {
                lemma_entries_view(before);
            }
            let (key, social) = p.remove(k);
            let social = write_social(social, cfg);
            let item = (key, social);
            p.insert(k, item);
            proof {
                assert(p@ =~= before.update(k as int, item));
                lemma_entries_view_update(before, k as int, item);
                let t = table_with_entry(t0, "social"@);
                lemma_key_position(t, "social"@);
                assert(key@ == "social"@);
                assert(entries_view(p@) =~= with_entry_changed(t0, "social"@, |s: TomlTree| social_written(s, cfg@)));
            }
            TomlValue::Table(p)
        },
        other => other,
    }
}

/// The document `doc` with the settings `cfg` written into it, as
/// `write_site_config` changes it (see `config_written`).
pub fn apply_site_config(doc: TomlValue, cfg: &SiteConfig) -> (r: TomlValue)
    ensures
        r@ == config_written(doc@, cfg@),
{
    match doc {
        TomlValue::Table(t) => {
            let t = insert_entry(t, "title", TomlValue::Text(cfg.title.clone()));
            let t = insert_entry(t, "baseURL", TomlValue::Text(cfg.base_url.clone()));
            let t = insert_entry(t, "description", TomlValue::Text(cfg.description.clone()));
            let ghost t0 = entries_view(t@);
            let (mut t, k) = entry_or_table(t, "params");
            let ghost before = t@;
            proof {
                lemma_entries_view(before);
            }
            let (key, params) = t.remove(k);
            let params = write_params(params, cfg);
            let item = (key, params);
            t.insert(k, item);
            proof {
                assert(t@ =~= before.update(k as int, item));
                lemma_entries_view_update(before, k as int, item);
                let tt = table_with_entry(t0, "params"@);
                lemma_key_position(tt, "params"@);
                assert(key@ == "params"@);
                assert(entries_view(t@) =~= with_entry_changed(t0, "params"@, |p: TomlTree| params_written(p, cfg@)));
            }
            TomlValue::Table(t)
        },
        other => other,
    }
}

/// The text at `key` of `v`, where there is a `v`.
fn text_in_exec(v: Option<&TomlValue>, key: &str) -> (r: String)
    ensures
        r@ == text_in(match v { Some(x) => Some(x@), None => None }, key@),
{
    match v {
        Some(x) => extract_string(x, key),
        None => String::new(),
    }
}

/// The settings read from the document `doc` (see `config_from`).
pub fn config_from_document(doc: &TomlValue) -> (r: SiteConfig)
    ensures
        r@ == config_from(doc@),
{
    let params = get(doc, "params");
    let social = match params {
        Some(p) => get(p, "social"),
        None => None,
    };
    SiteConfig {
        title: extract_string(doc, "title"),
        base_url: extract_string(doc, "baseURL"),
        description: extract_string(doc, "description"),
        author: text_in_exec(params, "author"),
        bio: text_in_exec(params, "bio"),
        github: text_in_exec(social, "github"),
        twitter: text_in_exec(social, "twitter"),
        email: text_in_exec(social, "email"),
    }
}

/// What reading the settings from the text `content` of `hugo.toml` gives.
pub open spec fn read_site_config_spec(content: Seq<char>) -> Result<SiteConfigView, ConfigError> {
    match toml_document(content) {
        None => Err(ConfigError::InvalidToml),
        Some(doc) => Ok(config_from(doc)),
    }
}

/// What writing `cfg` into the text `content` of `hugo.toml` gives: the new
/// text of the file.
pub open spec fn write_site_config_spec(content: Seq<char>, cfg: SiteConfigView) -> Result<Seq<char>, ConfigError> {
    match toml_document(content) {
        None => Err(ConfigError::InvalidToml),
        Some(doc) => match toml_pretty_text(config_written(doc, cfg)) {
            None => Err(ConfigError::SerializeFailed),
            Some(t) => Ok(t),
        },
    }
}

/// Reads the settings from the text `content` of `hugo.toml`.
pub fn read_site_config(content: &str) -> (r: Result<SiteConfig, ConfigError>)
    ensures
        match r {
            Ok(c) => read_site_config_spec(content@) == Ok::<SiteConfigView, ConfigError>(c@),
            Err(e) => read_site_config_spec(content@) == Err::<SiteConfigView, ConfigError>(e),
        },
        toml_document(content@) matches Some(d) ==> (d is Table || d is Datetime),
{
    match parse_toml(content) {
        Err(_) => Err(ConfigError::InvalidToml),
        Ok(doc) => Ok(config_from_document(&doc)),
    }
}

/// Writes `cfg` into the text `content` of `hugo.toml`, keeping every other
/// setting, and gives the new text of the file.
pub fn write_site_config(content: &str, cfg: &SiteConfig) -> (r: Result<String, ConfigError>)
    ensures
        match r {
            Ok(t) => write_site_config_spec(content@, cfg@) == Ok::<Seq<char>, ConfigError>(t@),
            Err(e) => write_site_config_spec(content@, cfg@) == Err::<Seq<char>, ConfigError>(e),
        },
        toml_document(content@) matches Some(d) ==> (d is Table || d is Datetime),
{
    match parse_toml(content) {
        Err(_) => Err(ConfigError::InvalidToml),
        Ok(doc) => {
            let updated = apply_site_config(doc, cfg);
            match pretty_toml(updated) {
                Err(_) => Err(ConfigError::SerializeFailed),
                Ok(t) => Ok(t),
            }
        },
    }
}

/// The string held by `v`, or the empty text where `v` is missing or holds
/// something else.
pub open spec fn string_or_empty(v: Option<TomlTree>) -> Seq<char> {
    match v {
        Some(TomlTree::Text(s)) => s,
        _ => Seq::empty(),
    }
}

/// The value at `key` inside the value at `outer` of `doc`.
pub open spec fn nested_at(doc: TomlTree, outer: Seq<char>, key: Seq<char>) -> Option<TomlTree> {
    match value_at(doc, outer) {
        Some(t) => value_at(t, key),
        None => None,
    }
}

/// Each setting is read from its own key and nothing else: the string there,
/// or the empty text. `title`, `baseURL` and `description` are top-level
/// keys, `author` and `bio` keys of `params`, and `github`, `twitter` and
/// `email` keys of `params.social`. Reading fails only where the text is
/// not TOML.
pub proof fn law_each_setting_read_from_its_own_key(content: Seq<char>)
    ensures
        read_site_config_spec(content) is Err <==> toml_document(content) is None,
        read_site_config_spec(content) matches Ok(c) ==> {
            let doc = toml_document(content)->Some_0;
            &&& c.title == string_or_empty(value_at(doc, "title"@))
            &&& c.base_url == string_or_empty(value_at(doc, "baseURL"@))
            &&& c.description == string_or_empty(value_at(doc, "description"@))
            &&& c.author == string_or_empty(nested_at(doc, "params"@, "author"@))
            &&& c.bio == string_or_empty(nested_at(doc, "params"@, "bio"@))
            &&& c.github == string_or_empty(match nested_at(doc, "params"@, "social"@) {
                Some(sc) => value_at(sc, "github"@),
                None => None,
            })
            &&& c.twitter == string_or_empty(match nested_at(doc, "params"@, "social"@) {
                Some(sc) => value_at(sc, "twitter"@),
                None => None,
            })
            &&& c.email == string_or_empty(match nested_at(doc, "params"@, "social"@) {
                Some(sc) => value_at(sc, "email"@),
                None => None,
            })
        },
{
}

} // verus!
