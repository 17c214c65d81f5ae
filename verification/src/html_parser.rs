//! Listing extractor.
//!
//! Given the raw text of the site's home page, produces an ordered list
//! of article references (title, canonical URL, best-effort date). Two
//! strategies are tried in order: mining embedded framework state for
//! paired title/slug fields, and falling back to hyperlinks found in the
//! static markup. A run that finds nothing usable is an error.

use vstd::prelude::*;

use crate::json::{
    json_get, json_get_spec, json_text, json_text_spec, navigate_json_path, navigate_path_spec,
    JsonValue,
};
use crate::text::{append_chars, chars_to_string, find_from, find_in, str_to_chars};

verus! {

/// One discovered article reference.
#[derive(Debug)]
pub struct ArticleInfo {
    pub title: String,
    pub url: String,
    pub date: String,
}

impl View for ArticleInfo {
    type V = (Seq<char>, Seq<char>, Seq<char>);

    open spec fn view(&self) -> Self::V {
        (self.title@, self.url@, self.date@)
    }
}

/// The references a reference list stands for.
pub open spec fn infos_view(s: Seq<ArticleInfo>) -> Seq<(Seq<char>, Seq<char>, Seq<char>)> {
    s.map_values(|a: ArticleInfo| a@)
}

/// The site-native date written on references whose page reveals none.
pub open spec fn fallback_date() -> Seq<char> {
    "2025/01/14 [MON]"@
}

/// Scheme and host of the source site.
pub open spec fn site_root() -> Seq<char> {
    "https://ledge.ai"@
}

/// Prefix under which the site serves its articles.
pub open spec fn article_prefix() -> Seq<char> {
    "https://ledge.ai/articles/"@
}

/// The canonical URL synthesized from a slug, path or absolute link.
pub open spec fn url_from_slug(slug: Seq<char>) -> Seq<char> {
    if slug.len() > 0 && slug[0] == '/' {
        site_root() + slug
    } else if slug.len() >= 4 && slug.subrange(0, 4) == "http"@ {
        slug
    } else {
        article_prefix() + slug
    }
}

/// The first of the slug-bearing members an article object exposes.
pub open spec fn slug_value_spec(v: JsonValue) -> Option<JsonValue> {
    match json_get_spec(v, "slug"@) {
        Some(f) => Some(f),
        None => match json_get_spec(v, "url"@) {
            Some(f) => Some(f),
            None => json_get_spec(v, "path"@),
        },
    }
}

/// The first of the date-bearing members an article object exposes.
pub open spec fn date_value_spec(v: JsonValue) -> Option<JsonValue> {
    match json_get_spec(v, "publishedAt"@) {
        Some(f) => Some(f),
        None => match json_get_spec(v, "createdAt"@) {
            Some(f) => Some(f),
            None => match json_get_spec(v, "date"@) {
                Some(f) => Some(f),
                None => json_get_spec(v, "published_at"@),
            },
        },
    }
}

/// The date string of an article object: its first date-bearing string
/// member, or the fallback date.
pub open spec fn date_of_spec(v: JsonValue) -> Seq<char> {
    match date_value_spec(v) {
        Some(f) => match json_text_spec(f) {
            Some(d) => d,
            None => fallback_date(),
        },
        None => fallback_date(),
    }
}

/// The reference an article-shaped object yields: it must expose a string
/// title and one of the slug-bearing members as a string.
pub open spec fn single_article_spec(v: JsonValue) -> Option<(Seq<char>, Seq<char>, Seq<char>)> {
    match json_get_spec(v, "title"@) {
        Some(t) => match json_text_spec(t) {
            Some(title) => match slug_value_spec(v) {
                Some(sf) => match json_text_spec(sf) {
                    Some(slug) => Some((title, url_from_slug(slug), date_of_spec(v))),
                    None => None,
                },
                None => None,
            },
            None => None,
        },
        None => None,
    }
}

/// Builds the reference described by one article-shaped object, or `None`
/// if the object lacks a string title or a slug-bearing string member.
pub fn parse_single_article(article: &JsonValue) -> (r: Option<ArticleInfo>)
    ensures
        match r {
            Some(a) => single_article_spec(*article) == Some(a@),
            None => single_article_spec(*article) is None,
        },
{
    let title = match json_get(article, &str_to_chars("title")) {
        Some(t) => match json_text(t) {
            Some(title) => title,
            None => {
                return None;
            },
        },
        None => {
            return None;
        },
    };
    let slug_field = match json_get(article, &str_to_chars("slug")) {
        Some(f) => f,
        None => match json_get(article, &str_to_chars("url")) {
            Some(f) => f,
            None => match json_get(article, &str_to_chars("path")) {
                Some(f) => f,
                None => {
                    return None;
                },
            },
        },
    };
    let slug = match json_text(slug_field) {
        Some(s) => s,
        None => {
            return None;
        },
    };
    let url = build_url_from_slug(&slug);
    let date_field = match json_get(article, &str_to_chars("publishedAt")) {
        Some(f) => Some(f),
        None => match json_get(article, &str_to_chars("createdAt")) {
            Some(f) => Some(f),
            None => match json_get(article, &str_to_chars("date")) {
                Some(f) => Some(f),
                None => json_get(article, &str_to_chars("published_at")),
            },
        },
    };
    let date = match date_field {
        Some(f) => match json_text(f) {
            Some(d) => d,
            None => fallback_date_string(),
        },
        None => fallback_date_string(),
    };
    Some(ArticleInfo { title, url, date })
}

/// The fallback date as a string value.
pub fn fallback_date_string() -> (r: String)
    ensures
        r@ == fallback_date(),
{
    let chars = str_to_chars("2025/01/14 [MON]");
    chars_to_string(&chars)
}

/// Executable mirror of [`url_from_slug`].
pub fn build_url_from_slug(slug: &String) -> (r: String)
    ensures
        r@ == url_from_slug(slug@),
{
    let sc = str_to_chars(slug.as_str());
    if sc.len() > 0 && sc[0] == '/' {
        let mut out = str_to_chars("https://ledge.ai");
        append_chars(&mut out, &sc);
        chars_to_string(&out)
    } else {
        let http = str_to_chars("http");
        proof {
            reveal_strlit("http");
        }
        if sc.len() >= 4 && crate::text::is_match_at(&sc, &http, 0) {
            assert(slug@.subrange(0, 4) == "http"@);
            chars_to_string(&sc)
        } else {
            assert(!(slug@.len() >= 4 && slug@.subrange(0, 4) == "http"@));
            let mut out = str_to_chars("https://ledge.ai/articles/");
            append_chars(&mut out, &sc);
            chars_to_string(&out)
        }
    }
}

/// The references found by walking an arbitrary tree: article-shaped
/// objects inside any array, at any depth.
pub open spec fn found_articles(v: JsonValue) -> Seq<(Seq<char>, Seq<char>, Seq<char>)>
    decreases v,
{
    match v {
        JsonValue::Object(fields) => found_in_fields(fields@),
        JsonValue::Array(items) => found_in_items(items@),
        _ => Seq::empty(),
    }
}

/// The references found under each member value of an object, in order.
pub open spec fn found_in_fields(fs: Seq<(String, JsonValue)>) -> Seq<
    (Seq<char>, Seq<char>, Seq<char>),
>
    decreases fs,
{
    if fs.len() == 0 {
        Seq::empty()
    } else {
        found_articles(fs[0].1) + found_in_fields(fs.subrange(1, fs.len() as int))
    }
}

/// The references found in an array: each article-shaped item yields its
/// reference; any other item is walked further.
pub open spec fn found_in_items(items: Seq<JsonValue>) -> Seq<(Seq<char>, Seq<char>, Seq<char>)>
    decreases items,
{
    if items.len() == 0 {
        Seq::empty()
    } else {
        (match single_article_spec(items[0]) {
            Some(a) => seq![a],
            None => found_articles(items[0]),
        }) + found_in_items(items.subrange(1, items.len() as int))
    }
}

/// Walks an arbitrary tree and appends every reference of an
/// article-shaped object found inside any array, at any depth.
#[verifier::loop_isolation(false)]
pub fn find_articles_in_json_recursively(json: &JsonValue, articles: &mut Vec<ArticleInfo>)
    ensures
        infos_view(final(articles)@) == infos_view(old(articles)@) + found_articles(*json),
    decreases *json,
{
    match json {
        JsonValue::Object(fields) => {
            let mut i: usize = 0;
            proof {
                assert(fields@.subrange(0, fields@.len() as int) =~= fields@);
                assert(found_in_fields(Seq::empty()) == Seq::<
                    (Seq<char>, Seq<char>, Seq<char>),
                >::empty());
                assert(infos_view(articles@) =~= infos_view(old(articles)@) + found_in_fields(
                    fields@.subrange(0, 0),
                ));
            }
            while i < fields.len()
                invariant
                    0 <= i <= fields@.len(),
                    infos_view(articles@) == infos_view(old(articles)@) + found_in_fields_prefix(
                        fields@,
                        i as int,
                    ),
                decreases fields@.len() - i,
            {
                find_articles_in_json_recursively(&fields[i].1, articles);
                proof {
                    lemma_found_in_fields_prefix_step(fields@, i as int);
                }
                i = i + 1;
            }
            proof {
                lemma_found_in_fields_prefix_all(fields@);
            }
        },
        JsonValue::Array(items) => {
            let mut i: usize = 0;
            while i < items.len()
                invariant
                    0 <= i <= items@.len(),
                    infos_view(articles@) == infos_view(old(articles)@) + found_in_items_prefix(
                        items@,
                        i as int,
                    ),
                decreases items@.len() - i,
            {
                match parse_single_article(&items[i]) {
                    Some(a) => {
                        articles.push(a);
                        proof {
                            assert(infos_view(articles@) =~= infos_view(old(articles)@)
                                + found_in_items_prefix(items@, i as int) + seq![a@]);
                        }
                    },
                    None => {
                        find_articles_in_json_recursively(&items[i], articles);
                    },
                }
                proof {
                    lemma_found_in_items_prefix_step(items@, i as int);
                }
                i = i + 1;
            }
            proof {
                lemma_found_in_items_prefix_all(items@);
            }
        },
        _ => {
            proof {
                assert(infos_view(articles@) =~= infos_view(old(articles)@) + found_articles(
                    *json,
                ));
            }
        },
    }
}

/// The references found under the first `n` members of an object.
pub open spec fn found_in_fields_prefix(fs: Seq<(String, JsonValue)>, n: int) -> Seq<
    (Seq<char>, Seq<char>, Seq<char>),
>
    decreases n,
{
    if n <= 0 {
        Seq::empty()
    } else {
        found_in_fields_prefix(fs, n - 1) + found_articles(fs[n - 1].1)
    }
}

/// The references found in the first `n` items of an array.
pub open spec fn found_in_items_prefix(items: Seq<JsonValue>, n: int) -> Seq<
    (Seq<char>, Seq<char>, Seq<char>),
>
    decreases n,
{
    if n <= 0 {
        Seq::empty()
    } else {
        found_in_items_prefix(items, n - 1) + (match single_article_spec(items[n - 1]) {
            Some(a) => seq![a],
            None => found_articles(items[n - 1]),
        })
    }
}

proof fn lemma_found_in_fields_prefix_step(fs: Seq<(String, JsonValue)>, i: int)
    requires
        0 <= i < fs.len(),
    ensures
        found_in_fields_prefix(fs, i + 1) == found_in_fields_prefix(fs, i) + found_articles(
            fs[i].1,
        ),
{
}

proof fn lemma_found_in_items_prefix_step(items: Seq<JsonValue>, i: int)
    requires
        0 <= i < items.len(),
    ensures
        found_in_items_prefix(items, i + 1) == found_in_items_prefix(items, i) + (match
            single_article_spec(items[i]) {
            Some(a) => seq![a],
            None => found_articles(items[i]),
        }),
{
}

/// A full prefix walk equals the list-at-once walk.
proof fn lemma_found_in_fields_prefix_all(fs: Seq<(String, JsonValue)>)
    ensures
        found_in_fields_prefix(fs, fs.len() as int) == found_in_fields(fs),
    decreases fs.len(),
{
    lemma_found_in_fields_prefix_all_shift(fs, fs.len() as int);
    assert(fs.subrange(0, fs.len() as int) =~= fs);
}

/// Prefix walks split at the front: the first member plus a prefix walk
/// of the rest.
proof fn lemma_found_in_fields_prefix_all_shift(fs: Seq<(String, JsonValue)>, n: int)
    requires
        0 <= n <= fs.len(),
    ensures
        found_in_fields_prefix(fs, n) == found_in_fields(fs.subrange(0, n)),
    decreases n,
{
    if n > 0 {
        lemma_found_in_fields_prefix_all_shift(fs, n - 1);
        let pre = fs.subrange(0, n);
        lemma_found_in_fields_snoc(fs.subrange(0, n - 1), fs[n - 1]);
        assert(fs.subrange(0, n - 1).push(fs[n - 1]) =~= pre);
    } else {
        assert(fs.subrange(0, 0) =~= Seq::<(String, JsonValue)>::empty());
    }
}

/// Appending one member adds its walk at the end.
proof fn lemma_found_in_fields_snoc(fs: Seq<(String, JsonValue)>, x: (String, JsonValue))
    ensures
        found_in_fields(fs.push(x)) == found_in_fields(fs) + found_articles(x.1),
    decreases fs.len(),
{
    let all = fs.push(x);
    assert(all[0] == if fs.len() == 0 { x } else { fs[0] });
    if fs.len() == 0 {
        assert(all.subrange(1, all.len() as int) =~= Seq::<(String, JsonValue)>::empty());
        assert(found_in_fields(Seq::<(String, JsonValue)>::empty())
            == Seq::<(Seq<char>, Seq<char>, Seq<char>)>::empty());
        assert(found_in_fields(all) =~= found_articles(x.1));
        assert(found_in_fields(fs) + found_articles(x.1) =~= found_articles(x.1));
    } else {
        assert(all[0] == fs[0]);
        assert(all.subrange(1, all.len() as int) =~= fs.subrange(1, fs.len() as int).push(x));
        lemma_found_in_fields_snoc(fs.subrange(1, fs.len() as int), x);
        assert(found_in_fields(all) =~= found_in_fields(fs) + found_articles(x.1));
    }
}

proof fn lemma_found_in_items_prefix_all(items: Seq<JsonValue>)
    ensures
        found_in_items_prefix(items, items.len() as int) == found_in_items(items),
{
    lemma_found_in_items_prefix_all_shift(items, items.len() as int);
    assert(items.subrange(0, items.len() as int) =~= items);
}

proof fn lemma_found_in_items_prefix_all_shift(items: Seq<JsonValue>, n: int)
    requires
        0 <= n <= items.len(),
    ensures
        found_in_items_prefix(items, n) == found_in_items(items.subrange(0, n)),
    decreases n,
{
    if n > 0 {
        lemma_found_in_items_prefix_all_shift(items, n - 1);
        lemma_found_in_items_snoc(items.subrange(0, n - 1), items[n - 1]);
        assert(items.subrange(0, n - 1).push(items[n - 1]) =~= items.subrange(0, n));
    } else {
        assert(items.subrange(0, 0) =~= Seq::<JsonValue>::empty());
    }
}

proof fn lemma_found_in_items_snoc(items: Seq<JsonValue>, x: JsonValue)
    ensures
        found_in_items(items.push(x)) == found_in_items(items) + (match single_article_spec(x) {
            Some(a) => seq![a],
            None => found_articles(x),
        }),
    decreases items.len(),
{
    let all = items.push(x);
    let tailref = match single_article_spec(x) {
        Some(a) => seq![a],
        None => found_articles(x),
    };
    assert(all[0] == if items.len() == 0 { x } else { items[0] });
    if items.len() == 0 {
        assert(all.subrange(1, all.len() as int) =~= Seq::<JsonValue>::empty());
        assert(found_in_items(Seq::<JsonValue>::empty())
            == Seq::<(Seq<char>, Seq<char>, Seq<char>)>::empty());
        assert(found_in_items(all) =~= tailref);
        assert(found_in_items(items) + tailref =~= tailref);
    } else {
        assert(all[0] == items[0]);
        assert(all.subrange(1, all.len() as int) =~= items.subrange(
            1,
            items.len() as int,
        ).push(x));
        lemma_found_in_items_snoc(items.subrange(1, items.len() as int), x);
        assert(found_in_items(all) =~= found_in_items(items) + tailref);
    }
}

/// The member paths under which deployments have been seen to keep the
/// article listing, most recent layout first.
pub open spec fn nuxt_paths() -> Seq<Seq<Seq<char>>> {
    seq![
        seq!["data"@, "fetchNewestArticles"@],
        seq!["data"@, "fetchFirstViewArticles"@],
        seq!["state"@, "articles"@, "newest"@],
        seq!["asyncData"@, "articles"@],
    ]
}

/// The references of the article-shaped items of an array, in order;
/// items of any other shape contribute nothing.
pub open spec fn articles_from_items(items: Seq<JsonValue>) -> Seq<
    (Seq<char>, Seq<char>, Seq<char>),
>
    decreases items.len(),
{
    if items.len() == 0 {
        Seq::empty()
    } else {
        (match single_article_spec(items[0]) {
            Some(a) => seq![a],
            None => Seq::empty(),
        }) + articles_from_items(items.subrange(1, items.len() as int))
    }
}

/// The references of the array a value holds, if it is an array.
pub open spec fn array_articles_spec(v: JsonValue) -> Seq<(Seq<char>, Seq<char>, Seq<char>)> {
    match v {
        JsonValue::Array(items) => articles_from_items(items@),
        _ => Seq::empty(),
    }
}

/// The references under the first known path that yields any, in path
/// order.
pub open spec fn articles_via_paths(v: JsonValue, paths: Seq<Seq<Seq<char>>>) -> Seq<
    (Seq<char>, Seq<char>, Seq<char>),
>
    decreases paths.len(),
{
    if paths.len() == 0 {
        Seq::empty()
    } else {
        let got = match navigate_path_spec(v, paths[0]) {
            Some(t) => array_articles_spec(t),
            None => Seq::empty(),
        };
        if got.len() > 0 {
            got
        } else {
            articles_via_paths(v, paths.subrange(1, paths.len() as int))
        }
    }
}

/// What the structured variant of the embedded-state strategy yields on a
/// parsed tree: the first known path with article-shaped items, and
/// failing all paths, the recursive walk of the whole tree.
pub open spec fn nuxt_json_articles_spec(v: JsonValue) -> Seq<(Seq<char>, Seq<char>, Seq<char>)> {
    let got = articles_via_paths(v, nuxt_paths());
    if got.len() > 0 {
        got
    } else {
        found_articles(v)
    }
}

/// References of the first `n` items of an array.
pub open spec fn articles_from_items_prefix(items: Seq<JsonValue>, n: int) -> Seq<
    (Seq<char>, Seq<char>, Seq<char>),
>
    decreases n,
{
    if n <= 0 {
        Seq::empty()
    } else {
        articles_from_items_prefix(items, n - 1) + (match single_article_spec(items[n - 1]) {
            Some(a) => seq![a],
            None => Seq::empty(),
        })
    }
}

proof fn lemma_articles_from_items_prefix_all(items: Seq<JsonValue>, n: int)
    requires
        0 <= n <= items.len(),
    ensures
        articles_from_items_prefix(items, n) == articles_from_items(items.subrange(0, n)),
    decreases n,
{
    if n > 0 {
        lemma_articles_from_items_prefix_all(items, n - 1);
        lemma_articles_from_items_snoc(items.subrange(0, n - 1), items[n - 1]);
        assert(items.subrange(0, n - 1).push(items[n - 1]) =~= items.subrange(0, n));
    } else {
        assert(items.subrange(0, 0) =~= Seq::<JsonValue>::empty());
    }
}

proof fn lemma_articles_from_items_snoc(items: Seq<JsonValue>, x: JsonValue)
    ensures
        articles_from_items(items.push(x)) == articles_from_items(items) + (match
            single_article_spec(x) {
            Some(a) => seq![a],
            None => Seq::<(Seq<char>, Seq<char>, Seq<char>)>::empty(),
        }),
    decreases items.len(),
{
    let all = items.push(x);
    let tailref = match single_article_spec(x) {
        Some(a) => seq![a],
        None => Seq::<(Seq<char>, Seq<char>, Seq<char>)>::empty(),
    };
    assert(all[0] == if items.len() == 0 { x } else { items[0] });
    if items.len() == 0 {
        assert(all.subrange(1, all.len() as int) =~= Seq::<JsonValue>::empty());
        assert(articles_from_items(Seq::<JsonValue>::empty()) == Seq::<
            (Seq<char>, Seq<char>, Seq<char>),
        >::empty());
        assert(articles_from_items(all) =~= tailref);
        assert(articles_from_items(items) + tailref =~= tailref);
    } else {
        assert(all.subrange(1, all.len() as int) =~= items.subrange(
            1,
            items.len() as int,
        ).push(x));
        lemma_articles_from_items_snoc(items.subrange(1, items.len() as int), x);
        assert(articles_from_items(all) =~= articles_from_items(items) + tailref);
    }
}

/// The references of the array a value holds, executably.
fn collect_from_array(t: &JsonValue) -> (r: Vec<ArticleInfo>)
    ensures
        infos_view(r@) == array_articles_spec(*t),
{
    let mut out: Vec<ArticleInfo> = Vec::new();
    match t {
        JsonValue::Array(items) => {
            let mut i: usize = 0;
            proof {
                assert(infos_view(out@) =~= articles_from_items_prefix(items@, 0));
            }
            while i < items.len()
                invariant
                    0 <= i <= items@.len(),
                    *t is Array && (t->Array_0)@ == items@,
                    infos_view(out@) == articles_from_items_prefix(items@, i as int),
                decreases items@.len() - i,
            {
                match parse_single_article(&items[i]) {
                    Some(a) => {
                        out.push(a);
                        proof {
                            assert(infos_view(out@) =~= articles_from_items_prefix(
                                items@,
                                i as int,
                            ) + seq![a@]);
                        }
                    },
                    None => {
                        proof {
                            assert(infos_view(out@) =~= articles_from_items_prefix(
                                items@,
                                i as int,
                            ) + Seq::<(Seq<char>, Seq<char>, Seq<char>)>::empty());
                        }
                    },
                }
                i = i + 1;
            }
            proof {
                lemma_articles_from_items_prefix_all(items@, items@.len() as int);
                assert(items@.subrange(0, items@.len() as int) =~= items@);
            }
        },
        _ => {
            proof {
                assert(infos_view(out@) =~= Seq::<(Seq<char>, Seq<char>, Seq<char>)>::empty());
            }
        },
    }
    out
}

/// One member path as an executable list of member names.
fn build_path(names: &Vec<&str>) -> (r: Vec<Vec<char>>)
    ensures
        r@.map_values(|p: Vec<char>| p@) == names@.map_values(|n: &str| n@),
{
    let mut out: Vec<Vec<char>> = Vec::new();
    let mut i: usize = 0;
    while i < names.len()
        invariant
            0 <= i <= names@.len(),
            out@.len() == i,
            forall|k: int| 0 <= k < i ==> (#[trigger] out@[k])@ == names@[k]@,
        decreases names@.len() - i,
    {
        out.push(str_to_chars(names[i]));
        i = i + 1;
    }
    proof {
        assert(out@.map_values(|p: Vec<char>| p@) =~= names@.map_values(|n: &str| n@));
    }
    out
}

/// Tries the known member paths in order and keeps the first that yields
/// article-shaped items; failing all paths, walks the whole tree.
pub fn extract_articles_from_nuxt_json(json: &JsonValue) -> (r: Vec<ArticleInfo>)
    ensures
        infos_view(r@) == nuxt_json_articles_spec(*json),
{
    let ghost paths = nuxt_paths();
    let mut names: Vec<&str> = Vec::new();
    names.push("data");
    names.push("fetchNewestArticles");
    let p1 = build_path(&names);
    proof {
        assert(p1@.map_values(|p: Vec<char>| p@) =~= paths[0]);
    }
    let mut names: Vec<&str> = Vec::new();
    names.push("data");
    names.push("fetchFirstViewArticles");
    let p2 = build_path(&names);
    proof {
        assert(p2@.map_values(|p: Vec<char>| p@) =~= paths[1]);
    }
    let mut names: Vec<&str> = Vec::new();
    names.push("state");
    names.push("articles");
    names.push("newest");
    let p3 = build_path(&names);
    proof {
        assert(p3@.map_values(|p: Vec<char>| p@) =~= paths[2]);
    }
    let mut names: Vec<&str> = Vec::new();
    names.push("asyncData");
    names.push("articles");
    let p4 = build_path(&names);
    proof {
        assert(p4@.map_values(|p: Vec<char>| p@) =~= paths[3]);
    }
    proof {
        assert(paths.subrange(1, 4)[0] == paths[1]);
        assert(paths.subrange(1, 4).subrange(1, 3) =~= paths.subrange(2, 4));
        assert(paths.subrange(2, 4)[0] == paths[2]);
        assert(paths.subrange(2, 4).subrange(1, 2) =~= paths.subrange(3, 4));
        assert(paths.subrange(3, 4)[0] == paths[3]);
        assert(paths.subrange(3, 4).subrange(1, 1) =~= Seq::<Seq<Seq<char>>>::empty());
    }
    let ghost rest1 = paths.subrange(1, 4);
    let ghost rest2 = paths.subrange(2, 4);
    let ghost rest3 = paths.subrange(3, 4);
    match navigate_json_path(json, &p1) {
        Some(t) => {
            let got = collect_from_array(t);
            if got.len() > 0 {
                assert(articles_via_paths(*json, paths) == infos_view(got@));
                return got;
            }
            proof {
                assert(array_articles_spec(*t) =~= Seq::<
                    (Seq<char>, Seq<char>, Seq<char>),
                >::empty());
            }
        },
        None => {},
    }
    proof {
        assert(articles_via_paths(*json, paths) == articles_via_paths(*json, rest1));
    }
    match navigate_json_path(json, &p2) {
        Some(t) => {
            let got = collect_from_array(t);
            if got.len() > 0 {
                assert(articles_via_paths(*json, rest1) == infos_view(got@));
                return got;
            }
            proof {
                assert(array_articles_spec(*t) =~= Seq::<
                    (Seq<char>, Seq<char>, Seq<char>),
                >::empty());
            }
        },
        None => {},
    }
    proof {
        assert(articles_via_paths(*json, rest1) == articles_via_paths(*json, rest2));
    }
    match navigate_json_path(json, &p3) {
        Some(t) => {
            let got = collect_from_array(t);
            if got.len() > 0 {
                assert(articles_via_paths(*json, rest2) == infos_view(got@));
                return got;
            }
            proof {
                assert(array_articles_spec(*t) =~= Seq::<
                    (Seq<char>, Seq<char>, Seq<char>),
                >::empty());
            }
        },
        None => {},
    }
    proof {
        assert(articles_via_paths(*json, rest2) == articles_via_paths(*json, rest3));
    }
    match navigate_json_path(json, &p4) {
        Some(t) => {
            let got = collect_from_array(t);
            if got.len() > 0 {
                assert(articles_via_paths(*json, rest3) == infos_view(got@));
                return got;
            }
            proof {
                assert(array_articles_spec(*t) =~= Seq::<
                    (Seq<char>, Seq<char>, Seq<char>),
                >::empty());
            }
        },
        None => {},
    }
    proof {
        assert(articles_via_paths(*json, rest3) == articles_via_paths(
            *json,
            rest3.subrange(1, 1),
        ));
        assert(rest3.subrange(1, 1) =~= Seq::<Seq<Seq<char>>>::empty());
        assert(articles_via_paths(*json, Seq::<Seq<Seq<char>>>::empty()) =~= Seq::<
            (Seq<char>, Seq<char>, Seq<char>),
        >::empty());
        assert(articles_via_paths(*json, paths).len() == 0);
    }
    let mut articles: Vec<ArticleInfo> = Vec::new();
    find_articles_in_json_recursively(json, &mut articles);
    proof {
        assert(infos_view(articles@) =~= found_articles(*json));
    }
    articles
}

/// Marker of a quoted title field in embedded state.
pub open spec fn title_marker() -> Seq<char> {
    "\"title\":\""@
}

/// Marker of a quoted slug field in embedded state.
pub open spec fn slug_marker() -> Seq<char> {
    "\"slug\":\""@
}

/// Characters a paired title may search past for its slug: a slug found
/// beyond this window after the title is treated as unrelated.
pub open spec fn pair_window() -> int {
    500
}

/// The slug captured by the first complete slug field of a search area.
pub open spec fn slug_in_area(area: Seq<char>) -> Option<Seq<char>> {
    match find_from(area, slug_marker(), 0) {
        Some(si) => match find_from(area, crate::text::quote(), si + slug_marker().len() as int) {
            Some(qs) => if qs > si + slug_marker().len() {
                Some(area.subrange(si + slug_marker().len() as int, qs))
            } else {
                None
            },
            None => None,
        },
        None => None,
    }
}

/// The end of the slug search window that starts at a title match ending
/// at `e` (exclusive).
pub open spec fn window_end(s: Seq<char>, e: int) -> int {
    if e + pair_window() <= s.len() {
        e + pair_window()
    } else {
        s.len() as int
    }
}

/// References gathered by pairing each complete title field, scanning
/// from `from`, with the first slug field in its trailing window.
pub open spec fn gather_pairs(s: Seq<char>, from: int) -> Seq<(Seq<char>, Seq<char>, Seq<char>)>
    decreases s.len() - from + 1,
    via gather_pairs_decreases
{
    if from < 0 {
        Seq::empty()
    } else {
        match find_from(s, title_marker(), from) {
            None => Seq::empty(),
            Some(i) => match find_from(s, crate::text::quote(), i + title_marker().len() as int) {
                None => Seq::empty(),
                Some(q) => if q == i + title_marker().len() {
                    gather_pairs(s, i + 1)
                } else {
                    let title = s.subrange(i + title_marker().len() as int, q);
                    let area = s.subrange(i, window_end(s, q + 1));
                    (match slug_in_area(area) {
                        Some(slug) => seq![
                            (title, article_prefix() + slug, fallback_date()),
                        ],
                        None => Seq::empty(),
                    }) + gather_pairs(s, q + 1)
                },
            },
        }
    }
}

#[via_fn]
proof fn gather_pairs_decreases(s: Seq<char>, from: int) {
    if from >= 0 && find_from(s, title_marker(), from) is Some {
        crate::text::lemma_find_from_spec(s, title_marker(), from);
        let i = find_from(s, title_marker(), from)->Some_0;
        if find_from(s, crate::text::quote(), i + title_marker().len() as int) is Some {
            crate::text::lemma_find_from_spec(s, crate::text::quote(), i + title_marker().len() as int);
        }
    }
}

/// `entries` with every reference whose URL already appeared, or stands
/// in `seen`, dropped.
pub open spec fn dedup_rec(
    entries: Seq<(Seq<char>, Seq<char>, Seq<char>)>,
    seen: Seq<Seq<char>>,
) -> Seq<(Seq<char>, Seq<char>, Seq<char>)>
    decreases entries.len(),
{
    if entries.len() == 0 {
        Seq::empty()
    } else if seen.contains(entries[0].1) {
        dedup_rec(entries.subrange(1, entries.len() as int), seen)
    } else {
        seq![entries[0]] + dedup_rec(
            entries.subrange(1, entries.len() as int),
            seen.push(entries[0].1),
        )
    }
}

/// `entries` keeping only the first reference of each URL.
pub open spec fn dedup_by_url(entries: Seq<(Seq<char>, Seq<char>, Seq<char>)>) -> Seq<
    (Seq<char>, Seq<char>, Seq<char>),
> {
    dedup_rec(entries, Seq::empty())
}

/// At most the first `n` of `entries`.
pub open spec fn take_at_most(entries: Seq<(Seq<char>, Seq<char>, Seq<char>)>, n: int) -> Seq<
    (Seq<char>, Seq<char>, Seq<char>),
> {
    if entries.len() <= n {
        entries
    } else {
        entries.subrange(0, n)
    }
}

/// What the loose embedded-state pairing yields on one script text:
/// paired references, first occurrence of each URL, capped.
pub open spec fn any_json_articles_spec(s: Seq<char>) -> Seq<(Seq<char>, Seq<char>, Seq<char>)> {
    take_at_most(dedup_by_url(gather_pairs(s, 0)), 10)
}

/// No URL repeats in a deduplicated list, and none of `seen` appears.
proof fn lemma_dedup_rec_unique(
    entries: Seq<(Seq<char>, Seq<char>, Seq<char>)>,
    seen: Seq<Seq<char>>,
)
    ensures
        forall|a: int, b: int|
            0 <= a < b < dedup_rec(entries, seen).len() ==> (#[trigger] dedup_rec(
                entries,
                seen,
            )[a]).1 != (#[trigger] dedup_rec(entries, seen)[b]).1,
        forall|a: int|
            0 <= a < dedup_rec(entries, seen).len() ==> !seen.contains(
                (#[trigger] dedup_rec(entries, seen)[a]).1,
            ),
    decreases entries.len(),
{
    if entries.len() == 0 {
        assert(dedup_rec(entries, seen).len() == 0);
    }
    if entries.len() > 0 {
        let rest = entries.subrange(1, entries.len() as int);
        if seen.contains(entries[0].1) {
            lemma_dedup_rec_unique(rest, seen);
            assert(dedup_rec(entries, seen) == dedup_rec(rest, seen));
        } else {
            let seen2 = seen.push(entries[0].1);
            lemma_dedup_rec_unique(rest, seen2);
            let out = dedup_rec(entries, seen);
            let tail = dedup_rec(rest, seen2);
            assert(out == seq![entries[0]] + tail);
            assert(out[0] == entries[0]);
            assert(out.len() == 1 + tail.len());
            assert forall|a: int, b: int| 0 <= a < b < out.len() implies (#[trigger] out[a]).1
                != (#[trigger] out[b]).1 by {
                if a == 0 {
                    assert(out[b] == tail[b - 1]);
                    assert(seen2[seen.len() as int] == entries[0].1);
                    assert(seen2.contains(entries[0].1));
                    assert(!seen2.contains(tail[b - 1].1));
                } else {
                    assert(out[a] == tail[a - 1]);
                    assert(out[b] == tail[b - 1]);
                }
            }
            assert forall|a: int| 0 <= a < out.len() implies !seen.contains(
                (#[trigger] out[a]).1,
            ) by {
                if a > 0 {
                    assert(out[a] == tail[a - 1]);
                    assert(!seen2.contains(tail[a - 1].1));
                    if seen.contains(out[a].1) {
                        let w = choose|w: int| 0 <= w < seen.len() && seen[w] == out[a].1;
                        assert(seen2[w] == out[a].1);
                    }
                }
            }
        }
    }
}

/// URLs are pairwise distinct in the capped, deduplicated output.
pub proof fn lemma_any_json_unique_urls(s: Seq<char>)
    ensures
        forall|a: int, b: int|
            0 <= a < b < any_json_articles_spec(s).len() ==> (#[trigger] any_json_articles_spec(
                s,
            )[a]).1 != (#[trigger] any_json_articles_spec(s)[b]).1,
{
    lemma_dedup_rec_unique(gather_pairs(s, 0), Seq::empty());
}

/// Gathers paired title/slug references from one script text, mirroring
/// [`gather_pairs`].
fn gather_pairs_exec(s: &Vec<char>) -> (r: Vec<ArticleInfo>)
    ensures
        infos_view(r@) == gather_pairs(s@, 0),
{
    let tm = str_to_chars("\"title\":\"");
    let sm = str_to_chars("\"slug\":\"");
    let qm = str_to_chars("\"");
    proof {
        reveal_strlit("\"title\":\"");
        reveal_strlit("\"slug\":\"");
        reveal_strlit("\"");
        assert(tm@ == title_marker());
        assert(sm@ == slug_marker());
        assert(qm@ == crate::text::quote());
    }
    let n = s.len();
    let mut out: Vec<ArticleInfo> = Vec::new();
    let mut from: usize = 0;
    loop
        invariant
            from <= s@.len(),
            s@.len() == n,
            tm@ == title_marker() && sm@ == slug_marker() && qm@ == crate::text::quote(),
            tm@.len() == 9 && sm@.len() == 8 && qm@.len() == 1,
            gather_pairs(s@, 0) == infos_view(out@) + gather_pairs(s@, from as int),
        ensures
            infos_view(out@) == gather_pairs(s@, 0),
        decreases s@.len() - from,
    {
        let ghost out0 = infos_view(out@);
        match find_in(s, &tm, from) {
            None => {
                proof {
                    assert(gather_pairs(s@, from as int) =~= Seq::<
                        (Seq<char>, Seq<char>, Seq<char>),
                    >::empty());
                    assert(infos_view(out@) =~= infos_view(out@) + gather_pairs(
                        s@,
                        from as int,
                    ));
                }
                break;
            },
            Some(i) => {
                proof {
                    crate::text::lemma_find_from_spec(s@, tm@, from as int);
                }
                match find_in(s, &qm, i + 9) {
                    None => {
                        proof {
                            assert(gather_pairs(s@, from as int) =~= Seq::<
                                (Seq<char>, Seq<char>, Seq<char>),
                            >::empty());
                            assert(infos_view(out@) =~= infos_view(out@) + gather_pairs(
                                s@,
                                from as int,
                            ));
                        }
                        break;
                    },
                    Some(q) => {
                        proof {
                            crate::text::lemma_find_from_spec(s@, qm@, i + 9);
                        }
                        if q == i + 9 {
                            proof {
                                assert(gather_pairs(s@, from as int) == gather_pairs(s@, i + 1));
                            }
                            from = i + 1;
                        } else {
                            let title = crate::text::subvec(s, i + 9, q);
                            let rem = n - (q + 1);
                            let wend = if rem > 500 {
                                q + 501
                            } else {
                                n
                            };
                            proof {
                                assert(wend as int == window_end(s@, q + 1));
                            }
                            let area = crate::text::subvec(s, i, wend);
                            let mut produced = false;
                            match find_in(&area, &sm, 0) {
                                Some(si) => {
                                    proof {
                                        crate::text::lemma_find_from_spec(area@, sm@, 0);
                                    }
                                    match find_in(&area, &qm, si + 8) {
                                        Some(qs) => {
                                            proof {
                                                crate::text::lemma_find_from_spec(
                                                    area@,
                                                    qm@,
                                                    si + 8,
                                                );
                                            }
                                            if qs > si + 8 {
                                                let slug = crate::text::subvec(
                                                    &area,
                                                    si + 8,
                                                    qs,
                                                );
                                                let mut url = str_to_chars(
                                                    "https://ledge.ai/articles/",
                                                );
                                                append_chars(&mut url, &slug);
                                                let info = ArticleInfo {
                                                    title: chars_to_string(&title),
                                                    url: chars_to_string(&url),
                                                    date: fallback_date_string(),
                                                };
                                                out.push(info);
                                                produced = true;
                                                proof {
                                                    assert(slug_in_area(area@) == Some(slug@));
                                                    assert(infos_view(out@) =~= out0 + seq![
                                                        (
                                                            title@,
                                                            article_prefix() + slug@,
                                                            fallback_date(),
                                                        ),
                                                    ]);
                                                }
                                            }
                                        },
                                        None => {},
                                    }
                                },
                                None => {},
                            }
                            proof {
                                if !produced {
                                    assert(slug_in_area(area@) is None);
                                    assert(infos_view(out@) + Seq::<
                                        (Seq<char>, Seq<char>, Seq<char>),
                                    >::empty() =~= infos_view(out@));
                                }
                                assert(gather_pairs(s@, from as int) == (match slug_in_area(
                                    area@,
                                ) {
                                    Some(slug) => seq![
                                        (title@, article_prefix() + slug, fallback_date()),
                                    ],
                                    None => Seq::empty(),
                                }) + gather_pairs(s@, q + 1));
                            }
                            from = q + 1;
                        }
                    },
                }
            },
        }
    }
    out
}

/// Whether a URL already stands among the kept references.
fn url_seen(kept: &Vec<ArticleInfo>, url: &String) -> (r: bool)
    ensures
        r == infos_view(kept@).map_values(|e: (Seq<char>, Seq<char>, Seq<char>)| e.1).contains(
            url@,
        ),
{
    let ghost seen = infos_view(kept@).map_values(|e: (Seq<char>, Seq<char>, Seq<char>)| e.1);
    let mut j: usize = 0;
    while j < kept.len()
        invariant
            0 <= j <= kept@.len(),
            seen == infos_view(kept@).map_values(|e: (Seq<char>, Seq<char>, Seq<char>)| e.1),
            seen.len() == kept@.len(),
            forall|k: int| 0 <= k < j ==> seen[k] != url@,
        decreases kept@.len() - j,
    {
        if kept[j].url == *url {
            proof {
                assert(seen[j as int] == kept@[j as int]@.1);
            }
            return true;
        }
        j = j + 1;
    }
    proof {
        if seen.contains(url@) {
            let w = choose|w: int| 0 <= w < seen.len() && seen[w] == url@;
            assert(seen[w] == url@);
        }
    }
    false
}

/// Keeps the first reference of each URL, stopping once ten are kept,
/// mirroring [`dedup_by_url`] and [`take_at_most`].
fn dedup_and_cap(entries: &Vec<ArticleInfo>) -> (r: Vec<ArticleInfo>)
    ensures
        infos_view(r@) == take_at_most(dedup_by_url(infos_view(entries@)), 10),
{
    let ghost all = infos_view(entries@);
    let mut kept: Vec<ArticleInfo> = Vec::new();
    let mut i: usize = 0;
    proof {
        assert(all.subrange(0, all.len() as int) =~= all);
        assert(infos_view(kept@) =~= Seq::<(Seq<char>, Seq<char>, Seq<char>)>::empty());
        assert(infos_view(kept@).map_values(|e: (Seq<char>, Seq<char>, Seq<char>)| e.1) =~= Seq::<
            Seq<char>,
        >::empty());
    }
    while i < entries.len()
        invariant
            0 <= i <= entries@.len(),
            all == infos_view(entries@),
            kept@.len() <= 9,
            dedup_by_url(all) == infos_view(kept@) + dedup_rec(
                all.subrange(i as int, all.len() as int),
                infos_view(kept@).map_values(|e: (Seq<char>, Seq<char>, Seq<char>)| e.1),
            ),
        ensures
            take_at_most(dedup_by_url(all), 10) == infos_view(kept@),
        decreases entries@.len() - i,
    {
        let ghost seen = infos_view(kept@).map_values(
            |e: (Seq<char>, Seq<char>, Seq<char>)| e.1,
        );
        let ghost pending = all.subrange(i as int, all.len() as int);
        proof {
            assert(pending[0] == all[i as int]);
            assert(all[i as int] == entries@[i as int]@);
            assert(pending.subrange(1, pending.len() as int) =~= all.subrange(
                i + 1,
                all.len() as int,
            ));
        }
        let dup = url_seen(&kept, &entries[i].url);
        if dup {
            proof {
                assert(dedup_rec(pending, seen) == dedup_rec(
                    pending.subrange(1, pending.len() as int),
                    seen,
                ));
            }
        } else {
            proof {
                if seen.contains(entries@[i as int]@.1) {
                    let w = choose|w: int|
                        0 <= w < seen.len() && seen[w] == entries@[i as int]@.1;
                    assert(seen[w] == entries@[i as int]@.1);
                }
                assert(!seen.contains(entries@[i as int]@.1));
                assert(dedup_rec(pending, seen) == seq![pending[0]] + dedup_rec(
                    pending.subrange(1, pending.len() as int),
                    seen.push(pending[0].1),
                ));
            }
            let ghost kept0 = infos_view(kept@);
            let info = ArticleInfo {
                title: entries[i].title.clone(),
                url: entries[i].url.clone(),
                date: entries[i].date.clone(),
            };
            kept.push(info);
            proof {
                assert(info@ == pending[0]);
                assert(infos_view(kept@) =~= kept0 + seq![pending[0]]);
                assert(infos_view(kept@).map_values(
                    |e: (Seq<char>, Seq<char>, Seq<char>)| e.1,
                ) =~= seen.push(pending[0].1));
            }
            if kept.len() == 10 {
                proof {
                    let tailval = dedup_rec(
                        pending.subrange(1, pending.len() as int),
                        seen.push(pending[0].1),
                    );
                    assert(dedup_by_url(all) == infos_view(kept@) + tailval);
                    lemma_take_of_prefix(dedup_by_url(all), infos_view(kept@));
                }
                return kept;
            }
        }
        i = i + 1;
    }
    proof {
        assert(all.subrange(all.len() as int, all.len() as int) =~= Seq::<
            (Seq<char>, Seq<char>, Seq<char>),
        >::empty());
        assert(dedup_rec(
            Seq::<(Seq<char>, Seq<char>, Seq<char>)>::empty(),
            infos_view(kept@).map_values(|e: (Seq<char>, Seq<char>, Seq<char>)| e.1),
        ) =~= Seq::<(Seq<char>, Seq<char>, Seq<char>)>::empty());
        assert(dedup_by_url(all) =~= infos_view(kept@));
    }
    kept
}

/// A list that starts with a ten-element prefix is capped to that prefix.
proof fn lemma_take_of_prefix(
    whole: Seq<(Seq<char>, Seq<char>, Seq<char>)>,
    prefix: Seq<(Seq<char>, Seq<char>, Seq<char>)>,
)
    requires
        prefix.len() == 10,
        exists|tail: Seq<(Seq<char>, Seq<char>, Seq<char>)>| whole == prefix + tail,
    ensures
        take_at_most(whole, 10) == prefix,
{
    let tail = choose|tail: Seq<(Seq<char>, Seq<char>, Seq<char>)>| whole == prefix + tail;
    if whole.len() <= 10 {
        assert(whole =~= prefix);
    } else {
        assert(whole.subrange(0, 10) =~= prefix);
    }
}

/// Scans one script text for loosely paired title and slug fields:
/// each complete quoted title is paired with the first complete quoted
/// slug in a bounded trailing window, the first reference of each URL is
/// kept, and the list is capped. Empty results read as failure.
pub fn extract_articles_from_any_json(script_text: &str) -> (r: Option<Vec<ArticleInfo>>)
    ensures
        match r {
            Some(list) => infos_view(list@) == any_json_articles_spec(script_text@)
                && list@.len() > 0,
            None => any_json_articles_spec(script_text@).len() == 0,
        },
{
    let s = str_to_chars(script_text);
    let gathered = gather_pairs_exec(&s);
    let capped = dedup_and_cap(&gathered);
    if capped.len() == 0 {
        None
    } else {
        Some(capped)
    }
}

/// Lexicographic order on character sequences, by code point.
pub open spec fn lex_le(a: Seq<char>, b: Seq<char>) -> bool
    decreases a.len(),
{
    if a.len() == 0 {
        true
    } else if b.len() == 0 {
        false
    } else if a[0] != b[0] {
        (a[0] as int) < (b[0] as int)
    } else {
        lex_le(a.subrange(1, a.len() as int), b.subrange(1, b.len() as int))
    }
}

/// The order is total.
pub proof fn lemma_lex_le_total(a: Seq<char>, b: Seq<char>)
    ensures
        lex_le(a, b) || lex_le(b, a),
    decreases a.len(),
{
    if a.len() == 0 {
    } else if b.len() == 0 {
    } else if a[0] == b[0] {
        lemma_lex_le_total(a.subrange(1, a.len() as int), b.subrange(1, b.len() as int));
    } else {
        assert((a[0] as int) != (b[0] as int));
    }
}

/// The order is antisymmetric.
pub proof fn lemma_lex_le_antisym(a: Seq<char>, b: Seq<char>)
    requires
        lex_le(a, b),
        lex_le(b, a),
    ensures
        a == b,
    decreases a.len(),
{
    if a.len() == 0 {
        assert(b.len() == 0);
        assert(a =~= b);
    } else {
        assert(b.len() > 0);
        assert(a[0] == b[0]);
        lemma_lex_le_antisym(a.subrange(1, a.len() as int), b.subrange(1, b.len() as int));
        assert(a =~= b) by {
            assert forall|i: int| 0 <= i < a.len() implies a[i] == b[i] by {
                if i > 0 {
                    assert(a.subrange(1, a.len() as int)[i - 1] == b.subrange(
                        1,
                        b.len() as int,
                    )[i - 1]);
                }
            }
        }
    }
}

/// The order is transitive.
pub proof fn lemma_lex_le_trans(a: Seq<char>, b: Seq<char>, c: Seq<char>)
    requires
        lex_le(a, b),
        lex_le(b, c),
    ensures
        lex_le(a, c),
    decreases a.len(),
{
    if a.len() > 0 && b.len() > 0 && c.len() > 0 {
        if a[0] == b[0] && b[0] == c[0] {
            lemma_lex_le_trans(
                a.subrange(1, a.len() as int),
                b.subrange(1, b.len() as int),
                c.subrange(1, c.len() as int),
            );
        }
    }
}

/// References in nondecreasing URL order.
pub open spec fn sorted_by_url(s: Seq<(Seq<char>, Seq<char>, Seq<char>)>) -> bool {
    forall|i: int| 0 <= i < s.len() - 1 ==> lex_le((#[trigger] s[i]).1, s[i + 1].1)
}

/// One reference placed into a sorted list, after every reference whose
/// URL does not come later: a stable insertion.
pub open spec fn insert_sorted(
    x: (Seq<char>, Seq<char>, Seq<char>),
    s: Seq<(Seq<char>, Seq<char>, Seq<char>)>,
) -> Seq<(Seq<char>, Seq<char>, Seq<char>)>
    decreases s.len(),
{
    if s.len() == 0 {
        seq![x]
    } else if lex_le(s[0].1, x.1) {
        seq![s[0]] + insert_sorted(x, s.subrange(1, s.len() as int))
    } else {
        seq![x] + s
    }
}

/// The reference list sorted by URL, stably.
pub open spec fn sort_by_url(s: Seq<(Seq<char>, Seq<char>, Seq<char>)>) -> Seq<
    (Seq<char>, Seq<char>, Seq<char>),
>
    decreases s.len(),
{
    if s.len() == 0 {
        Seq::empty()
    } else {
        insert_sorted(s[s.len() - 1], sort_by_url(s.subrange(0, s.len() - 1)))
    }
}

/// Insertion keeps the list sorted.
proof fn lemma_insert_sorted_sorted(
    x: (Seq<char>, Seq<char>, Seq<char>),
    s: Seq<(Seq<char>, Seq<char>, Seq<char>)>,
)
    requires
        sorted_by_url(s),
    ensures
        sorted_by_url(insert_sorted(x, s)),
        insert_sorted(x, s).len() == s.len() + 1,
    decreases s.len(),
{
    if s.len() == 0 {
    } else if lex_le(s[0].1, x.1) {
        let rest = s.subrange(1, s.len() as int);
        assert(sorted_by_url(rest)) by {
            assert forall|i: int| 0 <= i < rest.len() - 1 implies lex_le(
                (#[trigger] rest[i]).1,
                rest[i + 1].1,
            ) by {
                assert(rest[i] == s[i + 1]);
                assert(rest[i + 1] == s[i + 2]);
            }
        }
        lemma_insert_sorted_sorted(x, rest);
        let out = seq![s[0]] + insert_sorted(x, rest);
        let ins = insert_sorted(x, rest);
        assert forall|i: int| 0 <= i < out.len() - 1 implies lex_le(
            (#[trigger] out[i]).1,
            out[i + 1].1,
        ) by {
            if i == 0 {
                if rest.len() == 0 {
                    assert(out[1] == x);
                } else if lex_le(rest[0].1, x.1) {
                    assert(ins[0] == rest[0]);
                    assert(rest[0] == s[1]);
                    if s.len() >= 2 {
                        assert(lex_le(s[0].1, s[1].1));
                    } else {
                        assert(lex_le(s[0].1, x.1));
                    }
                } else {
                    assert(ins[0] == x);
                }
            } else {
                assert(out[i] == ins[i - 1]);
                assert(out[i + 1] == ins[i]);
            }
        }
    } else {
        lemma_lex_le_total(s[0].1, x.1);
        let out = seq![x] + s;
        assert forall|i: int| 0 <= i < out.len() - 1 implies lex_le(
            (#[trigger] out[i]).1,
            out[i + 1].1,
        ) by {
            if i == 0 {
                assert(out[1] == s[0]);
            } else {
                assert(out[i] == s[i - 1]);
                assert(out[i + 1] == s[i]);
            }
        }
    }
}

/// The sorted list is sorted.
proof fn lemma_sort_by_url_sorted(s: Seq<(Seq<char>, Seq<char>, Seq<char>)>)
    ensures
        sorted_by_url(sort_by_url(s)),
        sort_by_url(s).len() == s.len(),
    decreases s.len(),
{
    if s.len() > 0 {
        lemma_sort_by_url_sorted(s.subrange(0, s.len() - 1));
        lemma_insert_sorted_sorted(s[s.len() - 1], sort_by_url(s.subrange(0, s.len() - 1)));
    }
}

/// Consecutive references with one URL collapsed to the first, after a
/// kept reference `prev`.
pub open spec fn dedup_from(
    prev: (Seq<char>, Seq<char>, Seq<char>),
    s: Seq<(Seq<char>, Seq<char>, Seq<char>)>,
) -> Seq<(Seq<char>, Seq<char>, Seq<char>)>
    decreases s.len(),
{
    if s.len() == 0 {
        Seq::empty()
    } else if s[0].1 == prev.1 {
        dedup_from(prev, s.subrange(1, s.len() as int))
    } else {
        seq![s[0]] + dedup_from(s[0], s.subrange(1, s.len() as int))
    }
}

/// Consecutive references with one URL collapsed to the first.
pub open spec fn dedup_adjacent(s: Seq<(Seq<char>, Seq<char>, Seq<char>)>) -> Seq<
    (Seq<char>, Seq<char>, Seq<char>),
> {
    if s.len() == 0 {
        Seq::empty()
    } else {
        seq![s[0]] + dedup_from(s[0], s.subrange(1, s.len() as int))
    }
}

/// On a sorted tail, everything the collapse keeps has a URL strictly
/// after the kept reference before it, in strictly increasing order.
proof fn lemma_dedup_from_increasing(
    prev: (Seq<char>, Seq<char>, Seq<char>),
    s: Seq<(Seq<char>, Seq<char>, Seq<char>)>,
)
    requires
        sorted_by_url(s),
        s.len() > 0 ==> lex_le(prev.1, s[0].1),
    ensures
        forall|k: int|
            0 <= k < dedup_from(prev, s).len() ==> lex_le(
                prev.1,
                (#[trigger] dedup_from(prev, s)[k]).1,
            ) && prev.1 != dedup_from(prev, s)[k].1,
        forall|a: int, b: int|
            0 <= a < b < dedup_from(prev, s).len() ==> (#[trigger] dedup_from(prev, s)[a]).1
                != (#[trigger] dedup_from(prev, s)[b]).1,
    decreases s.len(),
{
    if s.len() > 0 {
        let rest = s.subrange(1, s.len() as int);
        assert(sorted_by_url(rest)) by {
            assert forall|i: int| 0 <= i < rest.len() - 1 implies lex_le(
                (#[trigger] rest[i]).1,
                rest[i + 1].1,
            ) by {
                assert(rest[i] == s[i + 1]);
                assert(rest[i + 1] == s[i + 2]);
            }
        }
        if rest.len() > 0 {
            assert(rest[0] == s[1]);
            assert(lex_le(s[0].1, s[1].1));
        }
        if s[0].1 == prev.1 {
            if rest.len() > 0 {
                lemma_lex_le_trans(prev.1, s[0].1, rest[0].1);
            }
            lemma_dedup_from_increasing(prev, rest);
            assert(dedup_from(prev, s) == dedup_from(prev, rest));
        } else {
            lemma_dedup_from_increasing(s[0], rest);
            let out = dedup_from(prev, s);
            let tail = dedup_from(s[0], rest);
            assert(out == seq![s[0]] + tail);
            assert forall|k: int| 0 <= k < out.len() implies lex_le(
                prev.1,
                (#[trigger] out[k]).1,
            ) && prev.1 != out[k].1 by {
                if k == 0 {
                    assert(out[0] == s[0]);
                } else {
                    assert(out[k] == tail[k - 1]);
                    assert(lex_le(s[0].1, tail[k - 1].1));
                    lemma_lex_le_trans(prev.1, s[0].1, tail[k - 1].1);
                    if prev.1 == tail[k - 1].1 {
                        lemma_lex_le_antisym(prev.1, s[0].1);
                    }
                }
            }
            assert forall|a: int, b: int| 0 <= a < b < out.len() implies (#[trigger] out[a]).1
                != (#[trigger] out[b]).1 by {
                if a == 0 {
                    assert(out[b] == tail[b - 1]);
                } else {
                    assert(out[a] == tail[a - 1]);
                    assert(out[b] == tail[b - 1]);
                }
            }
        }
    }
}

/// After sorting, collapsing consecutive URLs leaves pairwise distinct
/// URLs.
pub proof fn lemma_sorted_dedup_unique(s: Seq<(Seq<char>, Seq<char>, Seq<char>)>)
    requires
        sorted_by_url(s),
    ensures
        forall|a: int, b: int|
            0 <= a < b < dedup_adjacent(s).len() ==> (#[trigger] dedup_adjacent(s)[a]).1
                != (#[trigger] dedup_adjacent(s)[b]).1,
{
    if s.len() > 0 {
        let rest = s.subrange(1, s.len() as int);
        assert(sorted_by_url(rest)) by {
            assert forall|i: int| 0 <= i < rest.len() - 1 implies lex_le(
                (#[trigger] rest[i]).1,
                rest[i + 1].1,
            ) by {
                assert(rest[i] == s[i + 1]);
                assert(rest[i + 1] == s[i + 2]);
            }
        }
        if rest.len() > 0 {
            assert(rest[0] == s[1]);
            assert(lex_le(s[0].1, s[1].1));
        }
        lemma_dedup_from_increasing(s[0], rest);
        let out = dedup_adjacent(s);
        let tail = dedup_from(s[0], rest);
        assert forall|a: int, b: int| 0 <= a < b < out.len() implies (#[trigger] out[a]).1
            != (#[trigger] out[b]).1 by {
            if a == 0 {
                assert(out[0] == s[0]);
                assert(out[b] == tail[b - 1]);
            } else {
                assert(out[a] == tail[a - 1]);
                assert(out[b] == tail[b - 1]);
            }
        }
    }
}

/// Executable mirror of [`lex_le`].
fn lex_le_exec(a: &Vec<char>, b: &Vec<char>) -> (r: bool)
    ensures
        r == lex_le(a@, b@),
{
    let alen = a.len();
    let blen = b.len();
    proof {
        assert(a@.subrange(0, alen as int) =~= a@);
        assert(b@.subrange(0, blen as int) =~= b@);
    }
    let mut j: usize = 0;
    while j < alen && j < blen
        invariant
            0 <= j <= alen,
            j <= blen,
            a@.len() == alen,
            b@.len() == blen,
            lex_le(a@, b@) == lex_le(
                a@.subrange(j as int, alen as int),
                b@.subrange(j as int, blen as int),
            ),
        decreases alen - j,
    {
        let ghost sa = a@.subrange(j as int, alen as int);
        let ghost sb = b@.subrange(j as int, blen as int);
        proof {
            assert(sa[0] == a@[j as int]);
            assert(sb[0] == b@[j as int]);
            assert(sa.subrange(1, sa.len() as int) =~= a@.subrange(j + 1, alen as int));
            assert(sb.subrange(1, sb.len() as int) =~= b@.subrange(j + 1, blen as int));
        }
        if a[j] != b[j] {
            return a[j] < b[j];
        }
        j = j + 1;
    }
    proof {
        let sa = a@.subrange(j as int, alen as int);
        let sb = b@.subrange(j as int, blen as int);
        if j == alen {
            assert(sa.len() == 0);
        } else {
            assert(sb.len() == 0);
            assert(sa.len() > 0);
        }
    }
    alen <= blen
}

/// A field-by-field copy of one reference.
fn clone_info(a: &ArticleInfo) -> (r: ArticleInfo)
    ensures
        r@ == a@,
{
    ArticleInfo { title: a.title.clone(), url: a.url.clone(), date: a.date.clone() }
}

/// A stable insertion at a position equals the recursive insertion.
proof fn lemma_insert_sorted_at(
    x: (Seq<char>, Seq<char>, Seq<char>),
    s: Seq<(Seq<char>, Seq<char>, Seq<char>)>,
    p: int,
)
    requires
        0 <= p <= s.len(),
        forall|k: int| 0 <= k < p ==> lex_le((#[trigger] s[k]).1, x.1),
        p < s.len() ==> !lex_le(s[p].1, x.1),
    ensures
        insert_sorted(x, s) == s.insert(p, x),
    decreases p,
{
    if p == 0 {
        if s.len() == 0 {
            assert(insert_sorted(x, s) =~= s.insert(0, x));
        } else {
            assert(seq![x] + s =~= s.insert(0, x));
        }
    } else {
        let rest = s.subrange(1, s.len() as int);
        assert(lex_le(s[0].1, x.1));
        assert forall|k: int| 0 <= k < p - 1 implies lex_le((#[trigger] rest[k]).1, x.1) by {
            assert(rest[k] == s[k + 1]);
        }
        if p - 1 < rest.len() {
            assert(rest[p - 1] == s[p]);
        }
        lemma_insert_sorted_at(x, rest, p - 1);
        assert(seq![s[0]] + rest.insert(p - 1, x) =~= s.insert(p, x));
    }
}

/// Inserts one reference into a URL-sorted list, after every reference
/// whose URL does not come later.
fn insert_by_url(out: &mut Vec<ArticleInfo>, x: ArticleInfo)
    ensures
        infos_view(final(out)@) == insert_sorted(x@, infos_view(old(out)@)),
{
    let ghost s = infos_view(out@);
    let xu = str_to_chars(x.url.as_str());
    let mut p: usize = 0;
    while p < out.len() && lex_le_exec(&str_to_chars(out[p].url.as_str()), &xu)
        invariant
            0 <= p <= out@.len(),
            out@ == old(out)@,
            s == infos_view(out@),
            xu@ == x@.1,
            forall|k: int| 0 <= k < p ==> lex_le((#[trigger] s[k]).1, x@.1),
        decreases out@.len() - p,
    {
        proof {
            assert(s[p as int] == out@[p as int]@);
        }
        p = p + 1;
    }
    proof {
        if p < out@.len() {
            assert(s[p as int] == out@[p as int]@);
        }
        lemma_insert_sorted_at(x@, s, p as int);
    }
    out.insert(p, x);
    proof {
        assert(infos_view(out@) =~= s.insert(p as int, x@));
    }
}

/// Sorts references by URL, stably, mirroring [`sort_by_url`].
fn sort_articles(entries: &Vec<ArticleInfo>) -> (r: Vec<ArticleInfo>)
    ensures
        infos_view(r@) == sort_by_url(infos_view(entries@)),
{
    let ghost all = infos_view(entries@);
    let mut out: Vec<ArticleInfo> = Vec::new();
    let mut i: usize = 0;
    proof {
        assert(all.subrange(0, 0) =~= Seq::<(Seq<char>, Seq<char>, Seq<char>)>::empty());
        assert(infos_view(out@) =~= sort_by_url(all.subrange(0, 0)));
    }
    while i < entries.len()
        invariant
            0 <= i <= entries@.len(),
            all == infos_view(entries@),
            infos_view(out@) == sort_by_url(all.subrange(0, i as int)),
        decreases entries@.len() - i,
    {
        let x = clone_info(&entries[i]);
        proof {
            assert(x@ == all[i as int]);
        }
        insert_by_url(&mut out, x);
        proof {
            let pre = all.subrange(0, i + 1);
            assert(pre[pre.len() - 1] == all[i as int]);
            assert(pre.subrange(0, pre.len() - 1) =~= all.subrange(0, i as int));
        }
        i = i + 1;
    }
    proof {
        assert(all.subrange(0, all.len() as int) =~= all);
    }
    out
}

/// Collapses consecutive references with one URL to the first, mirroring
/// [`dedup_adjacent`].
fn dedup_adjacent_articles(entries: &Vec<ArticleInfo>) -> (r: Vec<ArticleInfo>)
    ensures
        infos_view(r@) == dedup_adjacent(infos_view(entries@)),
{
    let ghost all = infos_view(entries@);
    let mut out: Vec<ArticleInfo> = Vec::new();
    if entries.len() == 0 {
        proof {
            assert(infos_view(out@) =~= dedup_adjacent(all));
        }
        return out;
    }
    out.push(clone_info(&entries[0]));
    let mut li: usize = 0;
    let mut i: usize = 1;
    proof {
        assert(infos_view(out@) =~= seq![all[0]]);
        assert(all.subrange(1, all.len() as int) == all.subrange(1, all.len() as int));
    }
    while i < entries.len()
        invariant
            1 <= i <= entries@.len(),
            li < i,
            all == infos_view(entries@),
            all[li as int] == entries@[li as int]@,
            dedup_adjacent(all) == infos_view(out@) + dedup_from(
                all[li as int],
                all.subrange(i as int, all.len() as int),
            ),
        decreases entries@.len() - i,
    {
        let ghost pending = all.subrange(i as int, all.len() as int);
        proof {
            assert(pending[0] == all[i as int]);
            assert(all[i as int] == entries@[i as int]@);
            assert(pending.subrange(1, pending.len() as int) =~= all.subrange(
                i + 1,
                all.len() as int,
            ));
        }
        if entries[i].url == entries[li].url {
            proof {
                assert(dedup_from(all[li as int], pending) == dedup_from(
                    all[li as int],
                    pending.subrange(1, pending.len() as int),
                ));
            }
        } else {
            let ghost out0 = infos_view(out@);
            out.push(clone_info(&entries[i]));
            proof {
                assert(infos_view(out@) =~= out0 + seq![all[i as int]]);
                assert(dedup_from(all[li as int], pending) == seq![pending[0]] + dedup_from(
                    pending[0],
                    pending.subrange(1, pending.len() as int),
                ));
            }
            li = i;
        }
        i = i + 1;
    }
    proof {
        assert(all.subrange(all.len() as int, all.len() as int) =~= Seq::<
            (Seq<char>, Seq<char>, Seq<char>),
        >::empty());
        assert(dedup_from(
            all[li as int],
            Seq::<(Seq<char>, Seq<char>, Seq<char>)>::empty(),
        ) =~= Seq::<(Seq<char>, Seq<char>, Seq<char>)>::empty());
        assert(dedup_adjacent(all) =~= infos_view(out@));
    }
    out
}

/// Substring marking an article link.
pub open spec fn articles_path() -> Seq<char> {
    "/articles/"@
}

/// The canonical URL behind a hyperlink: site-relative links get the
/// site's root, anything else is kept as written.
pub open spec fn static_url(href: Seq<char>) -> Seq<char> {
    if href.len() > 0 && href[0] == '/' {
        site_root() + href
    } else {
        href
    }
}

/// The reference one hyperlink element yields, if its target mentions
/// the article path and its visible text is long enough not to be a
/// decorative label.
pub open spec fn candidate_of(e: (Option<Seq<char>>, Seq<Seq<char>>)) -> Seq<
    (Seq<char>, Seq<char>, Seq<char>),
> {
    match e.0 {
        Some(href) => if crate::text::contains_pat(href, articles_path()) {
            let title = crate::text::trim_spec(crate::dom::concat_frags(e.1));
            if title.len() > 5 {
                seq![(title, static_url(href), fallback_date())]
            } else {
                Seq::empty()
            }
        } else {
            Seq::empty()
        },
        None => Seq::empty(),
    }
}

/// The references all hyperlinks of one structural query yield, in
/// document order.
pub open spec fn candidates_from_elems(es: Seq<(Option<Seq<char>>, Seq<Seq<char>>)>) -> Seq<
    (Seq<char>, Seq<char>, Seq<char>),
>
    decreases es.len(),
{
    if es.len() == 0 {
        Seq::empty()
    } else {
        candidate_of(es[0]) + candidates_from_elems(es.subrange(1, es.len() as int))
    }
}

/// The hyperlink queries tried against static markup, most specific
/// first.
pub open spec fn static_selectors() -> Seq<Seq<char>> {
    seq![
        "a[href*='/articles/']"@,
        "a[href^='/articles/']"@,
        ".article a"@,
        ".post a"@,
        "article a"@,
        "h1 a, h2 a, h3 a, h4 a"@,
    ]
}

/// The candidates of the first query that yields any.
pub open spec fn first_selector_candidates(h: Seq<char>, sels: Seq<Seq<char>>) -> Seq<
    (Seq<char>, Seq<char>, Seq<char>),
>
    decreases sels.len(),
{
    if sels.len() == 0 {
        Seq::empty()
    } else {
        let c = candidates_from_elems(
            crate::dom::selected_elements(h, sels[0], "href"@),
        );
        if c.len() > 0 {
            c
        } else {
            first_selector_candidates(h, sels.subrange(1, sels.len() as int))
        }
    }
}

/// What the static-markup strategy yields: the first query's candidates,
/// sorted by URL with exact duplicates collapsed.
pub open spec fn static_articles_spec(h: Seq<char>) -> Seq<(Seq<char>, Seq<char>, Seq<char>)> {
    dedup_adjacent(sort_by_url(first_selector_candidates(h, static_selectors())))
}

/// The candidates of one structural query, executably.
fn candidates_for_selector(html: &str, selector: &str) -> (r: Vec<ArticleInfo>)
    ensures
        infos_view(r@) == candidates_from_elems(
            crate::dom::selected_elements(html@, selector@, "href"@),
        ),
{
    let ghost es = crate::dom::selected_elements(html@, selector@, "href"@);
    let elems = crate::dom::select_elements(html, selector, "href");
    let mut out: Vec<ArticleInfo> = Vec::new();
    let pat = str_to_chars("/articles/");
    let mut i: usize = 0;
    proof {
        assert(es.subrange(0, es.len() as int) =~= es);
    }
    while i < elems.len()
        invariant
            0 <= i <= elems@.len(),
            elems@.len() == es.len(),
            forall|k: int| 0 <= k < es.len() ==> (#[trigger] elems@[k])@ == es[k],
            pat@ == articles_path(),
            candidates_from_elems(es) == infos_view(out@) + candidates_from_elems(
                es.subrange(i as int, es.len() as int),
            ),
        decreases elems@.len() - i,
    {
        let ghost pending = es.subrange(i as int, es.len() as int);
        let ghost out0 = infos_view(out@);
        proof {
            assert(pending[0] == es[i as int]);
            assert(pending.subrange(1, pending.len() as int) =~= es.subrange(
                i + 1,
                es.len() as int,
            ));
            assert(elems@[i as int]@ == es[i as int]);
        }
        let mut produced = false;
        match &elems[i].attr {
            Some(href) => {
                let hc = str_to_chars(href.as_str());
                if crate::text::contains_chars(&hc, &pat) {
                    let joined = crate::dom::concat_fragments(&elems[i].fragments);
                    let title = crate::text::trim_chars(&joined);
                    if title.len() > 5 {
                        let url = if hc.len() > 0 && hc[0] == '/' {
                            let mut u = str_to_chars("https://ledge.ai");
                            append_chars(&mut u, &hc);
                            chars_to_string(&u)
                        } else {
                            chars_to_string(&hc)
                        };
                        let info = ArticleInfo {
                            title: chars_to_string(&title),
                            url,
                            date: fallback_date_string(),
                        };
                        out.push(info);
                        produced = true;
                        proof {
                            assert(candidate_of(pending[0]) =~= seq![
                                (title@, static_url(hc@), fallback_date()),
                            ]);
                            assert(infos_view(out@) =~= out0 + candidate_of(pending[0]));
                        }
                    }
                }
            },
            None => {},
        }
        proof {
            if !produced {
                assert(candidate_of(pending[0]) =~= Seq::<
                    (Seq<char>, Seq<char>, Seq<char>),
                >::empty());
                assert(infos_view(out@) =~= out0 + candidate_of(pending[0]));
            }
        }
        i = i + 1;
    }
    proof {
        assert(es.subrange(es.len() as int, es.len() as int) =~= Seq::<
            (Option<Seq<char>>, Seq<Seq<char>>),
        >::empty());
    }
    out
}

/// Tries the hyperlink queries in order, keeps the first that yields
/// candidates, and returns them sorted by URL with exact duplicates
/// collapsed.
pub fn extract_from_static_html(html: &str) -> (r: Vec<ArticleInfo>)
    ensures
        infos_view(r@) == static_articles_spec(html@),
{
    let ghost sels = static_selectors();
    let ghost h = html@;
    proof {
        assert(sels.subrange(1, 6)[0] == sels[1]);
        assert(sels.subrange(1, 6).subrange(1, 5) =~= sels.subrange(2, 6));
        assert(sels.subrange(2, 6)[0] == sels[2]);
        assert(sels.subrange(2, 6).subrange(1, 4) =~= sels.subrange(3, 6));
        assert(sels.subrange(3, 6)[0] == sels[3]);
        assert(sels.subrange(3, 6).subrange(1, 3) =~= sels.subrange(4, 6));
        assert(sels.subrange(4, 6)[0] == sels[4]);
        assert(sels.subrange(4, 6).subrange(1, 2) =~= sels.subrange(5, 6));
        assert(sels.subrange(5, 6)[0] == sels[5]);
        assert(sels.subrange(5, 6).subrange(1, 1) =~= Seq::<Seq<char>>::empty());
    }
    let mut picked = candidates_for_selector(html, "a[href*='/articles/']");
    if picked.len() == 0 {
        proof {
            assert(first_selector_candidates(h, sels) == first_selector_candidates(
                h,
                sels.subrange(1, 6),
            )) by {
                assert(infos_view(picked@) =~= Seq::<(Seq<char>, Seq<char>, Seq<char>)>::empty());
            }
        }
        picked = candidates_for_selector(html, "a[href^='/articles/']");
    }
    if picked.len() == 0 {
        proof {
            assert(first_selector_candidates(h, sels.subrange(1, 6))
                == first_selector_candidates(h, sels.subrange(2, 6))) by {
                assert(infos_view(picked@) =~= Seq::<(Seq<char>, Seq<char>, Seq<char>)>::empty());
            }
        }
        picked = candidates_for_selector(html, ".article a");
    }
    if picked.len() == 0 {
        proof {
            assert(first_selector_candidates(h, sels.subrange(2, 6))
                == first_selector_candidates(h, sels.subrange(3, 6))) by {
                assert(infos_view(picked@) =~= Seq::<(Seq<char>, Seq<char>, Seq<char>)>::empty());
            }
        }
        picked = candidates_for_selector(html, ".post a");
    }
    if picked.len() == 0 {
        proof {
            assert(first_selector_candidates(h, sels.subrange(3, 6))
                == first_selector_candidates(h, sels.subrange(4, 6))) by {
                assert(infos_view(picked@) =~= Seq::<(Seq<char>, Seq<char>, Seq<char>)>::empty());
            }
        }
        picked = candidates_for_selector(html, "article a");
    }
    if picked.len() == 0 {
        proof {
            assert(first_selector_candidates(h, sels.subrange(4, 6))
                == first_selector_candidates(h, sels.subrange(5, 6))) by {
                assert(infos_view(picked@) =~= Seq::<(Seq<char>, Seq<char>, Seq<char>)>::empty());
            }
        }
        picked = candidates_for_selector(html, "h1 a, h2 a, h3 a, h4 a");
    }
    proof {
        if infos_view(picked@).len() == 0 {
            assert(first_selector_candidates(h, sels.subrange(5, 6))
                == first_selector_candidates(h, Seq::<Seq<char>>::empty())) by {
                assert(infos_view(picked@) =~= Seq::<(Seq<char>, Seq<char>, Seq<char>)>::empty());
            }
            assert(first_selector_candidates(h, Seq::<Seq<char>>::empty()) =~= Seq::<
                (Seq<char>, Seq<char>, Seq<char>),
            >::empty());
        }
        assert(infos_view(picked@) == first_selector_candidates(h, sels));
    }
    let sorted = sort_articles(&picked);
    dedup_adjacent_articles(&sorted)
}

/// What the embedded-state strategy yields on the page's inline scripts:
/// the pairing harvest of the first large, listing-bearing script that
/// yields anything.
pub open spec fn nuxt_data_spec_rec(es: Seq<(Option<Seq<char>>, Seq<Seq<char>>)>) -> Option<
    Seq<(Seq<char>, Seq<char>, Seq<char>)>,
>
    decreases es.len(),
{
    if es.len() == 0 {
        None
    } else {
        let txt = crate::dom::concat_frags(es[0].1);
        if crate::text::contains_pat(txt, "articles"@) && txt.len() > 1000
            && any_json_articles_spec(txt).len() > 0 {
            Some(any_json_articles_spec(txt))
        } else {
            nuxt_data_spec_rec(es.subrange(1, es.len() as int))
        }
    }
}

/// What the embedded-state strategy yields on a page.
pub open spec fn nuxt_data_spec(h: Seq<char>) -> Option<Seq<(Seq<char>, Seq<char>, Seq<char>)>> {
    nuxt_data_spec_rec(crate::dom::selected_elements(h, "script"@, "type"@))
}

/// Scans the page's inline scripts for one that is large, mentions the
/// listing keyword and yields paired references.
pub fn extract_from_nuxt_data(html: &str) -> (r: Result<Vec<ArticleInfo>, crate::ExtractError>)
    ensures
        match r {
            Ok(list) => nuxt_data_spec(html@) == Some(infos_view(list@)) && list@.len() > 0,
            Err(e) => nuxt_data_spec(html@) is None && e == crate::ExtractError::NoListingFound,
        },
{
    let ghost es = crate::dom::selected_elements(html@, "script"@, "type"@);
    let elems = crate::dom::select_elements(html, "script", "type");
    let kw = str_to_chars("articles");
    let mut i: usize = 0;
    proof {
        assert(es.subrange(0, es.len() as int) =~= es);
    }
    while i < elems.len()
        invariant
            0 <= i <= elems@.len(),
            elems@.len() == es.len(),
            es == crate::dom::selected_elements(html@, "script"@, "type"@),
            forall|k: int| 0 <= k < es.len() ==> (#[trigger] elems@[k])@ == es[k],
            kw@ == "articles"@,
            nuxt_data_spec_rec(es) == nuxt_data_spec_rec(
                es.subrange(i as int, es.len() as int),
            ),
        decreases elems@.len() - i,
    {
        let ghost pending = es.subrange(i as int, es.len() as int);
        proof {
            assert(pending[0] == es[i as int]);
            assert(pending.subrange(1, pending.len() as int) =~= es.subrange(
                i + 1,
                es.len() as int,
            ));
            assert(elems@[i as int]@ == es[i as int]);
        }
        let txt = crate::dom::concat_fragments(&elems[i].fragments);
        if crate::text::contains_chars(&txt, &kw) && txt.len() > 1000 {
            let script = chars_to_string(&txt);
            match extract_articles_from_any_json(script.as_str()) {
                Some(list) => {
                    proof {
                        assert(crate::dom::concat_frags(pending[0].1) == txt@);
                        assert(any_json_articles_spec(txt@) == infos_view(list@));
                        assert(any_json_articles_spec(txt@).len() > 0);
                        assert(nuxt_data_spec_rec(pending) == Some(any_json_articles_spec(txt@)));
                    }
                    return Ok(list);
                },
                None => {},
            }
        }
        i = i + 1;
    }
    proof {
        assert(es.subrange(es.len() as int, es.len() as int) =~= Seq::<
            (Option<Seq<char>>, Seq<Seq<char>>),
        >::empty());
    }
    Err(crate::ExtractError::NoListingFound)
}

/// What the listing extractor yields on a page: the embedded-state
/// strategy's references, else the static-markup strategy's, else
/// nothing.
pub open spec fn listing_spec(h: Seq<char>) -> Option<Seq<(Seq<char>, Seq<char>, Seq<char>)>> {
    match nuxt_data_spec(h) {
        Some(list) => Some(list),
        None => {
            let st = static_articles_spec(h);
            if st.len() > 0 {
                Some(st)
            } else {
                None
            }
        },
    }
}

/// Produces the page's ordered article references: embedded state first,
/// static markup second; an empty harvest is an error. No URL appears
/// twice in the output.
pub fn parse_articles_from_html(html: &str) -> (r: Result<
    Vec<ArticleInfo>,
    crate::ExtractError,
>)
    ensures
        match r {
            Ok(list) => listing_spec(html@) == Some(infos_view(list@)) && list@.len() > 0
                && (forall|a: int, b: int|
                0 <= a < b < list@.len() ==> (#[trigger] list@[a]@).1 != (#[trigger] list@[b]@).1),
            Err(e) => listing_spec(html@) is None && e == crate::ExtractError::NoListingFound,
        },
{
    match extract_from_nuxt_data(html) {
        Ok(list) => {
            proof {
                let h = html@;
                let es = crate::dom::selected_elements(h, "script"@, "type"@);
                lemma_nuxt_list_unique(es);
                assert forall|a: int, b: int| 0 <= a < b < list@.len() implies (
                #[trigger] list@[a]@).1 != (#[trigger] list@[b]@).1 by {
                    assert(infos_view(list@)[a] == list@[a]@);
                    assert(infos_view(list@)[b] == list@[b]@);
                }
            }
            Ok(list)
        },
        Err(_) => {
            let st = extract_from_static_html(html);
            if st.len() > 0 {
                proof {
                    lemma_sort_by_url_sorted(
                        first_selector_candidates(html@, static_selectors()),
                    );
                    lemma_sorted_dedup_unique(
                        sort_by_url(first_selector_candidates(html@, static_selectors())),
                    );
                    assert forall|a: int, b: int| 0 <= a < b < st@.len() implies (
                    #[trigger] st@[a]@).1 != (#[trigger] st@[b]@).1 by {
                        assert(infos_view(st@)[a] == st@[a]@);
                        assert(infos_view(st@)[b] == st@[b]@);
                    }
                }
                Ok(st)
            } else {
                proof {
                    assert(infos_view(st@) =~= Seq::<(Seq<char>, Seq<char>, Seq<char>)>::empty());
                }
                Err(crate::ExtractError::NoListingFound)
            }
        },
    }
}

/// Every harvest of the embedded-state strategy has pairwise distinct
/// URLs.
proof fn lemma_nuxt_list_unique(es: Seq<(Option<Seq<char>>, Seq<Seq<char>>)>)
    ensures
        match nuxt_data_spec_rec(es) {
            Some(list) => forall|a: int, b: int|
                0 <= a < b < list.len() ==> (#[trigger] list[a]).1 != (#[trigger] list[b]).1,
            None => true,
        },
    decreases es.len(),
{
    if es.len() > 0 {
        let txt = crate::dom::concat_frags(es[0].1);
        if crate::text::contains_pat(txt, "articles"@) && txt.len() > 1000
            && any_json_articles_spec(txt).len() > 0 {
            lemma_any_json_unique_urls(txt);
        } else {
            lemma_nuxt_list_unique(es.subrange(1, es.len() as int));
        }
    }
}

} // verus!
