//! Body extractor and markup renderer.
//!
//! Given an article page's raw text, recovers the article's body through
//! two strategies in order: mining embedded script payloads for long
//! quoted content fields, and falling back to the text of generic content
//! containers. Recovered text is cleaned of editor artifacts and rendered
//! to display markup.

use vstd::prelude::*;

use crate::content_filter::{box_open, close_marker, small_open, target_plain};
use crate::dom::{concat_frags, join_spaced, selected_elements};
use crate::text::{
    append_chars, chars_to_string, contains_pat, find_from, quote, replace_all, rule_views,
    sanitize_fix, str_to_chars, trim_spec, Rule, RuleSpec,
};

verus! {

/// Minimum character count for a candidate body to be viable.
pub open spec fn min_viable() -> int {
    300
}

/// A quoted field value of at least the minimum viable length: the first
/// occurrence of `marker`, at or after `from`, whose run to the next
/// quote is long enough.
pub open spec fn long_capture(s: Seq<char>, marker: Seq<char>, from: int) -> Option<Seq<char>>
    decreases s.len() - from + 1,
    via long_capture_decreases
{
    if from < 0 || marker.len() == 0 {
        None
    } else {
        match find_from(s, marker, from) {
            None => None,
            Some(i) => match find_from(s, quote(), i + marker.len() as int) {
                None => None,
                Some(q) => if q - (i + marker.len()) >= min_viable() {
                    Some(s.subrange(i + marker.len() as int, q))
                } else {
                    long_capture(s, marker, i + 1)
                },
            },
        }
    }
}

#[via_fn]
proof fn long_capture_decreases(s: Seq<char>, marker: Seq<char>, from: int) {
    if from >= 0 && marker.len() > 0 && find_from(s, marker, from) is Some {
        crate::text::lemma_find_from_spec(s, marker, from);
    }
}

/// No line break in the half-open character range `[lo, hi)`.
pub open spec fn no_newline(s: Seq<char>, lo: int, hi: int) -> bool {
    forall|k: int| lo <= k < hi ==> s[k] != '\n'
}

/// A long quoted value introduced by two phrase words and a quoted-field
/// opener on one line: the first occurrence of `w1`, at or after `from`,
/// followed on the same line by `w2` and then by `:"`, whose run to the
/// next quote is long enough. A failed occurrence moves the scan on.
pub open spec fn phrase_capture(s: Seq<char>, w1: Seq<char>, w2: Seq<char>, from: int) -> Option<
    Seq<char>,
>
    decreases s.len() - from + 1,
    via phrase_capture_decreases
{
    if from < 0 || w1.len() == 0 || w2.len() == 0 {
        None
    } else {
        match find_from(s, w1, from) {
            None => None,
            Some(a) => match find_from(s, w2, a + w1.len() as int) {
                None => None,
                Some(c) => match find_from(s, ":\""@, c + w2.len() as int) {
                    None => None,
                    Some(d) => {
                        let e = d + 2;
                        if no_newline(s, a + w1.len() as int, c) && no_newline(
                            s,
                            c + w2.len() as int,
                            d,
                        ) {
                            match find_from(s, quote(), e) {
                                None => None,
                                Some(q) => if q - e >= min_viable() {
                                    Some(s.subrange(e, q))
                                } else {
                                    phrase_capture(s, w1, w2, a + 1)
                                },
                            }
                        } else {
                            phrase_capture(s, w1, w2, a + 1)
                        }
                    },
                },
            },
        }
    }
}

#[via_fn]
proof fn phrase_capture_decreases(s: Seq<char>, w1: Seq<char>, w2: Seq<char>, from: int) {
    if from >= 0 && w1.len() > 0 && w2.len() > 0 && find_from(s, w1, from) is Some {
        crate::text::lemma_find_from_spec(s, w1, from);
    }
}

/// Escape sequences of an embedded payload resolved, and the plain
/// link-attribute artifact removed.
pub open spec fn unescape_clean(c: Seq<char>) -> Seq<char> {
    replace_all(
        replace_all(
            replace_all(
                replace_all(
                    replace_all(replace_all(c, "\\n"@, "\n"@), "\\r"@, "\r"@),
                    "\\t"@,
                    "\t"@,
                ),
                "\\\""@,
                "\""@,
            ),
            "\\/"@,
            "/"@,
        ),
        target_plain(),
        Seq::empty(),
    )
}

/// A capture accepted only if, once unescaped and cleaned, it is still
/// above the minimum viable length.
pub open spec fn accept_capture(cap: Option<Seq<char>>) -> Option<Seq<char>> {
    match cap {
        Some(c) => {
            let u = unescape_clean(c);
            if u.len() > min_viable() {
                Some(u)
            } else {
                None
            }
        },
        None => None,
    }
}

/// The body one embedded script payload yields: the field-name patterns
/// tried in order, each demanding the minimum viable length.
pub open spec fn script_content_spec(txt: Seq<char>) -> Option<Seq<char>> {
    match accept_capture(long_capture(txt, "\"body\":\""@, 0)) {
        Some(c) => Some(c),
        None => match accept_capture(long_capture(txt, "\"content\":\""@, 0)) {
            Some(c) => Some(c),
            None => match accept_capture(long_capture(txt, "\"markdown\":\""@, 0)) {
                Some(c) => Some(c),
                None => match accept_capture(long_capture(txt, "\"text\":\""@, 0)) {
                    Some(c) => Some(c),
                    None => match accept_capture(phrase_capture(txt, "article"@, "content"@, 0)) {
                        Some(c) => Some(c),
                        None => match accept_capture(phrase_capture(txt, "post"@, "body"@, 0)) {
                            Some(c) => Some(c),
                            None => accept_capture(
                                phrase_capture(txt, "contents"@, "body"@, 0),
                            ),
                        },
                    },
                },
            },
        },
    }
}

/// A script large enough, or marked as embedded state, to be worth
/// mining.
pub open spec fn script_qualifies(txt: Seq<char>) -> bool {
    contains_pat(txt, "__INITIAL_STATE__"@) || contains_pat(txt, "__NUXT__"@) || txt.len() > 5000
}

/// The body the page's inline scripts yield: the first qualifying script
/// whose payload yields one.
pub open spec fn scripts_content_rec(es: Seq<(Option<Seq<char>>, Seq<Seq<char>>)>) -> Option<
    Seq<char>,
>
    decreases es.len(),
{
    if es.len() == 0 {
        None
    } else {
        let txt = concat_frags(es[0].1);
        if script_qualifies(txt) && script_content_spec(txt) is Some {
            script_content_spec(txt)
        } else {
            scripts_content_rec(es.subrange(1, es.len() as int))
        }
    }
}

/// What the script-payload strategy yields on a page.
pub open spec fn scripts_content_spec(h: Seq<char>) -> Option<Seq<char>> {
    scripts_content_rec(selected_elements(h, "script"@, "type"@))
}

/// Whatever the script-payload strategy accepts is above the minimum
/// viable length.
pub proof fn law_script_content_viable(h: Seq<char>)
    ensures
        match scripts_content_spec(h) {
            Some(c) => c.len() > min_viable(),
            None => true,
        },
{
    lemma_scripts_content_rec_viable(selected_elements(h, "script"@, "type"@));
}

proof fn lemma_scripts_content_rec_viable(es: Seq<(Option<Seq<char>>, Seq<Seq<char>>)>)
    ensures
        match scripts_content_rec(es) {
            Some(c) => c.len() > min_viable(),
            None => true,
        },
    decreases es.len(),
{
    if es.len() > 0 {
        let txt = concat_frags(es[0].1);
        if !(script_qualifies(txt) && script_content_spec(txt) is Some) {
            lemma_scripts_content_rec_viable(es.subrange(1, es.len() as int));
        }
    }
}

/// Executable mirror of [`no_newline`].
fn no_newline_exec(s: &Vec<char>, lo: usize, hi: usize) -> (r: bool)
    requires
        lo <= hi <= s@.len(),
    ensures
        r == no_newline(s@, lo as int, hi as int),
{
    let mut k: usize = lo;
    while k < hi
        invariant
            lo <= k <= hi <= s@.len(),
            forall|m: int| lo <= m < k ==> s@[m] != '\n',
        decreases hi - k,
    {
        if s[k] == '\n' {
            return false;
        }
        k = k + 1;
    }
    true
}

/// Executable mirror of [`long_capture`].
fn long_capture_exec(s: &Vec<char>, marker: &Vec<char>, qm: &Vec<char>) -> (r: Option<Vec<char>>)
    requires
        marker@.len() > 0,
        qm@ == quote(),
    ensures
        match r {
            Some(c) => long_capture(s@, marker@, 0) == Some(c@),
            None => long_capture(s@, marker@, 0) is None,
        },
{
    let n = s.len();
    proof {
        reveal_strlit("\"");
    }
    let mut from: usize = 0;
    loop
        invariant
            from <= s@.len(),
            s@.len() == n,
            marker@.len() > 0,
            qm@ == quote(),
            qm@.len() == 1,
            long_capture(s@, marker@, 0) == long_capture(s@, marker@, from as int),
        ensures
            match long_capture(s@, marker@, 0) {
                Some(_) => false,
                None => true,
            },
        decreases s@.len() - from,
    {
        match crate::text::find_in(s, marker, from) {
            None => {
                break;
            },
            Some(i) => {
                proof {
                    crate::text::lemma_find_from_spec(s@, marker@, from as int);
                }
                match crate::text::find_in(s, qm, i + marker.len()) {
                    None => {
                        break;
                    },
                    Some(q) => {
                        proof {
                            crate::text::lemma_find_from_spec(
                                s@,
                                qm@,
                                i + marker@.len() as int,
                            );
                        }
                        if q - (i + marker.len()) >= 300 {
                            let c = crate::text::subvec(s, i + marker.len(), q);
                            return Some(c);
                        }
                        from = i + 1;
                    },
                }
            },
        }
    }
    None
}

/// Executable mirror of [`phrase_capture`].
fn phrase_capture_exec(
    s: &Vec<char>,
    w1: &Vec<char>,
    w2: &Vec<char>,
    cm: &Vec<char>,
    qm: &Vec<char>,
) -> (r: Option<Vec<char>>)
    requires
        w1@.len() > 0,
        w2@.len() > 0,
        cm@ == ":\""@,
        qm@ == quote(),
    ensures
        match r {
            Some(c) => phrase_capture(s@, w1@, w2@, 0) == Some(c@),
            None => phrase_capture(s@, w1@, w2@, 0) is None,
        },
{
    let n = s.len();
    proof {
        reveal_strlit(":\"");
        reveal_strlit("\"");
    }
    let mut from: usize = 0;
    loop
        invariant
            from <= s@.len(),
            s@.len() == n,
            w1@.len() > 0,
            w2@.len() > 0,
            cm@ == ":\""@,
            cm@.len() == 2,
            qm@ == quote(),
            qm@.len() == 1,
            phrase_capture(s@, w1@, w2@, 0) == phrase_capture(s@, w1@, w2@, from as int),
        ensures
            phrase_capture(s@, w1@, w2@, 0) is None,
        decreases s@.len() - from,
    {
        match crate::text::find_in(s, w1, from) {
            None => {
                break;
            },
            Some(a) => {
                proof {
                    crate::text::lemma_find_from_spec(s@, w1@, from as int);
                }
                match crate::text::find_in(s, w2, a + w1.len()) {
                    None => {
                        break;
                    },
                    Some(c) => {
                        proof {
                            crate::text::lemma_find_from_spec(s@, w2@, a + w1@.len() as int);
                        }
                        match crate::text::find_in(s, cm, c + w2.len()) {
                            None => {
                                break;
                            },
                            Some(d) => {
                                proof {
                                    crate::text::lemma_find_from_spec(
                                        s@,
                                        cm@,
                                        c + w2@.len() as int,
                                    );
                                }
                                let e = d + 2;
                                if no_newline_exec(s, a + w1.len(), c) && no_newline_exec(
                                    s,
                                    c + w2.len(),
                                    d,
                                ) {
                                    match crate::text::find_in(s, qm, e) {
                                        None => {
                                            break;
                                        },
                                        Some(q) => {
                                            proof {
                                                crate::text::lemma_find_from_spec(
                                                    s@,
                                                    qm@,
                                                    e as int,
                                                );
                                            }
                                            if q - e >= 300 {
                                                let cap = crate::text::subvec(s, e, q);
                                                return Some(cap);
                                            }
                                            from = a + 1;
                                        },
                                    }
                                } else {
                                    from = a + 1;
                                }
                            },
                        }
                    },
                }
            },
        }
    }
    None
}

/// Executable mirror of [`unescape_clean`].
fn unescape_clean_exec(c: &Vec<char>) -> (r: Vec<char>)
    ensures
        r@ == unescape_clean(c@),
{
    let empty: Vec<char> = Vec::new();
    let r1 = crate::text::replace_all_chars(c, &str_to_chars("\\n"), &str_to_chars("\n"));
    let r2 = crate::text::replace_all_chars(&r1, &str_to_chars("\\r"), &str_to_chars("\r"));
    let r3 = crate::text::replace_all_chars(&r2, &str_to_chars("\\t"), &str_to_chars("\t"));
    let r4 = crate::text::replace_all_chars(&r3, &str_to_chars("\\\""), &str_to_chars("\""));
    let r5 = crate::text::replace_all_chars(&r4, &str_to_chars("\\/"), &str_to_chars("/"));
    crate::text::replace_all_chars(&r5, &str_to_chars("{target=\"_blank\"}"), &empty)
}

/// Executable mirror of [`accept_capture`] applied to one capture.
fn accept_capture_exec(cap: Option<Vec<char>>) -> (r: Option<Vec<char>>)
    ensures
        match (r, cap) {
            (Some(u), Some(c)) => accept_capture(Some(c@)) == Some(u@),
            (None, Some(c)) => accept_capture(Some(c@)) is None,
            (None, None) => true,
            (Some(_), None) => false,
        },
{
    match cap {
        Some(c) => {
            let u = unescape_clean_exec(&c);
            if u.len() > 300 {
                Some(u)
            } else {
                None
            }
        },
        None => None,
    }
}

/// Executable mirror of [`script_content_spec`].
fn extract_content_from_script(txt: &Vec<char>) -> (r: Option<Vec<char>>)
    ensures
        match r {
            Some(c) => script_content_spec(txt@) == Some(c@),
            None => script_content_spec(txt@) is None,
        },
{
    let qm = str_to_chars("\"");
    let cm = str_to_chars(":\"");
    proof {
        reveal_strlit("\"");
        reveal_strlit(":\"");
        reveal_strlit("\"body\":\"");
        reveal_strlit("\"content\":\"");
        reveal_strlit("\"markdown\":\"");
        reveal_strlit("\"text\":\"");
        reveal_strlit("article");
        reveal_strlit("post");
        reveal_strlit("contents");
        reveal_strlit("content");
        reveal_strlit("body");
    }
    match accept_capture_exec(long_capture_exec(txt, &str_to_chars("\"body\":\""), &qm)) {
        Some(c) => Some(c),
        None => match accept_capture_exec(
            long_capture_exec(txt, &str_to_chars("\"content\":\""), &qm),
        ) {
            Some(c) => Some(c),
            None => match accept_capture_exec(
                long_capture_exec(txt, &str_to_chars("\"markdown\":\""), &qm),
            ) {
                Some(c) => Some(c),
                None => match accept_capture_exec(
                    long_capture_exec(txt, &str_to_chars("\"text\":\""), &qm),
                ) {
                    Some(c) => Some(c),
                    None => match accept_capture_exec(
                        phrase_capture_exec(
                            txt,
                            &str_to_chars("article"),
                            &str_to_chars("content"),
                            &cm,
                            &qm,
                        ),
                    ) {
                        Some(c) => Some(c),
                        None => match accept_capture_exec(
                            phrase_capture_exec(
                                txt,
                                &str_to_chars("post"),
                                &str_to_chars("body"),
                                &cm,
                                &qm,
                            ),
                        ) {
                            Some(c) => Some(c),
                            None => accept_capture_exec(
                                phrase_capture_exec(
                                    txt,
                                    &str_to_chars("contents"),
                                    &str_to_chars("body"),
                                    &cm,
                                    &qm,
                                ),
                            ),
                        },
                    },
                },
            },
        },
    }
}

/// Scans the page's inline scripts for a qualifying one whose payload
/// yields a viable body.
pub fn extract_from_script_tags(html: &str) -> (r: Result<String, crate::ExtractError>)
    ensures
        match r {
            Ok(c) => scripts_content_spec(html@) == Some(c@),
            Err(e) => scripts_content_spec(html@) is None && e
                == crate::ExtractError::NoBodyFound,
        },
{
    let ghost es = selected_elements(html@, "script"@, "type"@);
    let elems = crate::dom::select_elements(html, "script", "type");
    let m1 = str_to_chars("__INITIAL_STATE__");
    let m2 = str_to_chars("__NUXT__");
    let mut i: usize = 0;
    proof {
        assert(es.subrange(0, es.len() as int) =~= es);
    }
    while i < elems.len()
        invariant
            0 <= i <= elems@.len(),
            elems@.len() == es.len(),
            es == selected_elements(html@, "script"@, "type"@),
            forall|k: int| 0 <= k < es.len() ==> (#[trigger] elems@[k])@ == es[k],
            m1@ == "__INITIAL_STATE__"@,
            m2@ == "__NUXT__"@,
            scripts_content_rec(es) == scripts_content_rec(
                es.subrange(i as int, es.len() as int),
            ),
        decreases elems@.len() - i,
    {
        let ghost pending = es.subrange(i as int, es.len() as int);
        proof {
            assert(pending[0] == es[i as int]);
            assert(pending.subrange(1, pending.len() as int) =~= es.subrange(
                i + 1,
                es.len() as int,
            ));
            assert(elems@[i as int]@ == es[i as int]);
        }
        let txt = crate::dom::concat_fragments(&elems[i].fragments);
        if crate::text::contains_chars(&txt, &m1) || crate::text::contains_chars(&txt, &m2)
            || txt.len() > 5000 {
            match extract_content_from_script(&txt) {
                Some(c) => {
                    proof {
                        assert(concat_frags(pending[0].1) == txt@);
                        assert(scripts_content_rec(pending) == Some(c@));
                    }
                    return Ok(chars_to_string(&c));
                },
                None => {},
            }
        }
        i = i + 1;
    }
    proof {
        assert(es.subrange(es.len() as int, es.len() as int) =~= Seq::<
            (Option<Seq<char>>, Seq<Seq<char>>),
        >::empty());
    }
    Err(crate::ExtractError::NoBodyFound)
}

/// The content-container queries tried against the page, most specific
/// first.
pub open spec fn region_selectors() -> Seq<Seq<char>> {
    seq![
        ".article-body"@,
        ".post-body"@,
        ".content-body"@,
        "article .content"@,
        ".entry-content"@,
        "main article"@,
        "article"@,
        ".post-content"@,
        "main"@,
        "[role='main']"@,
    ]
}

/// Boilerplate interface labels stripped from container text, and the
/// plain link-attribute artifact with them.
pub open spec fn region_strip_rules() -> Seq<RuleSpec> {
    seq![
        RuleSpec::Literal("クリップする"@),
        RuleSpec::Literal("アクセスランキング"@),
        RuleSpec::Literal("関連記事"@),
        RuleSpec::Literal("人気のタグ"@),
        RuleSpec::Literal("FOLLOW US"@),
        RuleSpec::Literal(target_plain()),
    ]
}

/// The strip rules applied once, in order.
pub open spec fn region_cleaned(c: Seq<char>) -> Seq<char> {
    crate::text::apply_rules_spec(c, region_strip_rules())
}

/// The heading marker put above recovered container text, so rendering
/// always has a title anchor.
pub open spec fn region_heading() -> Seq<char> {
    "# Article Content\n\n"@
}

/// The body the elements of one container query yield: the first whose
/// spaced text is above the minimum viable length, stripped of
/// boilerplate and anchored under a heading.
pub open spec fn region_from_elems(es: Seq<(Option<Seq<char>>, Seq<Seq<char>>)>) -> Option<
    Seq<char>,
>
    decreases es.len(),
{
    if es.len() == 0 {
        None
    } else {
        let content = join_spaced(es[0].1);
        if content.len() > min_viable() {
            Some(region_heading() + trim_spec(region_cleaned(content)))
        } else {
            region_from_elems(es.subrange(1, es.len() as int))
        }
    }
}

/// What the container strategy yields: the first query, in order, whose
/// elements yield a body.
pub open spec fn region_content_rec(h: Seq<char>, sels: Seq<Seq<char>>) -> Option<Seq<char>>
    decreases sels.len(),
{
    if sels.len() == 0 {
        None
    } else {
        match region_from_elems(selected_elements(h, sels[0], "role"@)) {
            Some(c) => Some(c),
            None => region_content_rec(h, sels.subrange(1, sels.len() as int)),
        }
    }
}

/// What the container strategy yields on a page.
pub open spec fn region_content_spec(h: Seq<char>) -> Option<Seq<char>> {
    region_content_rec(h, region_selectors())
}

/// The executable strip-rule list.
fn build_region_strip_rules() -> (r: Vec<Rule>)
    ensures
        rule_views(r@) == region_strip_rules(),
{
    let mut rules: Vec<Rule> = Vec::new();
    rules.push(Rule::Literal(str_to_chars("クリップする")));
    rules.push(Rule::Literal(str_to_chars("アクセスランキング")));
    rules.push(Rule::Literal(str_to_chars("関連記事")));
    rules.push(Rule::Literal(str_to_chars("人気のタグ")));
    rules.push(Rule::Literal(str_to_chars("FOLLOW US")));
    rules.push(Rule::Literal(str_to_chars("{target=\"_blank\"}")));
    proof {
        assert(rule_views(rules@) =~= region_strip_rules());
    }
    rules
}

/// The body the elements of one container query yield, executably.
fn region_for_selector(html: &str, selector: &str) -> (r: Option<Vec<char>>)
    ensures
        match r {
            Some(c) => region_from_elems(selected_elements(html@, selector@, "role"@)) == Some(
                c@,
            ),
            None => region_from_elems(selected_elements(html@, selector@, "role"@)) is None,
        },
{
    let ghost es = selected_elements(html@, selector@, "role"@);
    let elems = crate::dom::select_elements(html, selector, "role");
    let rules = build_region_strip_rules();
    let mut i: usize = 0;
    proof {
        assert(es.subrange(0, es.len() as int) =~= es);
    }
    while i < elems.len()
        invariant
            0 <= i <= elems@.len(),
            elems@.len() == es.len(),
            es == selected_elements(html@, selector@, "role"@),
            forall|k: int| 0 <= k < es.len() ==> (#[trigger] elems@[k])@ == es[k],
            rule_views(rules@) == region_strip_rules(),
            region_from_elems(es) == region_from_elems(
                es.subrange(i as int, es.len() as int),
            ),
        decreases elems@.len() - i,
    {
        let ghost pending = es.subrange(i as int, es.len() as int);
        proof {
            assert(pending[0] == es[i as int]);
            assert(pending.subrange(1, pending.len() as int) =~= es.subrange(
                i + 1,
                es.len() as int,
            ));
            assert(elems@[i as int]@ == es[i as int]);
        }
        let content = crate::dom::join_fragments_spaced(&elems[i].fragments);
        if content.len() > 300 {
            let cleaned = crate::text::apply_rules(&content, &rules);
            let trimmed = crate::text::trim_chars(&cleaned);
            let mut out = str_to_chars("# Article Content\n\n");
            append_chars(&mut out, &trimmed);
            proof {
                assert(join_spaced(pending[0].1) == content@);
                assert(region_from_elems(pending) == Some(
                    region_heading() + trim_spec(region_cleaned(content@)),
                ));
            }
            return Some(out);
        }
        i = i + 1;
    }
    proof {
        assert(es.subrange(es.len() as int, es.len() as int) =~= Seq::<
            (Option<Seq<char>>, Seq<Seq<char>>),
        >::empty());
    }
    None
}

/// Tries the container queries in order and keeps the first body.
pub fn extract_from_html_content(html: &str) -> (r: Result<String, crate::ExtractError>)
    ensures
        match r {
            Ok(c) => region_content_spec(html@) == Some(c@),
            Err(e) => region_content_spec(html@) is None && e == crate::ExtractError::NoBodyFound,
        },
{
    let ghost sels = region_selectors();
    let ghost h = html@;
    proof {
        assert(sels.subrange(1, 10)[0] == sels[1]);
        assert(sels.subrange(1, 10).subrange(1, 9) =~= sels.subrange(2, 10));
        assert(sels.subrange(2, 10)[0] == sels[2]);
        assert(sels.subrange(2, 10).subrange(1, 8) =~= sels.subrange(3, 10));
        assert(sels.subrange(3, 10)[0] == sels[3]);
        assert(sels.subrange(3, 10).subrange(1, 7) =~= sels.subrange(4, 10));
        assert(sels.subrange(4, 10)[0] == sels[4]);
        assert(sels.subrange(4, 10).subrange(1, 6) =~= sels.subrange(5, 10));
        assert(sels.subrange(5, 10)[0] == sels[5]);
        assert(sels.subrange(5, 10).subrange(1, 5) =~= sels.subrange(6, 10));
        assert(sels.subrange(6, 10)[0] == sels[6]);
        assert(sels.subrange(6, 10).subrange(1, 4) =~= sels.subrange(7, 10));
        assert(sels.subrange(7, 10)[0] == sels[7]);
        assert(sels.subrange(7, 10).subrange(1, 3) =~= sels.subrange(8, 10));
        assert(sels.subrange(8, 10)[0] == sels[8]);
        assert(sels.subrange(8, 10).subrange(1, 2) =~= sels.subrange(9, 10));
        assert(sels.subrange(9, 10)[0] == sels[9]);
        assert(sels.subrange(9, 10).subrange(1, 1) =~= Seq::<Seq<char>>::empty());
        assert(region_content_rec(h, Seq::<Seq<char>>::empty()) is None);
    }
    match region_for_selector(html, ".article-body") {
        Some(c) => {
            proof {
                assert(region_content_rec(h, sels) == Some(c@));
            }
            return Ok(chars_to_string(&c));
        },
        None => {},
    }
    proof {
        assert(region_content_rec(h, sels) == region_content_rec(h, sels.subrange(1, 10)));
    }
    match region_for_selector(html, ".post-body") {
        Some(c) => {
            proof {
                assert(region_content_rec(h, sels.subrange(1, 10)) == Some(c@));
            }
            return Ok(chars_to_string(&c));
        },
        None => {},
    }
    proof {
        assert(region_content_rec(h, sels.subrange(1, 10)) == region_content_rec(h, sels.subrange(2, 10)));
    }
    match region_for_selector(html, ".content-body") {
        Some(c) => {
            proof {
                assert(region_content_rec(h, sels.subrange(2, 10)) == Some(c@));
            }
            return Ok(chars_to_string(&c));
        },
        None => {},
    }
    proof {
        assert(region_content_rec(h, sels.subrange(2, 10)) == region_content_rec(h, sels.subrange(3, 10)));
    }
    match region_for_selector(html, "article .content") {
        Some(c) => {
            proof {
                assert(region_content_rec(h, sels.subrange(3, 10)) == Some(c@));
            }
            return Ok(chars_to_string(&c));
        },
        None => {},
    }
    proof {
        assert(region_content_rec(h, sels.subrange(3, 10)) == region_content_rec(h, sels.subrange(4, 10)));
    }
    match region_for_selector(html, ".entry-content") {
        Some(c) => {
            proof {
                assert(region_content_rec(h, sels.subrange(4, 10)) == Some(c@));
            }
            return Ok(chars_to_string(&c));
        },
        None => {},
    }
    proof {
        assert(region_content_rec(h, sels.subrange(4, 10)) == region_content_rec(h, sels.subrange(5, 10)));
    }
    match region_for_selector(html, "main article") {
        Some(c) => {
            proof {
                assert(region_content_rec(h, sels.subrange(5, 10)) == Some(c@));
            }
            return Ok(chars_to_string(&c));
        },
        None => {},
    }
    proof {
        assert(region_content_rec(h, sels.subrange(5, 10)) == region_content_rec(h, sels.subrange(6, 10)));
    }
    match region_for_selector(html, "article") {
        Some(c) => {
            proof {
                assert(region_content_rec(h, sels.subrange(6, 10)) == Some(c@));
            }
            return Ok(chars_to_string(&c));
        },
        None => {},
    }
    proof {
        assert(region_content_rec(h, sels.subrange(6, 10)) == region_content_rec(h, sels.subrange(7, 10)));
    }
    match region_for_selector(html, ".post-content") {
        Some(c) => {
            proof {
                assert(region_content_rec(h, sels.subrange(7, 10)) == Some(c@));
            }
            return Ok(chars_to_string(&c));
        },
        None => {},
    }
    proof {
        assert(region_content_rec(h, sels.subrange(7, 10)) == region_content_rec(h, sels.subrange(8, 10)));
    }
    match region_for_selector(html, "main") {
        Some(c) => {
            proof {
                assert(region_content_rec(h, sels.subrange(8, 10)) == Some(c@));
            }
            return Ok(chars_to_string(&c));
        },
        None => {},
    }
    proof {
        assert(region_content_rec(h, sels.subrange(8, 10)) == region_content_rec(h, sels.subrange(9, 10)));
    }
    match region_for_selector(html, "[role='main']") {
        Some(c) => {
            proof {
                assert(region_content_rec(h, sels.subrange(9, 10)) == Some(c@));
            }
            return Ok(chars_to_string(&c));
        },
        None => {},
    }
    proof {
        assert(region_content_rec(h, sels.subrange(9, 10)) == region_content_rec(h, Seq::<Seq<char>>::empty()));
    }
    Err(crate::ExtractError::NoBodyFound)
}

/// What the body extractor yields: a long enough script payload first,
/// a container body second, each with a final artifact sweep.
pub open spec fn article_content_spec(h: Seq<char>) -> Option<Seq<char>> {
    match scripts_content_spec(h) {
        Some(c) => if c.len() > 100 {
            Some(replace_all(c, target_plain(), Seq::empty()))
        } else {
            match region_content_spec(h) {
                Some(d) => Some(replace_all(d, target_plain(), Seq::empty())),
                None => None,
            }
        },
        None => match region_content_spec(h) {
            Some(d) => Some(replace_all(d, target_plain(), Seq::empty())),
            None => None,
        },
    }
}

/// Recovers the article body from a page, or fails when no strategy
/// yields viable content.
pub fn extract_article_content(html: &str) -> (r: Result<String, crate::ExtractError>)
    ensures
        match r {
            Ok(c) => article_content_spec(html@) == Some(c@),
            Err(e) => article_content_spec(html@) is None && e
                == crate::ExtractError::NoBodyFound,
        },
{
    let tp = str_to_chars("{target=\"_blank\"}");
    let empty: Vec<char> = Vec::new();
    match extract_from_script_tags(html) {
        Ok(content) => {
            let cc = str_to_chars(content.as_str());
            if cc.len() > 100 {
                let cleaned = crate::text::replace_all_chars(&cc, &tp, &empty);
                return Ok(chars_to_string(&cleaned));
            }
        },
        Err(_) => {},
    }
    match extract_from_html_content(html) {
        Ok(content) => {
            let cc = str_to_chars(content.as_str());
            let cleaned = crate::text::replace_all_chars(&cc, &tp, &empty);
            Ok(chars_to_string(&cleaned))
        },
        Err(_) => Err(crate::ExtractError::NoBodyFound),
    }
}

/// The renderer's preprocessing rule list: both block annotations and the
/// link-attribute artifact under every quoting the editor emits, ASCII or
/// typographic.
pub open spec fn preprocess_rules() -> Seq<RuleSpec> {
    seq![
        RuleSpec::Span(small_open(), close_marker()),
        RuleSpec::Span(box_open(), close_marker()),
        RuleSpec::Literal("{target=\"_blank\"}"@),
        RuleSpec::Literal("{target=“_blank\"}"@),
        RuleSpec::Literal("{target=\"_blank”}"@),
        RuleSpec::Literal("{target=“_blank”}"@),
    ]
}

/// What [`preprocess_markdown_content`] returns.
pub open spec fn preprocess_spec(s: Seq<char>) -> Seq<char> {
    sanitize_fix(s, preprocess_rules())
}

/// Strips block annotations and every quoting variant of the
/// link-attribute artifact from markdown-flavored text, repeating passes
/// until the text is stable.
pub fn preprocess_markdown_content(markdown: &str) -> (r: String)
    ensures
        r@ == preprocess_spec(markdown@),
{
    let mut rules: Vec<Rule> = Vec::new();
    rules.push(Rule::Span(str_to_chars(":::small"), str_to_chars(":::")));
    rules.push(Rule::Span(str_to_chars(":::box"), str_to_chars(":::")));
    rules.push(Rule::Literal(str_to_chars("{target=\"_blank\"}")));
    rules.push(Rule::Literal(str_to_chars("{target=“_blank\"}")));
    rules.push(Rule::Literal(str_to_chars("{target=\"_blank”}")));
    rules.push(Rule::Literal(str_to_chars("{target=“_blank”}")));
    proof {
        assert(rule_views(rules@) =~= preprocess_rules());
    }
    let chars = str_to_chars(markdown);
    let cleaned = crate::text::sanitize_chars(&chars, &rules);
    chars_to_string(&cleaned)
}

/// Preprocessing the renderer's input twice changes nothing more.
pub proof fn law_preprocess_idempotent(s: Seq<char>)
    ensures
        preprocess_spec(preprocess_spec(s)) == preprocess_spec(s),
{
    crate::text::lemma_sanitize_fix_stable(s, preprocess_rules());
}

/// What the renderer receives holds no complete annotation span and no
/// quoting variant of the link-attribute artifact.
pub proof fn law_preprocess_output_clean(s: Seq<char>)
    ensures
        forall|i: int| #[trigger] crate::text::match_at(preprocess_spec(s), small_open(), i)
            ==> find_from(preprocess_spec(s), close_marker(), i + small_open().len()) is None,
        forall|i: int| #[trigger] crate::text::match_at(preprocess_spec(s), box_open(), i)
            ==> find_from(preprocess_spec(s), close_marker(), i + box_open().len()) is None,
        !contains_pat(preprocess_spec(s), "{target=\"_blank\"}"@),
        !contains_pat(preprocess_spec(s), "{target=“_blank\"}"@),
        !contains_pat(preprocess_spec(s), "{target=\"_blank”}"@),
        !contains_pat(preprocess_spec(s), "{target=“_blank”}"@),
{
    let out = preprocess_spec(s);
    let rules = preprocess_rules();
    crate::text::lemma_sanitize_fix_stable(s, rules);
    crate::text::lemma_fix_point_each_rule(out, rules);
    assert(crate::text::apply_rule_spec(out, rules[0]) == out);
    assert(crate::text::apply_rule_spec(out, rules[1]) == out);
    assert(crate::text::apply_rule_spec(out, rules[2]) == out);
    assert(crate::text::apply_rule_spec(out, rules[3]) == out);
    assert(crate::text::apply_rule_spec(out, rules[4]) == out);
    assert(crate::text::apply_rule_spec(out, rules[5]) == out);
    reveal_strlit(":::small");
    reveal_strlit(":::box");
    reveal_strlit(":::");
    reveal_strlit("{target=\"_blank\"}");
    reveal_strlit("{target=“_blank\"}");
    reveal_strlit("{target=\"_blank”}");
    reveal_strlit("{target=“_blank”}");
    crate::text::lemma_exhausted_span(out, small_open(), close_marker());
    crate::text::lemma_exhausted_span(out, box_open(), close_marker());
    crate::text::lemma_exhausted_literal(out, "{target=\"_blank\"}"@);
    crate::text::lemma_exhausted_literal(out, "{target=“_blank\"}"@);
    crate::text::lemma_exhausted_literal(out, "{target=\"_blank”}"@);
    crate::text::lemma_exhausted_literal(out, "{target=“_blank”}"@);
}

/// What the markdown renderer returns on given markdown, as the
/// `pulldown-cmark` library defines it: a function of the text alone.
pub uninterp spec fn rendered_html(md: Seq<char>) -> Seq<char>;

/// Relies on pulldown-cmark's `Parser::new` and `html::push_html`:
/// rendering markdown to display markup is deterministic, a function of
/// the input text alone.
#[verifier::external_body]
fn render_markdown(s: &str) -> (r: String)
    ensures
        r@ == rendered_html(s@),
{
    let parser = pulldown_cmark::Parser::new(s);
    let mut out = String::new();
    pulldown_cmark::html::push_html(&mut out, parser);
    out
}

/// Renders markdown-flavored body text to display markup, after the
/// preprocessing pass that strips annotations and artifacts.
pub fn markdown_to_html(markdown: &str) -> (r: String)
    ensures
        r@ == rendered_html(preprocess_spec(markdown@)),
{
    let preprocessed = preprocess_markdown_content(markdown);
    render_markdown(preprocessed.as_str())
}

} // verus!
