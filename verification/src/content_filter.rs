//! Content sanitizer.
//!
//! Strips site-specific noise from recovered article text: editor-only
//! block annotations (`:::small ... :::`, `:::box ... :::`) and the
//! "open in new tab" link-attribute artifact in its plain, entity-encoded
//! and double-entity-encoded forms. The removal is list-driven: passes of
//! the rule list repeat until the text stops changing, so the result is a
//! fixed point and sanitizing is idempotent.

use vstd::prelude::*;

use crate::text::{
    apply_rule_spec, apply_rules_spec, chars_to_string, contains_pat, find_from,
    lemma_exhausted_literal, lemma_exhausted_span, lemma_find_from_spec,
    lemma_fix_point_each_rule, lemma_sanitize_fix_stable, match_at, remove_spans, replace_all,
    rule_views, sanitize_chars, sanitize_fix, str_to_chars, Rule, RuleSpec,
};

verus! {

/// Opening marker of an image-attribution annotation.
pub open spec fn small_open() -> Seq<char> {
    ":::small"@
}

/// Opening marker of a related-articles annotation.
pub open spec fn box_open() -> Seq<char> {
    ":::box"@
}

/// Closing marker shared by all block annotations.
pub open spec fn close_marker() -> Seq<char> {
    ":::"@
}

/// The link-attribute artifact, ASCII-quoted.
pub open spec fn target_plain() -> Seq<char> {
    "{target=\"_blank\"}"@
}

/// The link-attribute artifact, entity-encoded once.
pub open spec fn target_encoded() -> Seq<char> {
    "{target=&quot;_blank&quot;}"@
}

/// The link-attribute artifact, entity-encoded twice.
pub open spec fn target_double_encoded() -> Seq<char> {
    "{target=&amp;quot;_blank&amp;quot;}"@
}

/// The sanitizer's rule list, in application order.
pub open spec fn filter_rules() -> Seq<RuleSpec> {
    seq![
        RuleSpec::Span(small_open(), close_marker()),
        RuleSpec::Span(box_open(), close_marker()),
        RuleSpec::Literal(target_plain()),
        RuleSpec::Literal(target_encoded()),
        RuleSpec::Literal(target_double_encoded()),
    ]
}

/// What [`filter_content`] returns.
pub open spec fn filter_content_spec(s: Seq<char>) -> Seq<char> {
    sanitize_fix(s, filter_rules())
}

/// The executable rule list, whose rules stand for [`filter_rules`].
pub fn build_filter_rules() -> (r: Vec<Rule>)
    ensures
        rule_views(r@) == filter_rules(),
{
    let mut rules: Vec<Rule> = Vec::new();
    rules.push(Rule::Span(str_to_chars(":::small"), str_to_chars(":::")));
    rules.push(Rule::Span(str_to_chars(":::box"), str_to_chars(":::")));
    rules.push(Rule::Literal(str_to_chars("{target=\"_blank\"}")));
    rules.push(Rule::Literal(str_to_chars("{target=&quot;_blank&quot;}")));
    rules.push(Rule::Literal(str_to_chars("{target=&amp;quot;_blank&amp;quot;}")));
    proof {
        assert(rule_views(rules@) =~= filter_rules());
    }
    rules
}

/// Removes every block annotation span and every form of the
/// link-attribute artifact from `content`, repeating passes until the
/// text is stable.
pub fn filter_content(content: &str) -> (r: String)
    ensures
        r@ == filter_content_spec(content@),
{
    let chars = str_to_chars(content);
    let rules = build_filter_rules();
    let cleaned = sanitize_chars(&chars, &rules);
    chars_to_string(&cleaned)
}

/// A pass in which every single rule is already exhausted changes nothing.
proof fn lemma_pass_noop(s: Seq<char>, rules: Seq<RuleSpec>)
    requires
        forall|i: int| 0 <= i < rules.len() ==> #[trigger] apply_rule_spec(s, rules[i]) == s,
    ensures
        apply_rules_spec(s, rules) == s,
    decreases rules.len(),
{
    if rules.len() > 0 {
        let rest = rules.subrange(1, rules.len() as int);
        assert(apply_rule_spec(s, rules[0]) == s);
        assert forall|i: int| 0 <= i < rest.len() implies #[trigger] apply_rule_spec(s, rest[i])
            == s by {
            assert(rest[i] == rules[i + 1]);
        }
        lemma_pass_noop(s, rest);
    }
}

/// The sanitizer is idempotent: sanitizing an already sanitized text
/// returns it unchanged.
pub proof fn law_filter_idempotent(s: Seq<char>)
    ensures
        filter_content_spec(filter_content_spec(s)) == filter_content_spec(s),
{
    lemma_sanitize_fix_stable(s, filter_rules());
}

/// Text with no complete annotation span and no occurrence of any
/// artifact form passes through the sanitizer unchanged.
pub proof fn law_filter_noop(s: Seq<char>)
    requires
        forall|i: int| #[trigger] match_at(s, small_open(), i) ==> find_from(
            s,
            close_marker(),
            i + small_open().len(),
        ) is None,
        forall|i: int| #[trigger] match_at(s, box_open(), i) ==> find_from(
            s,
            close_marker(),
            i + box_open().len(),
        ) is None,
        !contains_pat(s, target_plain()),
        !contains_pat(s, target_encoded()),
        !contains_pat(s, target_double_encoded()),
    ensures
        filter_content_spec(s) == s,
{
    let rules = filter_rules();
    assert forall|i: int| 0 <= i < rules.len() implies #[trigger] apply_rule_spec(s, rules[i])
        == s by {
        if i == 0 {
            lemma_span_rule_noop(s, small_open(), close_marker());
        } else if i == 1 {
            lemma_span_rule_noop(s, box_open(), close_marker());
        }
    }
    lemma_pass_noop(s, rules);
}

/// A span removal with no complete span to remove changes nothing.
proof fn lemma_span_rule_noop(s: Seq<char>, open: Seq<char>, close: Seq<char>)
    requires
        forall|i: int| #[trigger] match_at(s, open, i) ==> find_from(s, close, i + open.len())
            is None,
    ensures
        remove_spans(s, open, close) == s,
{
    if open.len() > 0 && close.len() > 0 && find_from(s, open, 0) is Some {
        lemma_find_from_spec(s, open, 0);
    }
}

/// Sanitized text holds no complete annotation span of either kind and no
/// occurrence of any form of the link-attribute artifact.
pub proof fn law_filter_output_clean(s: Seq<char>)
    ensures
        forall|i: int| #[trigger] match_at(filter_content_spec(s), small_open(), i) ==> find_from(
            filter_content_spec(s),
            close_marker(),
            i + small_open().len(),
        ) is None,
        forall|i: int| #[trigger] match_at(filter_content_spec(s), box_open(), i) ==> find_from(
            filter_content_spec(s),
            close_marker(),
            i + box_open().len(),
        ) is None,
        !contains_pat(filter_content_spec(s), target_plain()),
        !contains_pat(filter_content_spec(s), target_encoded()),
        !contains_pat(filter_content_spec(s), target_double_encoded()),
{
    let out = filter_content_spec(s);
    let rules = filter_rules();
    lemma_sanitize_fix_stable(s, rules);
    lemma_fix_point_each_rule(out, rules);
    assert(apply_rule_spec(out, rules[0]) == out);
    assert(apply_rule_spec(out, rules[1]) == out);
    assert(apply_rule_spec(out, rules[2]) == out);
    assert(apply_rule_spec(out, rules[3]) == out);
    assert(apply_rule_spec(out, rules[4]) == out);
    reveal_strlit(":::small");
    reveal_strlit(":::box");
    reveal_strlit(":::");
    reveal_strlit("{target=\"_blank\"}");
    reveal_strlit("{target=&quot;_blank&quot;}");
    reveal_strlit("{target=&amp;quot;_blank&amp;quot;}");
    lemma_exhausted_span(out, small_open(), close_marker());
    lemma_exhausted_span(out, box_open(), close_marker());
    lemma_exhausted_literal(out, target_plain());
    lemma_exhausted_literal(out, target_encoded());
    lemma_exhausted_literal(out, target_double_encoded());
}

/// One complete annotation span is removed whole, markers and payload
/// alike: the text before its opening marker is kept, and the text after
/// its closing marker is sanitized on.
pub proof fn law_span_removed(
    a: Seq<char>,
    open: Seq<char>,
    payload: Seq<char>,
    close: Seq<char>,
    b: Seq<char>,
)
    requires
        open.len() > 0,
        close.len() > 0,
        find_from(a + open + payload + close + b, open, 0) == Some(a.len() as int),
        find_from(a + open + payload + close + b, close, a.len() + open.len() as int) == Some(
            a.len() + open.len() + payload.len() as int,
        ),
    ensures
        remove_spans(a + open + payload + close + b, open, close) == a + remove_spans(
            b,
            open,
            close,
        ),
{
    let s = a + open + payload + close + b;
    assert(s.subrange(0, a.len() as int) =~= a);
    assert(s.subrange(
        a.len() + open.len() + payload.len() + close.len() as int,
        s.len() as int,
    ) =~= b);
}

/// One occurrence of a literal artifact is removed whole: the text before
/// it is kept, and the text after it is scanned on.
pub proof fn law_literal_removed(a: Seq<char>, p: Seq<char>, b: Seq<char>)
    requires
        p.len() > 0,
        find_from(a + p + b, p, 0) == Some(a.len() as int),
    ensures
        replace_all(a + p + b, p, Seq::<char>::empty()) == a + replace_all(
            b,
            p,
            Seq::<char>::empty(),
        ),
{
    let s = a + p + b;
    assert(s.subrange(0, a.len() as int) =~= a);
    assert(s.subrange(a.len() + p.len() as int, s.len() as int) =~= b);
    assert(s.subrange(0, a.len() as int) + Seq::<char>::empty() + replace_all(
        b,
        p,
        Seq::<char>::empty(),
    ) =~= a + replace_all(b, p, Seq::<char>::empty()));
}

} // verus!
