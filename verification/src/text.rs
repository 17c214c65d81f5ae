//! Character-sequence pattern library.
//!
//! Every extraction strategy in this crate works over plain character
//! sequences. This module holds the shared vocabulary: exact-occurrence
//! search for fixed patterns, literal replacement, and the conversions
//! between `String`/`&str` and `Vec<char>` that the rest of the crate
//! builds on. Match lengths and thresholds are counted in characters.

use vstd::prelude::*;

verus! {

/// The pattern `p` occurs in `s` starting exactly at index `i`.
pub open spec fn match_at(s: Seq<char>, p: Seq<char>, i: int) -> bool {
    &&& 0 <= i
    &&& i + p.len() <= s.len()
    &&& s.subrange(i, i + p.len() as int) == p
}

/// Index of the leftmost occurrence of `p` in `s` at or after `i`.
pub open spec fn find_from(s: Seq<char>, p: Seq<char>, i: int) -> Option<int>
    decreases s.len() - i + 1,
{
    if i < 0 || i + p.len() > s.len() {
        None
    } else if match_at(s, p, i) {
        Some(i)
    } else {
        find_from(s, p, i + 1)
    }
}

/// `p` occurs somewhere in `s`.
pub open spec fn contains_pat(s: Seq<char>, p: Seq<char>) -> bool {
    find_from(s, p, 0) is Some
}

/// What a `find_from` answer means: a `Some` is the leftmost match at or
/// after the start position, and a `None` rules every later position out.
pub proof fn lemma_find_from_spec(s: Seq<char>, p: Seq<char>, i: int)
    requires
        0 <= i,
    ensures
        match find_from(s, p, i) {
            Some(j) => i <= j && match_at(s, p, j) && (forall|k: int|
                i <= k < j ==> !match_at(s, p, k)),
            None => forall|k: int| k >= i ==> !match_at(s, p, k),
        },
    decreases s.len() - i + 1,
{
    if i + p.len() > s.len() {
        assert forall|k: int| k >= i implies !match_at(s, p, k) by {
            assert(k + p.len() > s.len());
        }
    } else if match_at(s, p, i) {
    } else {
        lemma_find_from_spec(s, p, i + 1);
    }
}

/// Executable test for a pattern occurrence at one position.
pub fn is_match_at(s: &Vec<char>, p: &Vec<char>, i: usize) -> (r: bool)
    requires
        i + p@.len() <= s@.len(),
    ensures
        r == match_at(s@, p@, i as int),
{
    let slen = s.len();
    let mut k: usize = 0;
    while k < p.len()
        invariant
            0 <= k <= p@.len(),
            i + p@.len() <= s@.len(),
            s@.len() == slen,
            forall|m: int| 0 <= m < k ==> s@[i + m] == p@[m],
        decreases p@.len() - k,
    {
        if s[i + k] != p[k] {
            assert(!match_at(s@, p@, i as int)) by {
                if s@.subrange(i as int, i + p@.len() as int) == p@ {
                    assert(s@.subrange(i as int, i + p@.len() as int)[k as int] == p@[k as int]);
                }
            }
            return false;
        }
        k = k + 1;
    }
    assert(s@.subrange(i as int, i + p@.len() as int) =~= p@);
    true
}

/// Executable leftmost-occurrence search, mirroring [`find_from`].
pub fn find_in(s: &Vec<char>, p: &Vec<char>, from: usize) -> (r: Option<usize>)
    ensures
        match r {
            Some(j) => find_from(s@, p@, from as int) == Some(j as int),
            None => find_from(s@, p@, from as int) is None,
        },
{
    if p.len() > s.len() {
        return None;
    }
    if p.len() == 0 {
        if from <= s.len() {
            assert(s@.subrange(from as int, from as int) =~= p@);
            return Some(from);
        } else {
            return None;
        }
    }
    let mut i: usize = from;
    if i > s.len() - p.len() {
        assert(find_from(s@, p@, from as int) is None) by {
            lemma_find_from_guard_none(s@, p@, from as int);
        }
        return None;
    }
    while i <= s.len() - p.len()
        invariant
            from <= i,
            i <= s@.len(),
            1 <= p@.len() <= s@.len(),
            find_from(s@, p@, from as int) == find_from(s@, p@, i as int),
        decreases s@.len() - i,
    {
        if is_match_at(s, p, i) {
            return Some(i);
        }
        assert(find_from(s@, p@, i as int) == find_from(s@, p@, i + 1));
        i = i + 1;
    }
    assert(find_from(s@, p@, i as int) is None);
    None
}

/// A search that starts past the last possible position finds nothing.
proof fn lemma_find_from_guard_none(s: Seq<char>, p: Seq<char>, i: int)
    requires
        0 <= i,
        i + p.len() > s.len(),
    ensures
        find_from(s, p, i) is None,
    decreases s.len() - i + 1,
{
}

/// Copy of the character range `[a, b)` of `s`.
pub fn subvec(s: &Vec<char>, a: usize, b: usize) -> (r: Vec<char>)
    requires
        a <= b <= s@.len(),
    ensures
        r@ == s@.subrange(a as int, b as int),
{
    let mut out: Vec<char> = Vec::new();
    let mut i: usize = a;
    while i < b
        invariant
            a <= i <= b <= s@.len(),
            out@ == s@.subrange(a as int, i as int),
        decreases b - i,
    {
        out.push(s[i]);
        assert(out@ =~= s@.subrange(a as int, i + 1));
        i = i + 1;
    }
    out
}

/// Append all characters of `t` to `s`.
pub fn append_chars(s: &mut Vec<char>, t: &Vec<char>)
    ensures
        final(s)@ == old(s)@ + t@,
{
    let ghost s0: Seq<char> = s@;
    let mut i: usize = 0;
    while i < t.len()
        invariant
            0 <= i <= t@.len(),
            s@ == s0 + t@.subrange(0, i as int),
        decreases t@.len() - i,
    {
        s.push(t[i]);
        assert(s@ =~= s0 + t@.subrange(0, i + 1));
        i = i + 1;
    }
    assert(s@ =~= s0 + t@);
}

/// Every occurrence of `p` in `s` replaced by `to`, scanning left to
/// right and resuming after each replacement.
pub open spec fn replace_all(s: Seq<char>, p: Seq<char>, to: Seq<char>) -> Seq<char>
    decreases s.len(),
    via replace_all_decreases
{
    if p.len() == 0 {
        s
    } else {
        match find_from(s, p, 0) {
            Some(i) => s.subrange(0, i) + to + replace_all(
                s.subrange(i + p.len() as int, s.len() as int),
                p,
                to,
            ),
            None => s,
        }
    }
}

#[via_fn]
proof fn replace_all_decreases(s: Seq<char>, p: Seq<char>, to: Seq<char>) {
    if p.len() > 0 && find_from(s, p, 0) is Some {
        lemma_find_from_spec(s, p, 0);
    }
}

/// Every shortest `open ... close` span of `s` removed, scanning left to
/// right; an unterminated span leaves the rest of the text untouched.
pub open spec fn remove_spans(s: Seq<char>, open: Seq<char>, close: Seq<char>) -> Seq<char>
    decreases s.len(),
    via remove_spans_decreases
{
    if open.len() == 0 || close.len() == 0 {
        s
    } else {
        match find_from(s, open, 0) {
            Some(i) => match find_from(s, close, i + open.len() as int) {
                Some(j) => s.subrange(0, i) + remove_spans(
                    s.subrange(j + close.len() as int, s.len() as int),
                    open,
                    close,
                ),
                None => s,
            },
            None => s,
        }
    }
}

#[via_fn]
proof fn remove_spans_decreases(s: Seq<char>, open: Seq<char>, close: Seq<char>) {
    if open.len() > 0 && close.len() > 0 && find_from(s, open, 0) is Some {
        lemma_find_from_spec(s, open, 0);
        let i = find_from(s, open, 0)->Some_0;
        if find_from(s, close, i + open.len() as int) is Some {
            lemma_find_from_spec(s, close, i + open.len() as int);
        }
    }
}

/// Removing occurrences of a pattern never lengthens the text.
pub proof fn lemma_remove_le(s: Seq<char>, p: Seq<char>)
    ensures
        replace_all(s, p, Seq::<char>::empty()).len() <= s.len(),
    decreases s.len(),
{
    if p.len() > 0 && find_from(s, p, 0) is Some {
        lemma_find_from_spec(s, p, 0);
        let i = find_from(s, p, 0)->Some_0;
        lemma_remove_le(s.subrange(i + p.len() as int, s.len() as int), p);
    }
}

/// Removing a pattern that does occur strictly shortens the text; and a
/// removal that returns the text unchanged found nothing to remove.
pub proof fn lemma_remove_strict(s: Seq<char>, p: Seq<char>)
    requires
        p.len() > 0,
        contains_pat(s, p),
    ensures
        replace_all(s, p, Seq::<char>::empty()).len() < s.len(),
    decreases s.len(),
{
    lemma_find_from_spec(s, p, 0);
    let i = find_from(s, p, 0)->Some_0;
    lemma_remove_le(s.subrange(i + p.len() as int, s.len() as int), p);
}

/// Span removal never lengthens the text.
pub proof fn lemma_spans_le(s: Seq<char>, open: Seq<char>, close: Seq<char>)
    ensures
        remove_spans(s, open, close).len() <= s.len(),
    decreases s.len(),
{
    if open.len() > 0 && close.len() > 0 && find_from(s, open, 0) is Some {
        lemma_find_from_spec(s, open, 0);
        let i = find_from(s, open, 0)->Some_0;
        if find_from(s, close, i + open.len() as int) is Some {
            lemma_find_from_spec(s, close, i + open.len() as int);
            let j = find_from(s, close, i + open.len() as int)->Some_0;
            lemma_spans_le(s.subrange(j + close.len() as int, s.len() as int), open, close);
        }
    }
}

/// Removing a complete span strictly shortens the text.
pub proof fn lemma_spans_strict(s: Seq<char>, open: Seq<char>, close: Seq<char>)
    requires
        open.len() > 0,
        close.len() > 0,
        find_from(s, open, 0) is Some,
        find_from(s, close, find_from(s, open, 0)->Some_0 + open.len() as int) is Some,
    ensures
        remove_spans(s, open, close).len() < s.len(),
{
    lemma_find_from_spec(s, open, 0);
    let i = find_from(s, open, 0)->Some_0;
    lemma_find_from_spec(s, close, i + open.len() as int);
    let j = find_from(s, close, i + open.len() as int)->Some_0;
    lemma_spans_le(s.subrange(j + close.len() as int, s.len() as int), open, close);
}

/// One list-driven removal rule: either every shortest `open ... close`
/// span, or every occurrence of one literal pattern.
pub enum Rule {
    Span(Vec<char>, Vec<char>),
    Literal(Vec<char>),
}

/// The mathematical content of a [`Rule`]: the same choice over plain
/// character sequences.
pub enum RuleSpec {
    Span(Seq<char>, Seq<char>),
    Literal(Seq<char>),
}

/// The rule a [`Rule`] value stands for.
pub open spec fn rule_view(r: Rule) -> RuleSpec {
    match r {
        Rule::Span(open, close) => RuleSpec::Span(open@, close@),
        Rule::Literal(p) => RuleSpec::Literal(p@),
    }
}

/// The rules a rule list stands for.
pub open spec fn rule_views(rs: Seq<Rule>) -> Seq<RuleSpec> {
    rs.map_values(|r: Rule| rule_view(r))
}

/// One rule applied once over the whole text.
pub open spec fn apply_rule_spec(s: Seq<char>, r: RuleSpec) -> Seq<char> {
    match r {
        RuleSpec::Span(open, close) => remove_spans(s, open, close),
        RuleSpec::Literal(p) => replace_all(s, p, Seq::<char>::empty()),
    }
}

/// All rules applied once, in list order.
pub open spec fn apply_rules_spec(s: Seq<char>, rules: Seq<RuleSpec>) -> Seq<char>
    decreases rules.len(),
{
    if rules.len() == 0 {
        s
    } else {
        apply_rules_spec(apply_rule_spec(s, rules[0]), rules.subrange(1, rules.len() as int))
    }
}

/// A full pass never lengthens the text, and a pass that changed the text
/// strictly shortened it.
pub proof fn lemma_pass_shrinks(s: Seq<char>, rules: Seq<RuleSpec>)
    ensures
        apply_rules_spec(s, rules).len() <= s.len(),
        apply_rules_spec(s, rules) != s ==> apply_rules_spec(s, rules).len() < s.len(),
    decreases rules.len(),
{
    if rules.len() > 0 {
        let m = apply_rule_spec(s, rules[0]);
        lemma_rule_shrinks(s, rules[0]);
        lemma_pass_shrinks(m, rules.subrange(1, rules.len() as int));
    }
}

/// One rule application never lengthens the text, and one that changed
/// the text strictly shortened it.
pub proof fn lemma_rule_shrinks(s: Seq<char>, r: RuleSpec)
    ensures
        apply_rule_spec(s, r).len() <= s.len(),
        apply_rule_spec(s, r) != s ==> apply_rule_spec(s, r).len() < s.len(),
{
    match r {
        RuleSpec::Span(open, close) => {
            lemma_spans_le(s, open, close);
            if apply_rule_spec(s, r) != s {
                if open.len() > 0 && close.len() > 0 && find_from(s, open, 0) is Some {
                    let i = find_from(s, open, 0)->Some_0;
                    if find_from(s, close, i + open.len() as int) is Some {
                        lemma_spans_strict(s, open, close);
                    }
                }
            }
        },
        RuleSpec::Literal(p) => {
            lemma_remove_le(s, p);
            if apply_rule_spec(s, r) != s {
                if p.len() > 0 && contains_pat(s, p) {
                    lemma_remove_strict(s, p);
                }
            }
        },
    }
}

/// Rules applied in passes until the text no longer changes.
pub open spec fn sanitize_fix(s: Seq<char>, rules: Seq<RuleSpec>) -> Seq<char>
    decreases s.len(),
    via sanitize_fix_decreases
{
    if apply_rules_spec(s, rules) == s {
        s
    } else {
        sanitize_fix(apply_rules_spec(s, rules), rules)
    }
}

#[via_fn]
proof fn sanitize_fix_decreases(s: Seq<char>, rules: Seq<RuleSpec>) {
    lemma_pass_shrinks(s, rules);
}

/// The sanitized text is a fixed point: one more pass changes nothing.
pub proof fn lemma_sanitize_fix_stable(s: Seq<char>, rules: Seq<RuleSpec>)
    ensures
        apply_rules_spec(sanitize_fix(s, rules), rules) == sanitize_fix(s, rules),
    decreases s.len(),
{
    if apply_rules_spec(s, rules) != s {
        lemma_pass_shrinks(s, rules);
        lemma_sanitize_fix_stable(apply_rules_spec(s, rules), rules);
    }
}

/// At a fixed point of the pass, every single rule is itself exhausted.
pub proof fn lemma_fix_point_each_rule(s: Seq<char>, rules: Seq<RuleSpec>)
    requires
        apply_rules_spec(s, rules) == s,
    ensures
        forall|i: int| 0 <= i < rules.len() ==> #[trigger] apply_rule_spec(s, rules[i]) == s,
    decreases rules.len(),
{
    if rules.len() > 0 {
        let m = apply_rule_spec(s, rules[0]);
        let rest = rules.subrange(1, rules.len() as int);
        lemma_rule_shrinks(s, rules[0]);
        lemma_pass_shrinks(m, rest);
        assert(m == s);
        lemma_fix_point_each_rule(s, rest);
        assert forall|i: int| 0 <= i < rules.len() implies #[trigger] apply_rule_spec(s, rules[i])
            == s by {
            if i > 0 {
                assert(rules[i] == rest[i - 1]);
            }
        }
    }
}

/// A literal rule exhausted on `s` means its pattern does not occur in `s`.
pub proof fn lemma_exhausted_literal(s: Seq<char>, p: Seq<char>)
    requires
        p.len() > 0,
        replace_all(s, p, Seq::<char>::empty()) == s,
    ensures
        !contains_pat(s, p),
{
    if contains_pat(s, p) {
        lemma_remove_strict(s, p);
    }
}

/// A span rule exhausted on `s` means `s` holds no complete span: after
/// any occurrence of the opening marker, the closing marker never occurs.
pub proof fn lemma_exhausted_span(s: Seq<char>, open: Seq<char>, close: Seq<char>)
    requires
        open.len() > 0,
        close.len() > 0,
        remove_spans(s, open, close) == s,
    ensures
        forall|i: int|
            #[trigger] match_at(s, open, i) ==> find_from(s, close, i + open.len() as int)
                is None,
{
    lemma_find_from_spec(s, open, 0);
    assert forall|i: int| #[trigger] match_at(s, open, i) implies find_from(
        s,
        close,
        i + open.len() as int,
    ) is None by {
        if find_from(s, close, i + open.len() as int) is Some {
            let f = find_from(s, open, 0);
            assert(f is Some);
            let i0 = f->Some_0;
            lemma_find_from_mono_close(s, open, close, i0, i);
            lemma_spans_strict(s, open, close);
        }
    }
}

/// If a closing marker follows some occurrence of the opening marker, one
/// also follows the leftmost occurrence.
proof fn lemma_find_from_mono_close(s: Seq<char>, open: Seq<char>, close: Seq<char>, i0: int, i: int)
    requires
        match_at(s, open, i0),
        match_at(s, open, i),
        i0 <= i,
        find_from(s, close, i + open.len() as int) is Some,
    ensures
        find_from(s, close, i0 + open.len() as int) is Some,
{
    lemma_find_from_spec(s, close, i + open.len() as int);
    let j = find_from(s, close, i + open.len() as int)->Some_0;
    lemma_find_from_spec(s, close, i0 + open.len() as int);
    if find_from(s, close, i0 + open.len() as int) is None {
        assert(!match_at(s, close, j));
    }
}

/// Executable mirror of [`replace_all`].
pub fn replace_all_chars(s: &Vec<char>, p: &Vec<char>, to: &Vec<char>) -> (r: Vec<char>)
    ensures
        r@ == replace_all(s@, p@, to@),
    decreases s@.len(),
{
    if p.len() == 0 {
        let r = subvec(s, 0, s.len());
        assert(r@ =~= s@);
        return r;
    }
    match find_in(s, p, 0) {
        None => {
            let r = subvec(s, 0, s.len());
            assert(r@ =~= s@);
            r
        },
        Some(i) => {
            proof {
                lemma_find_from_spec(s@, p@, 0);
            }
            let n = s.len();
            let mut out = subvec(s, 0, i);
            append_chars(&mut out, to);
            let rest = subvec(s, i + p.len(), n);
            let tail = replace_all_chars(&rest, p, to);
            append_chars(&mut out, &tail);
            out
        },
    }
}

/// Executable mirror of [`remove_spans`].
pub fn remove_spans_chars(s: &Vec<char>, open: &Vec<char>, close: &Vec<char>) -> (r: Vec<char>)
    ensures
        r@ == remove_spans(s@, open@, close@),
    decreases s@.len(),
{
    if open.len() == 0 || close.len() == 0 {
        let r = subvec(s, 0, s.len());
        assert(r@ =~= s@);
        return r;
    }
    match find_in(s, open, 0) {
        None => {
            let r = subvec(s, 0, s.len());
            assert(r@ =~= s@);
            r
        },
        Some(i) => {
            proof {
                lemma_find_from_spec(s@, open@, 0);
            }
            let n = s.len();
            match find_in(s, close, i + open.len()) {
                None => {
                    let r = subvec(s, 0, s.len());
                    assert(r@ =~= s@);
                    r
                },
                Some(j) => {
                    proof {
                        lemma_find_from_spec(s@, close@, i + open@.len() as int);
                    }
                    let mut out = subvec(s, 0, i);
                    let rest = subvec(s, j + close.len(), n);
                    let tail = remove_spans_chars(&rest, open, close);
                    append_chars(&mut out, &tail);
                    out
                },
            }
        },
    }
}

/// Executable mirror of [`apply_rule_spec`].
pub fn apply_rule(s: &Vec<char>, r: &Rule) -> (out: Vec<char>)
    ensures
        out@ == apply_rule_spec(s@, rule_view(*r)),
{
    let empty: Vec<char> = Vec::new();
    match r {
        Rule::Span(open, close) => remove_spans_chars(s, open, close),
        Rule::Literal(p) => replace_all_chars(s, p, &empty),
    }
}

/// Executable mirror of [`apply_rules_spec`].
pub fn apply_rules(s: &Vec<char>, rules: &Vec<Rule>) -> (out: Vec<char>)
    ensures
        out@ == apply_rules_spec(s@, rule_views(rules@)),
{
    let ghost rv = rule_views(rules@);
    let mut cur = subvec(s, 0, s.len());
    assert(cur@ =~= s@);
    proof {
        assert(rv.subrange(0, rv.len() as int) =~= rv);
    }
    let mut i: usize = 0;
    while i < rules.len()
        invariant
            0 <= i <= rules@.len(),
            rv == rule_views(rules@),
            rv.len() == rules@.len(),
            apply_rules_spec(cur@, rv.subrange(i as int, rv.len() as int))
                == apply_rules_spec(s@, rv),
        decreases rules@.len() - i,
    {
        let ghost pending = rv.subrange(i as int, rv.len() as int);
        cur = apply_rule(&cur, &rules[i]);
        proof {
            assert(pending[0] == rv[i as int]);
            assert(rv[i as int] == rule_view(rules@[i as int]));
            assert(pending.subrange(1, pending.len() as int) =~= rv.subrange(
                i + 1,
                rv.len() as int,
            ));
        }
        i = i + 1;
    }
    proof {
        assert(rv.subrange(rv.len() as int, rv.len() as int) =~= Seq::<RuleSpec>::empty());
    }
    cur
}

/// Two character vectors hold the same text.
pub fn chars_eq(a: &Vec<char>, b: &Vec<char>) -> (r: bool)
    ensures
        r == (a@ == b@),
{
    if a.len() != b.len() {
        return false;
    }
    let mut i: usize = 0;
    while i < a.len()
        invariant
            0 <= i <= a@.len(),
            a@.len() == b@.len(),
            forall|m: int| 0 <= m < i ==> a@[m] == b@[m],
        decreases a@.len() - i,
    {
        if a[i] != b[i] {
            return false;
        }
        i = i + 1;
    }
    assert(a@ =~= b@);
    true
}

/// Executable mirror of [`sanitize_fix`]: passes repeated to a fixed point.
pub fn sanitize_chars(s: &Vec<char>, rules: &Vec<Rule>) -> (r: Vec<char>)
    ensures
        r@ == sanitize_fix(s@, rule_views(rules@)),
    decreases s@.len(),
{
    let next = apply_rules(s, rules);
    if chars_eq(&next, s) {
        next
    } else {
        proof {
            lemma_pass_shrinks(s@, rule_views(rules@));
        }
        sanitize_chars(&next, rules)
    }
}

/// A double quote, delimiting captured field values.
pub open spec fn quote() -> Seq<char> {
    "\""@
}

/// Blank characters dropped by [`trim_spec`].
pub open spec fn is_blank(c: char) -> bool {
    c == ' ' || c == '\t' || c == '\n' || c == '\r'
}

/// `s` without leading blanks.
pub open spec fn trim_start_spec(s: Seq<char>) -> Seq<char>
    decreases s.len(),
{
    if s.len() > 0 && is_blank(s[0]) {
        trim_start_spec(s.subrange(1, s.len() as int))
    } else {
        s
    }
}

/// `s` without trailing blanks.
pub open spec fn trim_end_spec(s: Seq<char>) -> Seq<char>
    decreases s.len(),
{
    if s.len() > 0 && is_blank(s[s.len() - 1]) {
        trim_end_spec(s.subrange(0, s.len() - 1))
    } else {
        s
    }
}

/// `s` without leading and trailing blanks.
pub open spec fn trim_spec(s: Seq<char>) -> Seq<char> {
    trim_end_spec(trim_start_spec(s))
}

/// Executable mirror of [`trim_spec`].
pub fn trim_chars(s: &Vec<char>) -> (r: Vec<char>)
    ensures
        r@ == trim_spec(s@),
{
    proof {
        assert(s@.subrange(0, s@.len() as int) =~= s@);
    }
    let mut a: usize = 0;
    while a < s.len() && is_blank_char(s[a])
        invariant
            0 <= a <= s@.len(),
            trim_start_spec(s@) == trim_start_spec(s@.subrange(a as int, s@.len() as int)),
        decreases s@.len() - a,
    {
        proof {
            let sub = s@.subrange(a as int, s@.len() as int);
            assert(sub[0] == s@[a as int]);
            assert(sub.subrange(1, sub.len() as int) =~= s@.subrange(a + 1, s@.len() as int));
        }
        a = a + 1;
    }
    proof {
        let sub = s@.subrange(a as int, s@.len() as int);
        if sub.len() > 0 {
            assert(sub[0] == s@[a as int]);
        }
        assert(trim_start_spec(s@) == sub);
    }
    let mut b: usize = s.len();
    while b > a && is_blank_char(s[b - 1])
        invariant
            a <= b <= s@.len(),
            trim_start_spec(s@) == s@.subrange(a as int, s@.len() as int),
            trim_end_spec(s@.subrange(a as int, s@.len() as int)) == trim_end_spec(
                s@.subrange(a as int, b as int),
            ),
        decreases b,
    {
        proof {
            let sub = s@.subrange(a as int, b as int);
            assert(sub[sub.len() - 1] == s@[b - 1]);
            assert(sub.subrange(0, sub.len() - 1) =~= s@.subrange(a as int, b - 1));
        }
        b = b - 1;
    }
    proof {
        let sub = s@.subrange(a as int, b as int);
        if sub.len() > 0 {
            assert(sub[sub.len() - 1] == s@[b - 1]);
        }
        assert(trim_end_spec(sub) == sub);
    }
    subvec(s, a, b)
}

/// Executable test for a blank character.
pub fn is_blank_char(c: char) -> (r: bool)
    ensures
        r == is_blank(c),
{
    c == ' ' || c == '\t' || c == '\n' || c == '\r'
}

/// `p` occurs somewhere in `s`, executably.
pub fn contains_chars(s: &Vec<char>, p: &Vec<char>) -> (r: bool)
    ensures
        r == contains_pat(s@, p@),
{
    match find_in(s, p, 0) {
        Some(_) => true,
        None => false,
    }
}

/// Relies on `str::chars`: the characters of a string slice, in order;
/// the view of a `&str` is that same character sequence.
#[verifier::external_body]
pub fn str_to_chars(s: &str) -> (r: Vec<char>)
    ensures
        r@ == s@,
{
    s.chars().collect()
}

/// Relies on `String`'s `FromIterator<char>`: the characters joined back
/// into a string, whose view is the same character sequence.
#[verifier::external_body]
pub fn chars_to_string(v: &Vec<char>) -> (r: String)
    ensures
        r@ == v@,
{
    v.iter().collect()
}

} // verus!
