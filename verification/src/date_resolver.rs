//! Date resolver.
//!
//! Recovers the most trustworthy publication timestamp a page exposes,
//! through four strategies in a fixed order: embedded framework state,
//! meta tags, time elements, and linked-data blocks. Absence is a normal
//! outcome; the caller substitutes a fallback.

use vstd::prelude::*;

use crate::dom::{concat_frags, selected_elements};
use crate::json::{json_get_spec, json_text_spec, parse_json, parsed_json, JsonValue};
use crate::text::{
    chars_to_string, contains_pat, find_from, find_in, quote, str_to_chars, trim_spec,
};

verus! {

/// A character that is a decimal digit.
pub open spec fn is_digit(c: char) -> bool {
    ('0' as int) <= (c as int) && (c as int) <= ('9' as int)
}

/// A timestamp of the shape `dddd-dd-ddTdd:dd:dd` starts at `d`.
pub open spec fn date_shape_at(s: Seq<char>, d: int) -> bool {
    &&& 0 <= d
    &&& d + 19 <= s.len()
    &&& is_digit(s[d]) && is_digit(s[d + 1]) && is_digit(s[d + 2]) && is_digit(s[d + 3])
    &&& s[d + 4] == '-'
    &&& is_digit(s[d + 5]) && is_digit(s[d + 6])
    &&& s[d + 7] == '-'
    &&& is_digit(s[d + 8]) && is_digit(s[d + 9])
    &&& s[d + 10] == 'T'
    &&& is_digit(s[d + 11]) && is_digit(s[d + 12])
    &&& s[d + 13] == ':'
    &&& is_digit(s[d + 14]) && is_digit(s[d + 15])
    &&& s[d + 16] == ':'
    &&& is_digit(s[d + 17]) && is_digit(s[d + 18])
}

/// The timestamp text starting at `d`: the shaped prefix extended to the
/// next quote, or to the end of the text.
pub open spec fn date_capture(s: Seq<char>, d: int) -> Seq<char> {
    match find_from(s, quote(), d + 19) {
        Some(q) => s.subrange(d, q),
        None => s.subrange(d, s.len() as int),
    }
}

/// The first occurrence of a quoted date field, scanning from `from`:
/// the field marker must be followed by a shaped timestamp.
pub open spec fn bare_field_date(s: Seq<char>, marker: Seq<char>, from: int) -> Option<Seq<char>>
    decreases s.len() - from + 1,
    via bare_field_date_decreases
{
    if from < 0 || marker.len() == 0 {
        None
    } else {
        match find_from(s, marker, from) {
            None => None,
            Some(i) => if date_shape_at(s, i + marker.len() as int) {
                Some(date_capture(s, i + marker.len() as int))
            } else {
                bare_field_date(s, marker, i + 1)
            },
        }
    }
}

#[via_fn]
proof fn bare_field_date_decreases(s: Seq<char>, marker: Seq<char>, from: int) {
    if from >= 0 && marker.len() > 0 && find_from(s, marker, from) is Some {
        crate::text::lemma_find_from_spec(s, marker, from);
    }
}

/// The position just after a chain of markers found in order inside
/// `[lo, hi)`.
pub open spec fn markers_pos(s: Seq<char>, markers: Seq<Seq<char>>, lo: int, hi: int) -> Option<
    int,
>
    decreases markers.len(),
{
    if markers.len() == 0 {
        Some(lo)
    } else {
        match find_from(s, markers[0], lo) {
            Some(p) => if p + markers[0].len() <= hi {
                markers_pos(s, markers.subrange(1, markers.len() as int), p + markers[0].len() as int, hi)
            } else {
                None
            },
            None => None,
        }
    }
}

/// The timestamp of the first attribute record, scanning from `from`,
/// that exposes the given markers in order and then a shaped
/// `publishedAt` field, all before the record closes.
pub open spec fn attr_region_date(s: Seq<char>, markers: Seq<Seq<char>>, from: int) -> Option<
    Seq<char>,
>
    decreases s.len() - from + 1,
    via attr_region_date_decreases
{
    if from < 0 {
        None
    } else {
        match find_from(s, "attributes:{"@, from) {
            None => None,
            Some(a) => {
                let lo = a + "attributes:{"@.len();
                match find_from(s, "}"@, lo as int) {
                    None => None,
                    Some(j) => {
                        let probe = match markers_pos(s, markers, lo as int, j) {
                            Some(pos) => match find_from(s, "publishedAt:\""@, pos) {
                                Some(pp) => if pp + "publishedAt:\""@.len() <= j
                                    && date_shape_at(
                                    s,
                                    pp + "publishedAt:\""@.len() as int,
                                ) {
                                    Some(date_capture(s, pp + "publishedAt:\""@.len() as int))
                                } else {
                                    None
                                },
                                None => None,
                            },
                            None => None,
                        };
                        match probe {
                            Some(d) => Some(d),
                            None => attr_region_date(s, markers, a + 1),
                        }
                    },
                }
            },
        }
    }
}

#[via_fn]
proof fn attr_region_date_decreases(s: Seq<char>, markers: Seq<Seq<char>>, from: int) {
    if from >= 0 && find_from(s, "attributes:{"@, from) is Some {
        crate::text::lemma_find_from_spec(s, "attributes:{"@, from);
    }
}

/// The timestamp one embedded-state script yields: the record patterns
/// most likely to be the main article first, bare date fields last.
pub open spec fn nuxt_script_date_spec(txt: Seq<char>) -> Option<Seq<char>> {
    if !contains_pat(txt, "__NUXT__"@) {
        None
    } else {
        match attr_region_date(txt, seq!["title:"@, "slug:"@], 0) {
            Some(d) => Some(d),
            None => match attr_region_date(txt, seq!["title:"@], 0) {
                Some(d) => Some(d),
                None => match attr_region_date(txt, seq!["scheduled_at:"@], 0) {
                    Some(d) => Some(d),
                    None => match bare_field_date(txt, "publishedAt:\""@, 0) {
                        Some(d) => Some(d),
                        None => match bare_field_date(txt, "scheduled_at:\""@, 0) {
                            Some(d) => Some(d),
                            None => match bare_field_date(txt, "createdAt:\""@, 0) {
                                Some(d) => Some(d),
                                None => bare_field_date(txt, "updatedAt:\""@, 0),
                            },
                        },
                    },
                },
            },
        }
    }
}

/// The timestamp the page's embedded-state scripts yield: the first
/// state-bearing script with one.
pub open spec fn nuxt_date_rec(es: Seq<(Option<Seq<char>>, Seq<Seq<char>>)>) -> Option<Seq<char>>
    decreases es.len(),
{
    if es.len() == 0 {
        None
    } else {
        let txt = concat_frags(es[0].1);
        if contains_pat(txt, "__NUXT__"@) && nuxt_script_date_spec(txt) is Some {
            nuxt_script_date_spec(txt)
        } else {
            nuxt_date_rec(es.subrange(1, es.len() as int))
        }
    }
}

/// What the embedded-state date strategy yields on a page.
pub open spec fn nuxt_date_spec(h: Seq<char>) -> Option<Seq<char>> {
    nuxt_date_rec(selected_elements(h, "script"@, "type"@))
}

/// The meta-tag queries tried for a publish date, in order.
pub open spec fn meta_selectors() -> Seq<Seq<char>> {
    seq![
        "meta[property=\"article:published_time\"]"@,
        "meta[name=\"article:published_time\"]"@,
        "meta[property=\"og:published_time\"]"@,
        "meta[name=\"publishedDate\"]"@,
        "meta[name=\"publication-date\"]"@,
        "meta[name=\"date\"]"@,
    ]
}

/// The content of the first matching meta tag of the first query whose
/// first match carries one.
pub open spec fn meta_date_rec(h: Seq<char>, sels: Seq<Seq<char>>) -> Option<Seq<char>>
    decreases sels.len(),
{
    if sels.len() == 0 {
        None
    } else {
        let es = selected_elements(h, sels[0], "content"@);
        if es.len() > 0 && es[0].0 is Some {
            es[0].0
        } else {
            meta_date_rec(h, sels.subrange(1, sels.len() as int))
        }
    }
}

/// What the meta-tag strategy yields on a page.
pub open spec fn meta_date_spec(h: Seq<char>) -> Option<Seq<char>> {
    meta_date_rec(h, meta_selectors())
}

/// The time-element queries tried, in order.
pub open spec fn time_selectors() -> Seq<Seq<char>> {
    seq![
        "time[datetime]"@,
        "time[pubdate]"@,
        ".published-date time"@,
        ".article-date time"@,
        ".post-date time"@,
    ]
}

/// The machine-readable datetime of the first matching time element, or
/// its visible text when that is more than a placeholder.
pub open spec fn time_date_rec(h: Seq<char>, sels: Seq<Seq<char>>) -> Option<Seq<char>>
    decreases sels.len(),
{
    if sels.len() == 0 {
        None
    } else {
        let es = selected_elements(h, sels[0], "datetime"@);
        if es.len() > 0 {
            match es[0].0 {
                Some(dt) => Some(dt),
                None => {
                    let t = trim_spec(concat_frags(es[0].1));
                    if t.len() > 0 && t.len() > 8 {
                        Some(t)
                    } else {
                        time_date_rec(h, sels.subrange(1, sels.len() as int))
                    }
                },
            }
        } else {
            time_date_rec(h, sels.subrange(1, sels.len() as int))
        }
    }
}

/// What the time-element strategy yields on a page.
pub open spec fn time_date_spec(h: Seq<char>) -> Option<Seq<char>> {
    time_date_rec(h, time_selectors())
}

/// The date-bearing member names probed in a linked-data block, in order.
pub open spec fn ld_probe(v: JsonValue) -> Option<Seq<char>> {
    match json_get_spec(v, "datePublished"@) {
        Some(f) => match json_text_spec(f) {
            Some(d) => Some(d),
            None => ld_probe_rest1(v),
        },
        None => ld_probe_rest1(v),
    }
}

pub open spec fn ld_probe_rest1(v: JsonValue) -> Option<Seq<char>> {
    match json_get_spec(v, "dateCreated"@) {
        Some(f) => match json_text_spec(f) {
            Some(d) => Some(d),
            None => ld_probe_rest2(v),
        },
        None => ld_probe_rest2(v),
    }
}

pub open spec fn ld_probe_rest2(v: JsonValue) -> Option<Seq<char>> {
    match json_get_spec(v, "dateModified"@) {
        Some(f) => match json_text_spec(f) {
            Some(d) => Some(d),
            None => ld_probe_rest3(v),
        },
        None => ld_probe_rest3(v),
    }
}

pub open spec fn ld_probe_rest3(v: JsonValue) -> Option<Seq<char>> {
    match json_get_spec(v, "publishedDate"@) {
        Some(f) => json_text_spec(f),
        None => None,
    }
}

/// The date the page's linked-data blocks yield: the first block that
/// parses and exposes a date-bearing member.
pub open spec fn ld_date_rec(es: Seq<(Option<Seq<char>>, Seq<Seq<char>>)>) -> Option<Seq<char>>
    decreases es.len(),
{
    if es.len() == 0 {
        None
    } else {
        let txt = trim_spec(concat_frags(es[0].1));
        let got = match parsed_json(txt) {
            Some(v) => ld_probe(v),
            None => None,
        };
        match got {
            Some(d) => Some(d),
            None => ld_date_rec(es.subrange(1, es.len() as int)),
        }
    }
}

/// What the structured-data strategy yields on a page.
pub open spec fn ld_date_spec(h: Seq<char>) -> Option<Seq<char>> {
    ld_date_rec(selected_elements(h, "script[type='application/ld+json']"@, "type"@))
}

/// What the date resolver yields: the four strategies in their fixed
/// order, first success wins.
pub open spec fn resolve_date_spec(h: Seq<char>) -> Option<Seq<char>> {
    match nuxt_date_spec(h) {
        Some(d) => Some(d),
        None => match meta_date_spec(h) {
            Some(d) => Some(d),
            None => match time_date_spec(h) {
                Some(d) => Some(d),
                None => ld_date_spec(h),
            },
        },
    }
}

/// Executable test for a shaped timestamp at one position.
pub fn date_shape_check(s: &Vec<char>, d: usize) -> (r: bool)
    ensures
        r == date_shape_at(s@, d as int),
{
    let n = s.len();
    if n < 19 || d > n - 19 {
        return false;
    }
    let mut k: usize = 0;
    let mut ok = true;
    while k < 19
        invariant
            0 <= k <= 19,
            d + 19 <= s@.len(),
            s@.len() == n,
            ok == (forall|m: int| 0 <= m < k ==> shape_char_ok(s@, d as int, m)),
        decreases 19 - k,
    {
        let c = s[d + k];
        let good = if k == 4 || k == 7 {
            c == '-'
        } else if k == 10 {
            c == 'T'
        } else if k == 13 || k == 16 {
            c == ':'
        } else {
            '0' <= c && c <= '9'
        };
        proof {
            assert(good == shape_char_ok(s@, d as int, k as int));
        }
        ok = ok && good;
        k = k + 1;
    }
    proof {
        if ok {
            assert(date_shape_at(s@, d as int)) by {
                assert(forall|m: int| 0 <= m < 19 ==> shape_char_ok(s@, d as int, m));
                assert(shape_char_ok(s@, d as int, 0));
                assert(shape_char_ok(s@, d as int, 1));
                assert(shape_char_ok(s@, d as int, 2));
                assert(shape_char_ok(s@, d as int, 3));
                assert(shape_char_ok(s@, d as int, 4));
                assert(shape_char_ok(s@, d as int, 5));
                assert(shape_char_ok(s@, d as int, 6));
                assert(shape_char_ok(s@, d as int, 7));
                assert(shape_char_ok(s@, d as int, 8));
                assert(shape_char_ok(s@, d as int, 9));
                assert(shape_char_ok(s@, d as int, 10));
                assert(shape_char_ok(s@, d as int, 11));
                assert(shape_char_ok(s@, d as int, 12));
                assert(shape_char_ok(s@, d as int, 13));
                assert(shape_char_ok(s@, d as int, 14));
                assert(shape_char_ok(s@, d as int, 15));
                assert(shape_char_ok(s@, d as int, 16));
                assert(shape_char_ok(s@, d as int, 17));
                assert(shape_char_ok(s@, d as int, 18));
            }
        } else {
            let m = choose|m: int| 0 <= m < 19 && !shape_char_ok(s@, d as int, m);
            assert(!date_shape_at(s@, d as int));
        }
    }
    ok
}

/// The shape demanded of the timestamp character at offset `m`.
pub open spec fn shape_char_ok(s: Seq<char>, d: int, m: int) -> bool {
    if m == 4 || m == 7 {
        s[d + m] == '-'
    } else if m == 10 {
        s[d + m] == 'T'
    } else if m == 13 || m == 16 {
        s[d + m] == ':'
    } else {
        is_digit(s[d + m])
    }
}

/// Executable mirror of [`date_capture`].
fn date_capture_exec(s: &Vec<char>, d: usize) -> (r: Vec<char>)
    requires
        date_shape_at(s@, d as int),
    ensures
        r@ == date_capture(s@, d as int),
{
    let n = s.len();
    let qm = str_to_chars("\"");
    proof {
        reveal_strlit("\"");
    }
    match find_in(s, &qm, d + 19) {
        Some(q) => {
            proof {
                crate::text::lemma_find_from_spec(s@, qm@, d + 19);
            }
            crate::text::subvec(s, d, q)
        },
        None => crate::text::subvec(s, d, s.len()),
    }
}

/// Executable mirror of [`bare_field_date`].
fn bare_field_date_exec(s: &Vec<char>, marker: &Vec<char>) -> (r: Option<Vec<char>>)
    requires
        marker@.len() > 0,
    ensures
        match r {
            Some(d) => bare_field_date(s@, marker@, 0) == Some(d@),
            None => bare_field_date(s@, marker@, 0) is None,
        },
{
    let n = s.len();
    let mut from: usize = 0;
    loop
        invariant
            from <= s@.len(),
            s@.len() == n,
            marker@.len() > 0,
            bare_field_date(s@, marker@, 0) == bare_field_date(s@, marker@, from as int),
        ensures
            bare_field_date(s@, marker@, 0) is None,
        decreases s@.len() - from,
    {
        match find_in(s, marker, from) {
            None => {
                break;
            },
            Some(i) => {
                proof {
                    crate::text::lemma_find_from_spec(s@, marker@, from as int);
                }
                if date_shape_check(s, i + marker.len()) {
                    let d = date_capture_exec(s, i + marker.len());
                    return Some(d);
                }
                from = i + 1;
            },
        }
    }
    None
}

/// Executable mirror of [`markers_pos`].
fn markers_pos_exec(s: &Vec<char>, markers: &Vec<Vec<char>>, lo: usize, hi: usize) -> (r: Option<
    usize,
>)
    requires
        lo <= s@.len(),
        hi <= s@.len(),
    ensures
        match r {
            Some(p) => markers_pos(s@, markers@.map_values(|m: Vec<char>| m@), lo as int, hi as int)
                == Some(p as int) && p <= s@.len(),
            None => markers_pos(s@, markers@.map_values(|m: Vec<char>| m@), lo as int, hi as int)
                is None,
        },
{
    let ghost mv = markers@.map_values(|m: Vec<char>| m@);
    proof {
        assert(mv.subrange(0, mv.len() as int) =~= mv);
    }
    let n = s.len();
    let mut cur: usize = lo;
    let mut i: usize = 0;
    while i < markers.len()
        invariant
            0 <= i <= mv.len(),
            mv == markers@.map_values(|m: Vec<char>| m@),
            i > 0 ==> cur <= hi,
            cur <= s@.len(),
            hi <= s@.len(),
            s@.len() == n,
            markers_pos(s@, mv, lo as int, hi as int) == markers_pos(
                s@,
                mv.subrange(i as int, mv.len() as int),
                cur as int,
                hi as int,
            ),
        decreases mv.len() - i,
    {
        let ghost pending = mv.subrange(i as int, mv.len() as int);
        proof {
            assert(pending[0] == mv[i as int]);
            assert(pending[0] == markers@[i as int]@);
            assert(pending.subrange(1, pending.len() as int) =~= mv.subrange(
                i + 1,
                mv.len() as int,
            ));
        }
        match find_in(s, &markers[i], cur) {
            None => {
                return None;
            },
            Some(p) => {
                proof {
                    crate::text::lemma_find_from_spec(s@, markers@[i as int]@, cur as int);
                }
                if p + markers[i].len() > hi {
                    return None;
                }
                cur = p + markers[i].len();
            },
        }
        i = i + 1;
    }
    proof {
        assert(mv.subrange(mv.len() as int, mv.len() as int) =~= Seq::<Seq<char>>::empty());
    }
    Some(cur)
}

/// Executable mirror of [`attr_region_date`].
fn attr_region_date_exec(s: &Vec<char>, markers: &Vec<Vec<char>>) -> (r: Option<Vec<char>>)
    ensures
        match r {
            Some(d) => attr_region_date(s@, markers@.map_values(|m: Vec<char>| m@), 0) == Some(
                d@,
            ),
            None => attr_region_date(s@, markers@.map_values(|m: Vec<char>| m@), 0) is None,
        },
{
    let ghost mv = markers@.map_values(|m: Vec<char>| m@);
    let ab = str_to_chars("attributes:{");
    let cb = str_to_chars("}");
    let pm = str_to_chars("publishedAt:\"");
    proof {
        reveal_strlit("attributes:{");
        reveal_strlit("}");
        reveal_strlit("publishedAt:\"");
    }
    let n = s.len();
    let mut from: usize = 0;
    loop
        invariant
            from <= s@.len(),
            s@.len() == n,
            mv == markers@.map_values(|m: Vec<char>| m@),
            ab@ == "attributes:{"@,
            cb@ == "}"@,
            pm@ == "publishedAt:\""@,
            ab@.len() == 12,
            cb@.len() == 1,
            pm@.len() == 13,
            attr_region_date(s@, mv, 0) == attr_region_date(s@, mv, from as int),
        ensures
            attr_region_date(s@, mv, 0) is None,
        decreases s@.len() - from,
    {
        match find_in(s, &ab, from) {
            None => {
                break;
            },
            Some(a) => {
                proof {
                    crate::text::lemma_find_from_spec(s@, ab@, from as int);
                }
                let lo = a + ab.len();
                match find_in(s, &cb, lo) {
                    None => {
                        break;
                    },
                    Some(j) => {
                        proof {
                            crate::text::lemma_find_from_spec(s@, cb@, lo as int);
                        }
                        let mut produced: Option<Vec<char>> = None;
                        match markers_pos_exec(s, markers, lo, j) {
                            Some(pos) => {
                                match find_in(s, &pm, pos) {
                                    Some(pp) => {
                                        proof {
                                            crate::text::lemma_find_from_spec(
                                                s@,
                                                pm@,
                                                pos as int,
                                            );
                                        }
                                        if pp + pm.len() <= j && date_shape_check(
                                            s,
                                            pp + pm.len(),
                                        ) {
                                            produced = Some(
                                                date_capture_exec(s, pp + pm.len()),
                                            );
                                        }
                                    },
                                    None => {},
                                }
                            },
                            None => {},
                        }
                        match produced {
                            Some(d) => {
                                return Some(d);
                            },
                            None => {
                                from = a + 1;
                            },
                        }
                    },
                }
            },
        }
    }
    None
}

/// Mines one embedded-state script text for the main article's
/// timestamp: record patterns with title and slug first, bare date
/// fields as a last resort.
pub fn extract_date_from_nuxt_script(script_text: &str) -> (r: Option<String>)
    ensures
        match r {
            Some(d) => nuxt_script_date_spec(script_text@) == Some(d@),
            None => nuxt_script_date_spec(script_text@) is None,
        },
{
    let s = str_to_chars(script_text);
    let nuxt = str_to_chars("__NUXT__");
    proof {
        reveal_strlit("__NUXT__");
        reveal_strlit("title:");
        reveal_strlit("slug:");
        reveal_strlit("scheduled_at:");
        reveal_strlit("publishedAt:\"");
        reveal_strlit("scheduled_at:\"");
        reveal_strlit("createdAt:\"");
        reveal_strlit("updatedAt:\"");
    }
    if !crate::text::contains_chars(&s, &nuxt) {
        return None;
    }
    let mut m1: Vec<Vec<char>> = Vec::new();
    m1.push(str_to_chars("title:"));
    m1.push(str_to_chars("slug:"));
    proof {
        assert(m1@.map_values(|m: Vec<char>| m@) =~= seq!["title:"@, "slug:"@]);
    }
    match attr_region_date_exec(&s, &m1) {
        Some(d) => {
            return Some(chars_to_string(&d));
        },
        None => {},
    }
    let mut m2: Vec<Vec<char>> = Vec::new();
    m2.push(str_to_chars("title:"));
    proof {
        assert(m2@.map_values(|m: Vec<char>| m@) =~= seq!["title:"@]);
    }
    match attr_region_date_exec(&s, &m2) {
        Some(d) => {
            return Some(chars_to_string(&d));
        },
        None => {},
    }
    let mut m3: Vec<Vec<char>> = Vec::new();
    m3.push(str_to_chars("scheduled_at:"));
    proof {
        assert(m3@.map_values(|m: Vec<char>| m@) =~= seq!["scheduled_at:"@]);
    }
    match attr_region_date_exec(&s, &m3) {
        Some(d) => {
            return Some(chars_to_string(&d));
        },
        None => {},
    }
    match bare_field_date_exec(&s, &str_to_chars("publishedAt:\"")) {
        Some(d) => {
            return Some(chars_to_string(&d));
        },
        None => {},
    }
    match bare_field_date_exec(&s, &str_to_chars("scheduled_at:\"")) {
        Some(d) => {
            return Some(chars_to_string(&d));
        },
        None => {},
    }
    match bare_field_date_exec(&s, &str_to_chars("createdAt:\"")) {
        Some(d) => {
            return Some(chars_to_string(&d));
        },
        None => {},
    }
    match bare_field_date_exec(&s, &str_to_chars("updatedAt:\"")) {
        Some(d) => {
            return Some(chars_to_string(&d));
        },
        None => {},
    }
    None
}

/// Scans the page's scripts for embedded state and mines the first
/// state-bearing one that reveals a timestamp.
pub fn extract_date_from_nuxt_object(html: &str) -> (r: Option<String>)
    ensures
        match r {
            Some(d) => nuxt_date_spec(html@) == Some(d@),
            None => nuxt_date_spec(html@) is None,
        },
{
    let ghost es = selected_elements(html@, "script"@, "type"@);
    let elems = crate::dom::select_elements(html, "script", "type");
    let nuxt = str_to_chars("__NUXT__");
    let mut i: usize = 0;
    proof {
        assert(es.subrange(0, es.len() as int) =~= es);
    }
    while i < elems.len()
        invariant
            0 <= i <= elems@.len(),
            elems@.len() == es.len(),
            es == selected_elements(html@, "script"@, "type"@),
            forall|k: int| 0 <= k < es.len() ==> (#[trigger] elems@[k])@ == es[k],
            nuxt@ == "__NUXT__"@,
            nuxt_date_rec(es) == nuxt_date_rec(es.subrange(i as int, es.len() as int)),
        decreases elems@.len() - i,
    {
        let ghost pending = es.subrange(i as int, es.len() as int);
        proof {
            assert(pending[0] == es[i as int]);
            assert(pending.subrange(1, pending.len() as int) =~= es.subrange(
                i + 1,
                es.len() as int,
            ));
            assert(elems@[i as int]@ == es[i as int]);
        }
        let txt = crate::dom::concat_fragments(&elems[i].fragments);
        if crate::text::contains_chars(&txt, &nuxt) {
            let script = chars_to_string(&txt);
            match extract_date_from_nuxt_script(script.as_str()) {
                Some(d) => {
                    proof {
                        assert(concat_frags(pending[0].1) == txt@);
                        assert(nuxt_date_rec(pending) == Some(d@));
                    }
                    return Some(d);
                },
                None => {},
            }
        }
        i = i + 1;
    }
    proof {
        assert(es.subrange(es.len() as int, es.len() as int) =~= Seq::<
            (Option<Seq<char>>, Seq<Seq<char>>),
        >::empty());
    }
    None
}

/// The content of one meta query's first match, if it carries one.
fn meta_for_selector(html: &str, selector: &str) -> (r: Option<String>)
    ensures
        ({
            let es = selected_elements(html@, selector@, "content"@);
            match r {
                Some(d) => es.len() > 0 && es[0].0 == Some(d@),
                None => !(es.len() > 0 && es[0].0 is Some),
            }
        }),
{
    let ghost es = selected_elements(html@, selector@, "content"@);
    let elems = crate::dom::select_elements(html, selector, "content");
    if elems.len() > 0 {
        proof {
            assert(elems@[0]@ == es[0]);
        }
        match &elems[0].attr {
            Some(content) => Some(content.clone()),
            None => None,
        }
    } else {
        None
    }
}

/// Tries the meta-tag queries in order and keeps the first content
/// value.
pub fn extract_date_from_meta_tags(html: &str) -> (r: Option<String>)
    ensures
        match r {
            Some(d) => meta_date_spec(html@) == Some(d@),
            None => meta_date_spec(html@) is None,
        },
{
    let ghost sels = meta_selectors();
    let ghost h = html@;
    proof {
        assert(sels.subrange(1, 6)[0] == sels[1]);
        assert(sels.subrange(1, 6).subrange(1, 5) =~= sels.subrange(2, 6));
        assert(sels.subrange(2, 6)[0] == sels[2]);
        assert(sels.subrange(2, 6).subrange(1, 4) =~= sels.subrange(3, 6));
        assert(sels.subrange(3, 6)[0] == sels[3]);
        assert(sels.subrange(3, 6).subrange(1, 3) =~= sels.subrange(4, 6));
        assert(sels.subrange(4, 6)[0] == sels[4]);
        assert(sels.subrange(4, 6).subrange(1, 2) =~= sels.subrange(5, 6));
        assert(sels.subrange(5, 6)[0] == sels[5]);
        assert(sels.subrange(5, 6).subrange(1, 1) =~= Seq::<Seq<char>>::empty());
        assert(meta_date_rec(h, Seq::<Seq<char>>::empty()) is None);
    }
    match meta_for_selector(html, "meta[property=\"article:published_time\"]") {
        Some(d) => {
            proof {
                assert(meta_date_rec(h, sels) == Some(d@));
            }
            return Some(d);
        },
        None => {},
    }
    proof {
        assert(meta_date_rec(h, sels) == meta_date_rec(h, sels.subrange(1, 6)));
    }
    match meta_for_selector(html, "meta[name=\"article:published_time\"]") {
        Some(d) => {
            proof {
                assert(meta_date_rec(h, sels.subrange(1, 6)) == Some(d@));
            }
            return Some(d);
        },
        None => {},
    }
    proof {
        assert(meta_date_rec(h, sels.subrange(1, 6)) == meta_date_rec(h, sels.subrange(2, 6)));
    }
    match meta_for_selector(html, "meta[property=\"og:published_time\"]") {
        Some(d) => {
            proof {
                assert(meta_date_rec(h, sels.subrange(2, 6)) == Some(d@));
            }
            return Some(d);
        },
        None => {},
    }
    proof {
        assert(meta_date_rec(h, sels.subrange(2, 6)) == meta_date_rec(h, sels.subrange(3, 6)));
    }
    match meta_for_selector(html, "meta[name=\"publishedDate\"]") {
        Some(d) => {
            proof {
                assert(meta_date_rec(h, sels.subrange(3, 6)) == Some(d@));
            }
            return Some(d);
        },
        None => {},
    }
    proof {
        assert(meta_date_rec(h, sels.subrange(3, 6)) == meta_date_rec(h, sels.subrange(4, 6)));
    }
    match meta_for_selector(html, "meta[name=\"publication-date\"]") {
        Some(d) => {
            proof {
                assert(meta_date_rec(h, sels.subrange(4, 6)) == Some(d@));
            }
            return Some(d);
        },
        None => {},
    }
    proof {
        assert(meta_date_rec(h, sels.subrange(4, 6)) == meta_date_rec(h, sels.subrange(5, 6)));
    }
    match meta_for_selector(html, "meta[name=\"date\"]") {
        Some(d) => {
            proof {
                assert(meta_date_rec(h, sels.subrange(5, 6)) == Some(d@));
            }
            return Some(d);
        },
        None => {},
    }
    proof {
        assert(meta_date_rec(h, sels.subrange(5, 6)) == meta_date_rec(h, Seq::<Seq<char>>::empty()));
    }
    None
}

/// One time query's answer: the first match's datetime attribute, its
/// long enough visible text, or nothing.
fn time_for_selector(html: &str, selector: &str) -> (r: Option<String>)
    ensures
        ({
            let es = selected_elements(html@, selector@, "datetime"@);
            match r {
                Some(d) => es.len() > 0 && (match es[0].0 {
                    Some(dt) => dt == d@,
                    None => {
                        let t = trim_spec(concat_frags(es[0].1));
                        t.len() > 0 && t.len() > 8 && t == d@
                    },
                }),
                None => !(es.len() > 0 && (match es[0].0 {
                    Some(_) => true,
                    None => {
                        let t = trim_spec(concat_frags(es[0].1));
                        t.len() > 0 && t.len() > 8
                    },
                })),
            }
        }),
{
    let ghost es = selected_elements(html@, selector@, "datetime"@);
    let elems = crate::dom::select_elements(html, selector, "datetime");
    if elems.len() > 0 {
        proof {
            assert(elems@[0]@ == es[0]);
        }
        match &elems[0].attr {
            Some(dt) => Some(dt.clone()),
            None => {
                let joined = crate::dom::concat_fragments(&elems[0].fragments);
                let t = crate::text::trim_chars(&joined);
                if t.len() > 0 && t.len() > 8 {
                    Some(chars_to_string(&t))
                } else {
                    None
                }
            },
        }
    } else {
        None
    }
}

/// Tries the time-element queries in order, preferring machine-readable
/// datetime attributes over visible text.
pub fn extract_date_from_time_elements(html: &str) -> (r: Option<String>)
    ensures
        match r {
            Some(d) => time_date_spec(html@) == Some(d@),
            None => time_date_spec(html@) is None,
        },
{
    let ghost sels = time_selectors();
    let ghost h = html@;
    proof {
        assert(sels.subrange(1, 5)[0] == sels[1]);
        assert(sels.subrange(1, 5).subrange(1, 4) =~= sels.subrange(2, 5));
        assert(sels.subrange(2, 5)[0] == sels[2]);
        assert(sels.subrange(2, 5).subrange(1, 3) =~= sels.subrange(3, 5));
        assert(sels.subrange(3, 5)[0] == sels[3]);
        assert(sels.subrange(3, 5).subrange(1, 2) =~= sels.subrange(4, 5));
        assert(sels.subrange(4, 5)[0] == sels[4]);
        assert(sels.subrange(4, 5).subrange(1, 1) =~= Seq::<Seq<char>>::empty());
        assert(time_date_rec(h, Seq::<Seq<char>>::empty()) is None);
    }
    match time_for_selector(html, "time[datetime]") {
        Some(d) => {
            proof {
                assert(time_date_rec(h, sels) == Some(d@));
            }
            return Some(d);
        },
        None => {},
    }
    proof {
        assert(time_date_rec(h, sels) == time_date_rec(h, sels.subrange(1, 5)));
    }
    match time_for_selector(html, "time[pubdate]") {
        Some(d) => {
            proof {
                assert(time_date_rec(h, sels.subrange(1, 5)) == Some(d@));
            }
            return Some(d);
        },
        None => {},
    }
    proof {
        assert(time_date_rec(h, sels.subrange(1, 5)) == time_date_rec(h, sels.subrange(2, 5)));
    }
    match time_for_selector(html, ".published-date time") {
        Some(d) => {
            proof {
                assert(time_date_rec(h, sels.subrange(2, 5)) == Some(d@));
            }
            return Some(d);
        },
        None => {},
    }
    proof {
        assert(time_date_rec(h, sels.subrange(2, 5)) == time_date_rec(h, sels.subrange(3, 5)));
    }
    match time_for_selector(html, ".article-date time") {
        Some(d) => {
            proof {
                assert(time_date_rec(h, sels.subrange(3, 5)) == Some(d@));
            }
            return Some(d);
        },
        None => {},
    }
    proof {
        assert(time_date_rec(h, sels.subrange(3, 5)) == time_date_rec(h, sels.subrange(4, 5)));
    }
    match time_for_selector(html, ".post-date time") {
        Some(d) => {
            proof {
                assert(time_date_rec(h, sels.subrange(4, 5)) == Some(d@));
            }
            return Some(d);
        },
        None => {},
    }
    proof {
        assert(time_date_rec(h, sels.subrange(4, 5)) == time_date_rec(h, Seq::<Seq<char>>::empty()));
    }
    None
}

/// Probes a parsed linked-data block for its date-bearing members, in
/// order.
fn ld_probe_exec(v: &JsonValue) -> (r: Option<String>)
    ensures
        match r {
            Some(d) => ld_probe(*v) == Some(d@),
            None => ld_probe(*v) is None,
        },
{
    match crate::json::json_get(v, &str_to_chars("datePublished")) {
        Some(f) => match crate::json::json_text(f) {
            Some(d) => {
                return Some(d);
            },
            None => {},
        },
        None => {},
    }
    match crate::json::json_get(v, &str_to_chars("dateCreated")) {
        Some(f) => match crate::json::json_text(f) {
            Some(d) => {
                return Some(d);
            },
            None => {},
        },
        None => {},
    }
    match crate::json::json_get(v, &str_to_chars("dateModified")) {
        Some(f) => match crate::json::json_text(f) {
            Some(d) => {
                return Some(d);
            },
            None => {},
        },
        None => {},
    }
    match crate::json::json_get(v, &str_to_chars("publishedDate")) {
        Some(f) => match crate::json::json_text(f) {
            Some(d) => {
                return Some(d);
            },
            None => {},
        },
        None => {},
    }
    None
}

/// Locates the page's linked-data blocks and probes the first one that
/// parses and carries a date-bearing member.
pub fn extract_date_from_json_ld(html: &str) -> (r: Option<String>)
    ensures
        match r {
            Some(d) => ld_date_spec(html@) == Some(d@),
            None => ld_date_spec(html@) is None,
        },
{
    let ghost es = selected_elements(html@, "script[type='application/ld+json']"@, "type"@);
    let elems = crate::dom::select_elements(html, "script[type='application/ld+json']", "type");
    let mut i: usize = 0;
    proof {
        assert(es.subrange(0, es.len() as int) =~= es);
    }
    while i < elems.len()
        invariant
            0 <= i <= elems@.len(),
            elems@.len() == es.len(),
            es == selected_elements(html@, "script[type='application/ld+json']"@, "type"@),
            forall|k: int| 0 <= k < es.len() ==> (#[trigger] elems@[k])@ == es[k],
            ld_date_rec(es) == ld_date_rec(es.subrange(i as int, es.len() as int)),
        decreases elems@.len() - i,
    {
        let ghost pending = es.subrange(i as int, es.len() as int);
        proof {
            assert(pending[0] == es[i as int]);
            assert(pending.subrange(1, pending.len() as int) =~= es.subrange(
                i + 1,
                es.len() as int,
            ));
            assert(elems@[i as int]@ == es[i as int]);
        }
        let joined = crate::dom::concat_fragments(&elems[i].fragments);
        let trimmed = crate::text::trim_chars(&joined);
        let txt = chars_to_string(&trimmed);
        match parse_json(txt.as_str()) {
            Some(v) => {
                match ld_probe_exec(&v) {
                    Some(d) => {
                        proof {
                            assert(trim_spec(concat_frags(pending[0].1)) == txt@);
                            assert(ld_date_rec(pending) == Some(d@));
                        }
                        return Some(d);
                    },
                    None => {},
                }
            },
            None => {},
        }
        i = i + 1;
    }
    proof {
        assert(es.subrange(es.len() as int, es.len() as int) =~= Seq::<
            (Option<Seq<char>>, Seq<Seq<char>>),
        >::empty());
    }
    None
}

/// Resolves the page's publication timestamp through the four strategies
/// in their fixed order; absence is a normal outcome.
pub fn extract_article_date(html: &str) -> (r: Option<String>)
    ensures
        match r {
            Some(d) => resolve_date_spec(html@) == Some(d@),
            None => resolve_date_spec(html@) is None,
        },
{
    match extract_date_from_nuxt_object(html) {
        Some(d) => {
            return Some(d);
        },
        None => {},
    }
    match extract_date_from_meta_tags(html) {
        Some(d) => {
            return Some(d);
        },
        None => {},
    }
    match extract_date_from_time_elements(html) {
        Some(d) => {
            return Some(d);
        },
        None => {},
    }
    extract_date_from_json_ld(html)
}

/// The meta-tag strategy precedes the time-element and structured-data
/// strategies: when embedded state is silent and a meta tag speaks, the
/// meta tag's value is the resolution, whatever the later strategies
/// would say.
pub proof fn law_meta_precedes_later_strategies(h: Seq<char>)
    requires
        nuxt_date_spec(h) is None,
        meta_date_spec(h) is Some,
    ensures
        resolve_date_spec(h) == meta_date_spec(h),
{
}

/// Within the time-element strategy, a machine-readable datetime
/// attribute on the first matching element wins over any visible text.
pub proof fn law_time_datetime_preferred(h: Seq<char>)
    requires
        selected_elements(h, "time[datetime]"@, "datetime"@).len() > 0,
        selected_elements(h, "time[datetime]"@, "datetime"@)[0].0 is Some,
    ensures
        time_date_spec(h) == selected_elements(h, "time[datetime]"@, "datetime"@)[0].0,
{
    let sels = time_selectors();
    assert(sels[0] == "time[datetime]"@);
}

} // verus!
