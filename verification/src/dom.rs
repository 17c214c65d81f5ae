//! Structural page queries.
//!
//! Each extraction strategy that reads page structure (inline scripts,
//! meta tags, time elements, content containers, hyperlinks) asks one
//! question of the page: which elements does a fixed structural selector
//! match, and what attribute value and text fragments does each carry.
//! The answer comes from the `scraper` crate through one trusted query;
//! everything done with the answer is verified.

use vstd::prelude::*;

use crate::text::str_to_chars;

verus! {

/// One selected element: the value of the requested attribute, if the
/// element carries it, and the element's text fragments in order.
pub struct ElemData {
    pub attr: Option<String>,
    pub fragments: Vec<String>,
}

impl View for ElemData {
    type V = (Option<Seq<char>>, Seq<Seq<char>>);

    open spec fn view(&self) -> Self::V {
        (
            match self.attr {
                Some(a) => Some(a@),
                None => None,
            },
            self.fragments@.map_values(|f: String| f@),
        )
    }
}

/// The elements a fixed structural selector matches in a fixed page, with
/// the value each carries for a fixed attribute name and its text
/// fragments: a function of the three strings alone.
pub uninterp spec fn selected_elements(h: Seq<char>, sel: Seq<char>, attr: Seq<char>) -> Seq<
    (Option<Seq<char>>, Seq<Seq<char>>),
>;

/// Relies on scraper's `Html::parse_document`, `Selector::parse`,
/// `Html::select`, `ElementRef::attr` and `ElementRef::text`: parsing is
/// deterministic, `select` yields matches in document order, `attr` reads
/// one attribute and `text` yields the descendant text fragments in order,
/// so the answer is a function of page, selector and attribute name alone.
/// A selector that does not parse selects nothing.
#[verifier::external_body]
pub fn select_elements(html: &str, selector: &str, attr: &str) -> (r: Vec<ElemData>)
    ensures
        r@.len() == selected_elements(html@, selector@, attr@).len(),
        forall|i: int| 0 <= i < r@.len() ==> (#[trigger] r@[i])@ == selected_elements(
            html@,
            selector@,
            attr@,
        )[i],
{
    let doc = scraper::Html::parse_document(html);
    let sel = match scraper::Selector::parse(selector) {
        Ok(s) => s,
        Err(_) => return Vec::new(),
    };
    doc.select(&sel).map(
        |el| ElemData {
            attr: el.attr(attr).map(|a| a.to_string()),
            fragments: el.text().map(|t| t.to_string()).collect(),
        },
    ).collect()
}

/// The fragments of one selected element, concatenated.
pub open spec fn concat_frags(fs: Seq<Seq<char>>) -> Seq<char>
    decreases fs.len(),
{
    if fs.len() == 0 {
        Seq::<char>::empty()
    } else {
        fs[0] + concat_frags(fs.subrange(1, fs.len() as int))
    }
}

/// The fragments of one selected element, joined with single spaces.
pub open spec fn join_spaced(fs: Seq<Seq<char>>) -> Seq<char>
    decreases fs.len(),
{
    if fs.len() == 0 {
        Seq::<char>::empty()
    } else if fs.len() == 1 {
        fs[0]
    } else {
        fs[0] + seq![' '] + join_spaced(fs.subrange(1, fs.len() as int))
    }
}

/// Executable mirror of [`concat_frags`] over an element's fragments.
pub fn concat_fragments(fs: &Vec<String>) -> (r: Vec<char>)
    ensures
        r@ == concat_frags(fs@.map_values(|f: String| f@)),
    decreases fs@.len(),
{
    let ghost m = fs@.map_values(|f: String| f@);
    proof {
        assert(m.subrange(0, m.len() as int) =~= m);
    }
    let mut out: Vec<char> = Vec::new();
    let mut i: usize = 0;
    while i < fs.len()
        invariant
            0 <= i <= fs@.len(),
            m == fs@.map_values(|f: String| f@),
            concat_frags(m) == out@ + concat_frags(m.subrange(i as int, m.len() as int)),
        decreases fs@.len() - i,
    {
        let ghost pending = m.subrange(i as int, m.len() as int);
        let frag = str_to_chars(fs[i].as_str());
        crate::text::append_chars(&mut out, &frag);
        proof {
            assert(pending[0] == m[i as int]);
            assert(pending.subrange(1, pending.len() as int) =~= m.subrange(
                i + 1,
                m.len() as int,
            ));
        }
        i = i + 1;
    }
    proof {
        assert(m.subrange(m.len() as int, m.len() as int) =~= Seq::<Seq<char>>::empty());
    }
    out
}

/// Executable mirror of [`join_spaced`] over an element's fragments.
pub fn join_fragments_spaced(fs: &Vec<String>) -> (r: Vec<char>)
    ensures
        r@ == join_spaced(fs@.map_values(|f: String| f@)),
{
    let ghost m = fs@.map_values(|f: String| f@);
    let mut out: Vec<char> = Vec::new();
    let mut i: usize = 0;
    while i < fs.len()
        invariant
            0 <= i <= fs@.len(),
            m == fs@.map_values(|f: String| f@),
            i == 0 ==> out@ == Seq::<char>::empty(),
            0 < i < m.len() ==> join_spaced(m) == out@ + seq![' '] + join_spaced(
                m.subrange(i as int, m.len() as int),
            ),
            i == m.len() ==> join_spaced(m) == out@,
        decreases fs@.len() - i,
    {
        let ghost pending = m.subrange(i as int, m.len() as int);
        proof {
            assert(pending[0] == m[i as int]);
            assert(pending.subrange(1, pending.len() as int) =~= m.subrange(
                i + 1,
                m.len() as int,
            ));
        }
        if i > 0 {
            out.push(' ');
        }
        let frag = str_to_chars(fs[i].as_str());
        crate::text::append_chars(&mut out, &frag);
        proof {
            if i == 0 {
                assert(out@ =~= m[0]);
                if m.len() > 1 {
                    assert(join_spaced(m) == out@ + seq![' '] + join_spaced(
                        m.subrange(1, m.len() as int),
                    ));
                }
            } else {
                if i + 1 < m.len() {
                    assert(join_spaced(m) =~= out@ + seq![' '] + join_spaced(
                        m.subrange(i + 1, m.len() as int),
                    ));
                } else {
                    assert(join_spaced(m) =~= out@);
                }
            }
        }
        i = i + 1;
    }
    out
}

} // verus!
