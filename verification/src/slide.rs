//! The marker lexer and the slide record: one slide owns a markdown body and
//! the ordered markers found in its source text. A marker directive is a line
//! beginning with the three-character sentinel `!!!`; its trimmed remainder
//! selects a demo widget, and an unrecognized remainder is kept verbatim in an
//! escape variant. Marker lines are removed from the body; the remaining
//! lines are joined back with `'\n'` in source order.

use vstd::prelude::*;
use vstd::string::*;
use crate::text::{
    spec_trim, spec_lines, join_lines, str_views, trim_str, split_lines, str_eq,
    lemma_lines_of_join, lemma_lines_have_no_nl, lemma_join_push,
};

verus! {

/// A demo-widget directive found in a slide's source text.
#[derive(Debug, Clone, PartialEq, Eq)]
pub enum SlideMarker {
    CounterExample,
    UiExample,
    ToggleWidget,
    IdClashesExample,
    UnknownMarker(String),
    DancingStrings,
    Painting,
}

/// Whether a line is a marker directive: it begins with the sentinel `!!!`.
pub open spec fn is_marker_line(l: Seq<char>) -> bool {
    l.len() >= 3 && l[0] == '!' && l[1] == '!' && l[2] == '!'
}

/// The lines a slide's source text is lexed into: the text is trimmed of
/// leading and trailing whitespace, then split on `'\n'`.
pub open spec fn slide_lines(text: Seq<char>) -> Seq<Seq<char>> {
    spec_lines(spec_trim(text))
}

/// The marker lines among `ls`, in order.
pub open spec fn markers_in(ls: Seq<Seq<char>>) -> Seq<Seq<char>> {
    ls.filter(|l: Seq<char>| is_marker_line(l))
}

/// The non-marker lines among `ls`, in order.
pub open spec fn bodies_in(ls: Seq<Seq<char>>) -> Seq<Seq<char>> {
    ls.filter(|l: Seq<char>| !is_marker_line(l))
}

/// The marker lines of a slide's source text, in source order.
pub open spec fn marker_lines(text: Seq<char>) -> Seq<Seq<char>> {
    markers_in(slide_lines(text))
}

/// The markdown body of a slide's source text: the non-marker lines, joined
/// back with `'\n'` in source order.
pub open spec fn spec_body(text: Seq<char>) -> Seq<char> {
    join_lines(bodies_in(slide_lines(text)))
}

/// Whether marker value `m` is the one a marker line `l` denotes: the trimmed
/// remainder after the sentinel is looked up in the fixed keyword table, and
/// an unrecognized remainder yields the escape variant carrying the raw
/// (untrimmed) remainder.
pub open spec fn marker_matches(m: SlideMarker, l: Seq<char>) -> bool {
    let rest = l.skip(3);
    let key = spec_trim(rest);
    if key == "counter_example"@ {
        m == SlideMarker::CounterExample
    } else if key == "ui_example"@ {
        m == SlideMarker::UiExample
    } else if key == "toggle_widget"@ {
        m == SlideMarker::ToggleWidget
    } else if key == "id_clashes"@ {
        m == SlideMarker::IdClashesExample
    } else if key == "dancing_strings"@ {
        m == SlideMarker::DancingStrings
    } else if key == "painting"@ {
        m == SlideMarker::Painting
    } else {
        m matches SlideMarker::UnknownMarker(u) && u@ == rest
    }
}

/// Adding one line to the end extends the marker lines, or the body lines,
/// by that line, according to the sentinel predicate.
proof fn lemma_classify_push(ls: Seq<Seq<char>>, l: Seq<char>)
    ensures
        is_marker_line(l) ==> markers_in(ls.push(l)) == markers_in(ls).push(l),
        !is_marker_line(l) ==> markers_in(ls.push(l)) == markers_in(ls),
        is_marker_line(l) ==> bodies_in(ls.push(l)) == bodies_in(ls),
        !is_marker_line(l) ==> bodies_in(ls.push(l)) == bodies_in(ls).push(l),
{
    reveal(Seq::filter);
    assert(ls.push(l).drop_last() =~= ls);
    assert(ls.push(l).last() == l);
}

/// Every body line fails the sentinel predicate, and contains no `'\n'` if no
/// line of `ls` does.
proof fn lemma_bodies_in_elems(ls: Seq<Seq<char>>)
    requires
        forall|i: int, j: int|
            0 <= i < ls.len() && 0 <= j < ls[i].len() ==> #[trigger] ls[i][j] != '\n',
    ensures
        forall|i: int|
            0 <= i < bodies_in(ls).len() ==> !is_marker_line(#[trigger] bodies_in(ls)[i]),
        forall|i: int, j: int|
            0 <= i < bodies_in(ls).len() && 0 <= j < bodies_in(ls)[i].len()
                ==> #[trigger] bodies_in(ls)[i][j] != '\n',
    decreases ls.len(),
{
    reveal(Seq::filter);
    if ls.len() > 0 {
        let dl = ls.drop_last();
        let l = ls.last();
        assert(forall|i: int, j: int|
            0 <= i < dl.len() && 0 <= j < dl[i].len() ==> #[trigger] dl[i][j] != '\n');
        lemma_bodies_in_elems(dl);
        let bs = bodies_in(ls);
        assert(bs == if !is_marker_line(l) { bodies_in(dl).push(l) } else { bodies_in(dl) });
        assert(forall|j: int| 0 <= j < l.len() ==> #[trigger] l[j] != '\n');
        assert forall|i: int, j: int|
            0 <= i < bs.len() && 0 <= j < bs[i].len() implies #[trigger] bs[i][j] != '\n' by {
            if !is_marker_line(l) && i == bs.len() - 1 {
                assert(bs[i] == l);
            } else {
                assert(bs[i] == bodies_in(dl)[i]);
            }
        }
    }
}

/// One unit of the presentation: a markdown body with the marker lines
/// removed, and the markers those lines denoted, in source order.
pub struct Slide {
    pub markdown: String,
    pub markers: Vec<SlideMarker>,
}

/// Whether `s` is the slide that source text `text` lexes to.
pub open spec fn slide_matches(s: Slide, text: Seq<char>) -> bool {
    &&& s.markdown@ == spec_body(text)
    &&& s.markers@.len() == marker_lines(text).len()
    &&& forall|i: int|
        0 <= i < s.markers@.len() ==> marker_matches(#[trigger] s.markers@[i], marker_lines(text)[i])
}

impl Slide {
    /// Lex one chunk of the document into a slide: trim it, drop each marker
    /// line into the marker list, and join the remaining lines as the body.
    pub fn new(text: &str) -> (s: Slide)
        ensures
            slide_matches(s, text@),
    {
        let trimmed = trim_str(text);
        let lines = split_lines(trimmed.as_str());
        let ghost all: Seq<Seq<char>> = slide_lines(text@);
        proof {
            assert(str_views(lines@) == all);
            assert(all.take(0) =~= Seq::<Seq<char>>::empty());
            reveal(Seq::filter);
            assert(markers_in(all.take(0)).len() == 0);
            assert(bodies_in(all.take(0)).len() == 0);
        }
        let mut markers: Vec<SlideMarker> = Vec::new();
        let mut body = String::new();
        let mut body_count: usize = 0;
        let mut k: usize = 0;
        while k < lines.len()
            invariant
                0 <= k <= lines.len(),
                str_views(lines@) == all,
                all.len() == lines@.len(),
                markers@.len() == markers_in(all.take(k as int)).len(),
                forall|i: int|
                    0 <= i < markers@.len()
                        ==> marker_matches(
                        #[trigger] markers@[i],
                        markers_in(all.take(k as int))[i],
                    ),
                body_count == bodies_in(all.take(k as int)).len(),
                body@ == join_lines(bodies_in(all.take(k as int))),
            decreases lines.len() - k,
        {
            let line: &String = &lines[k];
            proof {
                assert(line@ == str_views(lines@)[k as int]);
                assert(all.take(k + 1).drop_last() =~= all.take(k as int));
                assert(all.take(k + 1).last() == all[k as int]);
                lemma_classify_push(all.take(k as int), all[k as int]);
                assert(all.take(k + 1) =~= all.take(k as int).push(all[k as int]));
            }
            let n: usize = line.as_str().unicode_len();
            let sentinel = n >= 3 && line.as_str().get_char(0) == '!'
                && line.as_str().get_char(1) == '!' && line.as_str().get_char(2) == '!';
            if sentinel {
                let rest = line.as_str().substring_char(3, n);
                proof {
                    assert(rest@ =~= line@.skip(3));
                }
                let key = trim_str(rest);
                let m = if str_eq(key.as_str(), "counter_example") {
                    SlideMarker::CounterExample
                } else if str_eq(key.as_str(), "ui_example") {
                    SlideMarker::UiExample
                } else if str_eq(key.as_str(), "toggle_widget") {
                    SlideMarker::ToggleWidget
                } else if str_eq(key.as_str(), "id_clashes") {
                    SlideMarker::IdClashesExample
                } else if str_eq(key.as_str(), "dancing_strings") {
                    SlideMarker::DancingStrings
                } else if str_eq(key.as_str(), "painting") {
                    SlideMarker::Painting
                } else {
                    SlideMarker::UnknownMarker(rest.to_owned())
                };
                proof {
                    assert(marker_matches(m, all[k as int]));
                }
                markers.push(m);
            } else {
                if body_count > 0 {
                    body.append("\n");
                    proof {
                        reveal_strlit("\n");
                        assert("\n"@ =~= seq!['\n']);
                        lemma_join_push(bodies_in(all.take(k as int)), all[k as int]);
                    }
                } else {
                    proof {
                        assert(bodies_in(all.take(k as int)).push(all[k as int])
                            =~= seq![all[k as int]]);
                    }
                }
                body.append(line.as_str());
                body_count = body_count + 1;
            }
            k = k + 1;
        }
        proof {
            assert(all.take(lines@.len() as int) =~= all);
        }
        Slide { markdown: body, markers }
    }
}

/// A filter that rejects nothing returns the sequence unchanged.
proof fn lemma_bodies_in_all(ls: Seq<Seq<char>>)
    requires
        forall|i: int| 0 <= i < ls.len() ==> !is_marker_line(#[trigger] ls[i]),
    ensures
        bodies_in(ls) == ls,
    decreases ls.len(),
{
    reveal(Seq::filter);
    if ls.len() > 0 {
        let dl = ls.drop_last();
        assert(forall|i: int| 0 <= i < dl.len() ==> !is_marker_line(#[trigger] dl[i]));
        lemma_bodies_in_all(dl);
        assert(bodies_in(ls) =~= ls);
    }
}

/// Law: lexing a chunk without marker lines changes it only by the trimming
/// at its boundaries — the body is exactly the trimmed chunk. Together with
/// the deck builder's split-join round trip this says that splitting a
/// document and rejoining the slide bodies reproduces it up to whitespace
/// trimming at slide boundaries.
pub proof fn lemma_body_of_marker_free_text(text: Seq<char>)
    requires
        forall|i: int|
            0 <= i < slide_lines(text).len() ==> !is_marker_line(#[trigger] slide_lines(text)[i]),
    ensures
        spec_body(text) == spec_trim(text),
{
    lemma_bodies_in_all(slide_lines(text));
    crate::text::lemma_join_of_lines(spec_trim(text));
}

/// Law: marker extraction leaves no marker line in the produced body — every
/// line of the body fails the sentinel predicate.
pub proof fn lemma_body_free_of_markers(text: Seq<char>)
    ensures
        forall|i: int|
            0 <= i < spec_lines(spec_body(text)).len()
                ==> !is_marker_line(#[trigger] spec_lines(spec_body(text))[i]),
{
    let ls = slide_lines(text);
    let bs = bodies_in(ls);
    lemma_lines_have_no_nl(spec_trim(text));
    lemma_bodies_in_elems(ls);
    if bs.len() == 0 {
        assert(spec_body(text) == Seq::<char>::empty());
        assert(spec_lines(spec_body(text)) == seq![Seq::<char>::empty()]);
    } else {
        lemma_lines_of_join(bs);
        assert(spec_lines(spec_body(text)) == bs);
    }
}

} // verus!
