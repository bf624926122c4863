//! The slide deck builder and the presentation controller. The document is
//! split on a literal delimiter line — a horizontal rule of 79 dashes between
//! two newlines — into chunks, each lexed into a slide; splitting never
//! fails, so even an empty document yields a one-slide deck. The controller
//! owns the current slide index, which only its cyclic `advance` and
//! `retreat` may change, and the demo widget state: a counter, a toggle, and
//! the painting model.

use vstd::prelude::*;
use vstd::string::*;
use vstd::arithmetic::div_mod::{
    lemma_small_mod, lemma_mod_add_multiples_vanish, lemma_add_mod_noop_right,
    lemma_mod_division_less_than_divisor,
};
use crate::slide::{Slide, slide_matches};
use crate::painting::{PaintingModel, Point, StrokeStyle, cleared_strokes, initial_style};

verus! {

/// The literal delimiter the document is split on: a newline, 79 dashes, and
/// a newline — 81 characters in all.
pub open spec fn delim() -> Seq<char> {
    Seq::new(81, |i: int| if i == 0 || i == 80 { '\n' } else { '-' })
}

/// Whether the delimiter occurs in `s` starting at position `k`.
pub open spec fn delim_at(s: Seq<char>, k: int) -> bool {
    0 <= k && k + 81 <= s.len() && s.subrange(k, k + 81) == delim()
}

/// The chunks of `s` between delimiter occurrences, found left to right;
/// a text without the delimiter is one chunk, so there is always at least one.
pub open spec fn spec_split(s: Seq<char>) -> Seq<Seq<char>>
    decreases s.len(),
{
    if delim_at(s, 0) {
        seq![Seq::<char>::empty()] + spec_split(s.skip(81))
    } else if s.len() == 0 {
        seq![s]
    } else {
        let rest = spec_split(s.drop_first());
        seq![seq![s[0]] + rest[0]] + rest.drop_first()
    }
}

/// The chunks joined back into one text with the delimiter between them.
pub open spec fn join_chunks(cs: Seq<Seq<char>>) -> Seq<char>
    decreases cs.len(),
{
    if cs.len() == 0 {
        Seq::<char>::empty()
    } else if cs.len() == 1 {
        cs[0]
    } else {
        cs[0] + delim() + join_chunks(cs.drop_first())
    }
}

/// Splitting always yields at least one chunk.
pub proof fn lemma_split_len(s: Seq<char>)
    ensures
        spec_split(s).len() >= 1,
    decreases s.len(),
{
    if delim_at(s, 0) {
        lemma_split_len(s.skip(81));
    } else if s.len() > 0 {
        lemma_split_len(s.drop_first());
    }
}

/// A delimiter occurrence in a suffix is one in the whole text, shifted.
proof fn lemma_delim_at_skip(s: Seq<char>, a: int, j: int)
    requires
        0 <= a <= s.len(),
        0 <= j,
    ensures
        delim_at(s.skip(a), j) == delim_at(s, a + j),
{
    if a + j + 81 <= s.len() {
        assert(s.skip(a).subrange(j, j + 81) =~= s.subrange(a + j, a + j + 81));
    }
}

/// A text without any delimiter occurrence is a single chunk.
proof fn lemma_split_no_delim(s: Seq<char>)
    requires
        forall|k: int| !delim_at(s, k),
    ensures
        spec_split(s) == seq![s],
    decreases s.len(),
{
    if s.len() > 0 {
        let t = s.drop_first();
        assert forall|k: int| !delim_at(t, k) by {
            if 0 <= k && k + 81 <= t.len() {
                assert(t.subrange(k, k + 81) =~= s.subrange(k + 1, k + 82));
                assert(!delim_at(s, k + 1));
            }
        }
        lemma_split_no_delim(t);
        assert(seq![s[0]] + t =~= s);
        assert(spec_split(s) =~~= seq![s]);
    }
}

/// Splitting at the first delimiter occurrence, at position `k`, yields the
/// prefix as the first chunk followed by the chunks of the rest.
proof fn lemma_split_first(s: Seq<char>, k: int)
    requires
        delim_at(s, k),
        forall|j: int| 0 <= j < k ==> !delim_at(s, j),
    ensures
        spec_split(s) == seq![s.take(k)] + spec_split(s.skip(k + 81)),
    decreases k,
{
    if k == 0 {
        assert(s.take(0) =~= Seq::<char>::empty());
        assert(spec_split(s) =~~= seq![s.take(0)] + spec_split(s.skip(81)));
    } else {
        let t = s.drop_first();
        assert(t.subrange(k - 1, k + 80) =~= s.subrange(k, k + 81));
        assert(delim_at(t, k - 1));
        assert forall|j: int| 0 <= j < k - 1 implies !delim_at(t, j) by {
            assert(t.subrange(j, j + 81) =~= s.subrange(j + 1, j + 82));
            assert(!delim_at(s, j + 1));
        }
        lemma_split_first(t, k - 1);
        let rest = spec_split(t);
        assert(t.take(k - 1) =~= s.subrange(1, k));
        assert(t.skip(k + 80) =~= s.skip(k + 81));
        assert(seq![s[0]] + rest[0] =~= s.take(k));
        assert(rest.drop_first() =~= spec_split(s.skip(k + 81)));
        assert(spec_split(s) =~~= seq![s.take(k)] + spec_split(s.skip(k + 81)));
    }
}

/// Law: splitting on the delimiter and joining the chunks back with the
/// delimiter reproduces the document exactly.
pub proof fn lemma_join_split(s: Seq<char>)
    ensures
        join_chunks(spec_split(s)) == s,
    decreases s.len(),
{
    let cs = spec_split(s);
    if delim_at(s, 0) {
        lemma_join_split(s.skip(81));
        lemma_split_len(s.skip(81));
        assert(cs.drop_first() =~= spec_split(s.skip(81)));
        if spec_split(s.skip(81)).len() >= 1 {
            assert(cs.len() >= 2);
            assert(join_chunks(cs) == cs[0] + delim() + join_chunks(cs.drop_first()));
            assert(join_chunks(cs) =~= s);
        }
    } else if s.len() == 0 {
        assert(join_chunks(cs) == s);
    } else {
        let t = s.drop_first();
        lemma_join_split(t);
        lemma_split_len(t);
        let rest = spec_split(t);
        if rest.len() == 1 {
            assert(cs.len() == 1);
            assert(join_chunks(rest) == rest[0]);
            assert(join_chunks(cs) == seq![s[0]] + rest[0]);
            assert(join_chunks(cs) =~= s);
        } else {
            assert(cs.len() >= 2);
            assert(cs.drop_first() =~= rest.drop_first());
            assert(join_chunks(cs) == cs[0] + delim() + join_chunks(rest.drop_first()));
            assert(join_chunks(rest) == rest[0] + delim() + join_chunks(rest.drop_first()));
            assert(t == rest[0] + delim() + join_chunks(rest.drop_first()));
            assert(join_chunks(cs) =~= seq![s[0]] + t);
            assert(seq![s[0]] + t =~= s);
        }
    }
}

/// Whether the delimiter occurs at position `k`, decided executably.
fn is_delim_at(s: &str, k: usize, n: usize) -> (r: bool)
    requires
        n == s@.len(),
        k <= n,
    ensures
        r == delim_at(s@, k as int),
{
    if n - k < 81 {
        return false;
    }
    if s.get_char(k) != '\n' {
        proof {
            if delim_at(s@, k as int) {
                assert(s@.subrange(k as int, k as int + 81)[0] == s@[k as int]);
                assert(delim()[0] == '\n');
            }
        }
        return false;
    }
    let mut i: usize = 1;
    while i < 80
        invariant
            1 <= i <= 80,
            k + 81 <= n,
            n == s@.len(),
            forall|j: int| 1 <= j < i ==> #[trigger] s@[k + j] == '-',
        decreases 80 - i,
    {
        if s.get_char(k + i) != '-' {
            proof {
                if delim_at(s@, k as int) {
                    assert(s@.subrange(k as int, k as int + 81)[i as int] == s@[k + i]);
                    assert(delim()[i as int] == '-');
                }
            }
            return false;
        }
        i = i + 1;
    }
    if s.get_char(k + 80) != '\n' {
        proof {
            if delim_at(s@, k as int) {
                assert(s@.subrange(k as int, k as int + 81)[80] == s@[k + 80]);
                assert(delim()[80] == '\n');
            }
        }
        return false;
    }
    proof {
        assert forall|j: int| 0 <= j < 81 implies s@.subrange(k as int, k as int + 81)[j]
            == delim()[j] by {
            assert(s@.subrange(k as int, k as int + 81)[j] == s@[k + j]);
            if 1 <= j < 80 {
                assert(s@[k + j] == '-');
            }
        }
        assert(s@.subrange(k as int, k as int + 81) =~= delim());
    }
    true
}

/// The next slide index: one further, wrapping from the last to the first.
pub open spec fn advance_idx(i: int, len: int) -> int
    recommends
        len > 0,
{
    (i + 1) % len
}

/// The previous slide index: one back, wrapping from the first to the last.
pub open spec fn retreat_idx(i: int, len: int) -> int
    recommends
        len > 0,
{
    (i + len - 1) % len
}

/// The slide index after `n` consecutive advances from `i`.
pub open spec fn advance_iter(i: int, len: int, n: nat) -> int
    decreases n,
{
    if n == 0 {
        i
    } else {
        advance_idx(advance_iter(i, len, (n - 1) as nat), len)
    }
}

/// `n` advances from `i` land on `(i + n) % len`.
proof fn lemma_advance_iter_mod(i: int, len: int, n: nat)
    requires
        0 < len,
        0 <= i < len,
    ensures
        advance_iter(i, len, n) == (i + n) % len,
    decreases n,
{
    if n == 0 {
        lemma_small_mod(i as nat, len as nat);
    } else {
        lemma_advance_iter_mod(i, len, (n - 1) as nat);
        lemma_add_mod_noop_right(1, i + n - 1, len);
    }
}

/// Law: navigation is cyclic — from any valid slide index, as many advances
/// as the deck has slides lead back to the same index; in particular a
/// one-slide deck is a fixed point.
pub proof fn lemma_navigation_cyclic(i: int, len: int)
    requires
        0 < len,
        0 <= i < len,
    ensures
        advance_iter(i, len, len as nat) == i,
{
    lemma_advance_iter_mod(i, len, len as nat);
    lemma_mod_add_multiples_vanish(i, len);
    lemma_small_mod(i as nat, len as nat);
}

/// The presentation controller: the deck, the current slide index, and the
/// demo widget state the marker-selected widgets read and mutate.
pub struct Presentation {
    slides: Vec<Slide>,
    slide_nr: usize,
    counter: i32,
    some_bool: bool,
    painting: PaintingModel,
}

impl Presentation {
    /// The deck: one slide per document chunk, in order.
    pub closed spec fn spec_slides(&self) -> Seq<Slide> {
        self.slides@
    }

    /// The current slide index.
    pub closed spec fn spec_slide_nr(&self) -> int {
        self.slide_nr as int
    }

    /// The counter demo's value.
    pub closed spec fn spec_counter(&self) -> int {
        self.counter as int
    }

    /// The toggle demo's state.
    pub closed spec fn spec_some_bool(&self) -> bool {
        self.some_bool
    }

    /// The painting demo's state.
    pub closed spec fn spec_painting(&self) -> PaintingModel {
        self.painting
    }

    /// Well-formed: the deck is never empty, the index is in range, and the
    /// painting always has its open stroke.
    pub open spec fn wf(&self) -> bool {
        &&& self.spec_slides().len() >= 1
        &&& 0 <= self.spec_slide_nr() < self.spec_slides().len()
        &&& self.spec_painting().wf()
    }

    /// Whether this deck is the one document `text` builds: one slide per
    /// chunk of the delimiter split, each lexed as `slide_matches` says.
    pub open spec fn deck_matches(&self, text: Seq<char>) -> bool {
        &&& self.spec_slides().len() == spec_split(text).len()
        &&& forall|i: int|
            0 <= i < spec_split(text).len()
                ==> slide_matches(#[trigger] self.spec_slides()[i], spec_split(text)[i])
    }

    /// Split the document on the delimiter and lex each chunk into a slide.
    fn build_slides(text: &str) -> (slides: Vec<Slide>)
        ensures
            slides@.len() == spec_split(text@).len(),
            forall|i: int|
                0 <= i < slides@.len()
                    ==> slide_matches(#[trigger] slides@[i], spec_split(text@)[i]),
    {
        let n: usize = text.unicode_len();
        let mut slides: Vec<Slide> = Vec::new();
        let ghost mut emitted: Seq<Seq<char>> = Seq::empty();
        let mut chunk_start: usize = 0;
        let mut i: usize = 0;
        proof {
            assert(text@.skip(0) =~= text@);
        }
        while i < n
            invariant
                0 <= chunk_start <= i <= n,
                n == text@.len(),
                slides@.len() == emitted.len(),
                forall|j: int|
                    0 <= j < emitted.len()
                        ==> slide_matches(#[trigger] slides@[j], emitted[j]),
                spec_split(text@) == emitted + spec_split(text@.skip(chunk_start as int)),
                forall|j: int| chunk_start <= j < i ==> !delim_at(text@, j),
            decreases n - i,
        {
            if is_delim_at(text, i, n) {
                proof {
                    let suffix = text@.skip(chunk_start as int);
                    let k = i - chunk_start;
                    lemma_delim_at_skip(text@, chunk_start as int, k as int);
                    assert forall|j: int| 0 <= j < k implies !delim_at(suffix, j) by {
                        lemma_delim_at_skip(text@, chunk_start as int, j);
                    }
                    lemma_split_first(suffix, k as int);
                    assert(suffix.take(k as int) =~= text@.subrange(
                        chunk_start as int,
                        i as int,
                    ));
                    assert(suffix.skip(k + 81) =~= text@.skip(i + 81));
                }
                let chunk = text.substring_char(chunk_start, i);
                let sl = Slide::new(chunk);
                slides.push(sl);
                proof {
                    emitted = emitted.push(text@.subrange(chunk_start as int, i as int));
                }
                chunk_start = i + 81;
                i = i + 81;
            } else {
                i = i + 1;
            }
        }
        proof {
            let suffix = text@.skip(chunk_start as int);
            assert forall|j: int| !delim_at(suffix, j) by {
                if 0 <= j && j + 81 <= suffix.len() {
                    lemma_delim_at_skip(text@, chunk_start as int, j);
                }
            }
            lemma_split_no_delim(suffix);
            assert(suffix =~= text@.subrange(chunk_start as int, n as int));
        }
        let chunk = text.substring_char(chunk_start, n);
        let sl = Slide::new(chunk);
        slides.push(sl);
        proof {
            emitted = emitted.push(text@.subrange(chunk_start as int, n as int));
            assert(spec_split(text@) =~= emitted);
        }
        slides
    }

    /// Build the deck from the document and restore persisted demo state. A
    /// stored slide index is taken modulo the deck length, so any previously
    /// persisted value lands on a valid slide even if the deck shrank.
    pub fn restore(text: &str, slide_nr: usize, counter: i32, some_bool: bool) -> (r:
        Presentation)
        ensures
            r.wf(),
            r.deck_matches(text@),
            r.spec_slide_nr() == slide_nr as int % spec_split(text@).len() as int,
            r.spec_counter() == counter as int,
            r.spec_some_bool() == some_bool,
            r.spec_painting().strokes_view() == cleared_strokes(),
            r.spec_painting().spec_style() == initial_style(),
    {
        let slides = Self::build_slides(text);
        proof {
            lemma_split_len(text@);
        }
        let nr = slide_nr % slides.len();
        Presentation {
            slides,
            slide_nr: nr,
            counter,
            some_bool,
            painting: PaintingModel::new(),
        }
    }

    /// Build the deck from the document with the demo state at its start:
    /// first slide, counter at zero, toggle off, empty painting.
    pub fn from_document(text: &str) -> (r: Presentation)
        ensures
            r.wf(),
            r.deck_matches(text@),
            r.spec_slide_nr() == 0,
            r.spec_counter() == 0,
            r.spec_some_bool() == false,
            r.spec_painting().strokes_view() == cleared_strokes(),
            r.spec_painting().spec_style() == initial_style(),
    {
        let r = Self::restore(text, 0, 0, false);
        proof {
            lemma_split_len(text@);
            lemma_small_mod(0, spec_split(text@).len());
        }
        r
    }

    /// How many slides the deck holds; never zero.
    pub fn slide_count(&self) -> (r: usize)
        ensures
            r == self.spec_slides().len(),
    {
        self.slides.len()
    }

    /// The current slide index.
    pub fn slide_nr(&self) -> (r: usize)
        ensures
            r as int == self.spec_slide_nr(),
    {
        self.slide_nr
    }

    /// The counter demo's value.
    pub fn counter_value(&self) -> (r: i32)
        ensures
            r as int == self.spec_counter(),
    {
        self.counter
    }

    /// The toggle demo's state.
    pub fn some_bool(&self) -> (r: bool)
        ensures
            r == self.spec_some_bool(),
    {
        self.some_bool
    }

    /// The slide at index `i`; the deck is index-addressed and never mutated.
    pub fn slide_at(&self, i: usize) -> (r: &Slide)
        requires
            i < self.spec_slides().len(),
        ensures
            *r == self.spec_slides()[i as int],
    {
        &self.slides[i]
    }

    /// The slide the cursor stands on.
    pub fn current_slide(&self) -> (r: &Slide)
        requires
            self.wf(),
        ensures
            *r == self.spec_slides()[self.spec_slide_nr()],
    {
        &self.slides[self.slide_nr]
    }

    /// The painting demo's state, for the rendering collaborator to read.
    pub fn painting(&self) -> (r: &PaintingModel)
        ensures
            *r == self.spec_painting(),
    {
        &self.painting
    }

    /// Go to the next slide, wrapping from the last back to the first.
    pub fn advance(&mut self)
        requires
            old(self).wf(),
        ensures
            final(self).wf(),
            final(self).spec_slide_nr() == advance_idx(
                old(self).spec_slide_nr(),
                old(self).spec_slides().len() as int,
            ),
            final(self).spec_slides() == old(self).spec_slides(),
            final(self).spec_counter() == old(self).spec_counter(),
            final(self).spec_some_bool() == old(self).spec_some_bool(),
            final(self).spec_painting() == old(self).spec_painting(),
    {
        let len = self.slides.len();
        self.slide_nr = (self.slide_nr + 1) % len;
        proof {
            lemma_mod_division_less_than_divisor(
                old(self).spec_slide_nr() + 1,
                old(self).spec_slides().len() as int,
            );
        }
    }

    /// Go to the previous slide, wrapping from the first to the last.
    pub fn retreat(&mut self)
        requires
            old(self).wf(),
        ensures
            final(self).wf(),
            final(self).spec_slide_nr() == retreat_idx(
                old(self).spec_slide_nr(),
                old(self).spec_slides().len() as int,
            ),
            final(self).spec_slides() == old(self).spec_slides(),
            final(self).spec_counter() == old(self).spec_counter(),
            final(self).spec_some_bool() == old(self).spec_some_bool(),
            final(self).spec_painting() == old(self).spec_painting(),
    {
        let len = self.slides.len();
        if self.slide_nr == 0 {
            self.slide_nr = len - 1;
        } else {
            self.slide_nr = self.slide_nr - 1;
        }
        proof {
            let i = old(self).spec_slide_nr();
            let l = old(self).spec_slides().len() as int;
            if i == 0 {
                lemma_small_mod((l - 1) as nat, l as nat);
            } else {
                lemma_mod_add_multiples_vanish(i - 1, l);
                lemma_small_mod((i - 1) as nat, l as nat);
            }
        }
    }

    /// The counter demo's increment button.
    pub fn increment_counter(&mut self)
        requires
            old(self).spec_counter() < i32::MAX as int,
        ensures
            final(self).spec_counter() == old(self).spec_counter() + 1,
            final(self).spec_slides() == old(self).spec_slides(),
            final(self).spec_slide_nr() == old(self).spec_slide_nr(),
            final(self).spec_some_bool() == old(self).spec_some_bool(),
            final(self).spec_painting() == old(self).spec_painting(),
    {
        self.counter = self.counter + 1;
    }

    /// The counter demo's decrement button.
    pub fn decrement_counter(&mut self)
        requires
            old(self).spec_counter() > i32::MIN as int,
        ensures
            final(self).spec_counter() == old(self).spec_counter() - 1,
            final(self).spec_slides() == old(self).spec_slides(),
            final(self).spec_slide_nr() == old(self).spec_slide_nr(),
            final(self).spec_some_bool() == old(self).spec_some_bool(),
            final(self).spec_painting() == old(self).spec_painting(),
    {
        self.counter = self.counter - 1;
    }

    /// The toggle demo's switch.
    pub fn toggle(&mut self)
        ensures
            final(self).spec_some_bool() == !old(self).spec_some_bool(),
            final(self).spec_slides() == old(self).spec_slides(),
            final(self).spec_slide_nr() == old(self).spec_slide_nr(),
            final(self).spec_counter() == old(self).spec_counter(),
            final(self).spec_painting() == old(self).spec_painting(),
    {
        self.some_bool = !self.some_bool;
    }

    /// Record one pointer sample on the painting canvas.
    pub fn paint_point(&mut self, p: Point)
        requires
            old(self).wf(),
        ensures
            final(self).wf(),
            final(self).spec_painting().strokes_view() == crate::painting::paint_step(
                old(self).spec_painting().strokes_view(),
                p,
            ),
            final(self).spec_painting().spec_style() == old(self).spec_painting().spec_style(),
            final(self).spec_slides() == old(self).spec_slides(),
            final(self).spec_slide_nr() == old(self).spec_slide_nr(),
            final(self).spec_counter() == old(self).spec_counter(),
            final(self).spec_some_bool() == old(self).spec_some_bool(),
    {
        self.painting.begin_or_continue(p);
    }

    /// The pointer left the painting canvas: seal the open stroke.
    pub fn paint_release(&mut self)
        requires
            old(self).wf(),
        ensures
            final(self).wf(),
            final(self).spec_painting().strokes_view() == crate::painting::release_step(
                old(self).spec_painting().strokes_view(),
            ),
            final(self).spec_painting().spec_style() == old(self).spec_painting().spec_style(),
            final(self).spec_slides() == old(self).spec_slides(),
            final(self).spec_slide_nr() == old(self).spec_slide_nr(),
            final(self).spec_counter() == old(self).spec_counter(),
            final(self).spec_some_bool() == old(self).spec_some_bool(),
    {
        self.painting.release();
    }

    /// The painting demo's clear button.
    pub fn paint_clear(&mut self)
        ensures
            final(self).spec_painting().strokes_view() == cleared_strokes(),
            final(self).spec_painting().spec_style() == old(self).spec_painting().spec_style(),
            final(self).spec_slides() == old(self).spec_slides(),
            final(self).spec_slide_nr() == old(self).spec_slide_nr(),
            final(self).spec_counter() == old(self).spec_counter(),
            final(self).spec_some_bool() == old(self).spec_some_bool(),
    {
        self.painting.clear();
    }

    /// Change the painting demo's pen style.
    pub fn set_paint_style(&mut self, style: StrokeStyle)
        ensures
            final(self).spec_painting().strokes_view() == old(
                self,
            ).spec_painting().strokes_view(),
            final(self).spec_painting().spec_style() == style,
            final(self).spec_slides() == old(self).spec_slides(),
            final(self).spec_slide_nr() == old(self).spec_slide_nr(),
            final(self).spec_counter() == old(self).spec_counter(),
            final(self).spec_some_bool() == old(self).spec_some_bool(),
    {
        self.painting.set_style(style);
    }
}

} // verus!
