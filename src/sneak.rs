use vstd::prelude::*;

use crate::labels::{generate_labels, label_seq};
use crate::matches::{Span, default_focus, filter_by_label, filter_spec, focus_of};
use crate::pattern::{search_key, search_key_spec};

verus! {

/// The modifier bit that hosts report for the Alt key.
pub const ALT: u8 = 4;

/// A key press, as the session sees it.
#[derive(Clone, Copy, PartialEq, Eq, Structural, Debug)]
pub enum Key {
    /// A printable character typed with no modifier.
    Char(char),
    /// A character typed together with the given modifier bits.
    Modified(char, u8),
    /// Any other key, known by an opaque code.
    Other(u32),
}

/// Why a session ended without a jump.
#[derive(Clone, Copy, PartialEq, Eq, Structural, Debug)]
pub enum SneakError {
    /// The last pattern was asked for, and no session has left one.
    NoHistory,
    /// The pattern occurs nowhere in the searched region.
    NoMatch,
    /// The key typed is not among the labels shown.
    InvalidLabel(Key),
}

/// What the host is asked to do after an event.
#[derive(Clone, Copy, PartialEq, Eq, Structural, Debug)]
pub enum Action {
    /// Clear the match highlights, search the visible region for
    /// [`Sneak::search_key`], and hand the result to [`Sneak::found`].
    Search,
    /// Highlight the matches found, the one at this index as current.
    Highlight(usize),
    /// Move the current highlight from the first index to the second.
    Refocus(usize, usize),
    /// Draw [`generate_labels`] over [`Sneak::matches`].
    Label,
    /// Move the cursor to this span; the session is over.
    Commit(Span),
    /// Report the error; the session is over.
    Abort(SneakError),
    /// The event had nothing to act on: nothing changes.
    Ignored,
}

/// Where a session stands.
#[derive(Clone, Debug)]
pub enum Step {
    /// Nothing typed yet.
    Start,
    /// Waiting for the host to search for the pattern; the flag says
    /// whether the pattern is complete.
    Searching(Vec<char>, bool),
    /// The pattern is still short of its full length.
    Filtering(Vec<char>),
    /// Cycling through the matches; the index is the focused one.
    Navigating(Vec<char>, Vec<Span>, usize),
    /// Narrowing the matches by their labels.
    LabelFiltering(Vec<char>, Vec<Span>),
    /// The session has ended, holding the pattern it last had.
    Done(Vec<char>),
}

/// The mathematical model of a [`Step`].
pub enum Phase {
    Start,
    Searching(Seq<char>, bool),
    Filtering(Seq<char>),
    Navigating(Seq<char>, Seq<Span>, nat),
    LabelFiltering(Seq<char>, Seq<Span>),
    Done(Seq<char>),
}

impl View for Step {
    type V = Phase;

    open spec fn view(&self) -> Phase {
        match self {
            Step::Start => Phase::Start,
            Step::Searching(p, c) => Phase::Searching(p@, *c),
            Step::Filtering(p) => Phase::Filtering(p@),
            Step::Navigating(p, ms, f) => Phase::Navigating(p@, ms@, *f as nat),
            Step::LabelFiltering(p, ms) => Phase::LabelFiltering(p@, ms@),
            Step::Done(p) => Phase::Done(p@),
        }
    }
}

/// The focus after `f` among `n` matches, wrapping past the last.
pub open spec fn next_of(f: nat, n: nat) -> nat {
    if f + 1 >= n { 0 } else { f + 1 }
}

/// The focus before `f` among `n` matches, wrapping past the first.
pub open spec fn prev_of(f: nat, n: nat) -> nat {
    if f == 0 { (n - 1) as nat } else { (f - 1) as nat }
}

/// The mathematical model of a [`Sneak`]: its step and its settings.
pub struct SneakView {
    pub step: Phase,
    pub len: nat,
    pub prev_key: Key,
    pub next_key: Key,
    pub min_for_labels: nat,
}

impl SneakView {
    /// The settings are sound and the step keeps its invariant.
    pub open spec fn wf(self) -> bool {
        &&& self.len >= 1
        &&& match self.step {
            Phase::Navigating(_, ms, f) => f < ms.len(),
            Phase::LabelFiltering(_, ms) => ms.len() > 0,
            _ => true,
        }
    }

    /// The same settings at another step.
    pub open spec fn at(self, step: Phase) -> SneakView {
        SneakView { step, ..self }
    }

    /// The step and the action that follow the key `key`, with `last`
    /// the pattern that the previous session left.
    pub open spec fn on_key(self, key: Key, last: Seq<char>) -> (Phase, Action) {
        match self.step {
            Phase::Start => match key {
                Key::Char(c) => (Phase::Searching(seq![c], self.len == 1), Action::Search),
                _ => if last.len() == 0 {
                    (Phase::Done(Seq::empty()), Action::Abort(SneakError::NoHistory))
                } else {
                    (Phase::Searching(last, true), Action::Search)
                },
            },
            Phase::Filtering(p) => match key {
                Key::Char(c) => (Phase::Searching(p.push(c), p.len() + 1 >= self.len), Action::Search),
                _ => (Phase::Searching(p, true), Action::Search),
            },
            Phase::Navigating(p, ms, f) => if key == self.next_key {
                (
                    Phase::Navigating(p, ms, next_of(f, ms.len())),
                    Action::Refocus(f as usize, next_of(f, ms.len()) as usize),
                )
            } else if key == self.prev_key {
                (
                    Phase::Navigating(p, ms, prev_of(f, ms.len())),
                    Action::Refocus(f as usize, prev_of(f, ms.len()) as usize),
                )
            } else {
                (Phase::Done(p), Action::Commit(ms[f as int]))
            },
            Phase::LabelFiltering(p, ms) => match key {
                Key::Char(c) => if label_seq(ms.len()).contains(c) {
                    let k = filter_spec(ms, c);
                    if k.len() == 1 {
                        (Phase::Done(p), Action::Commit(k[0]))
                    } else {
                        (Phase::LabelFiltering(p, k), Action::Label)
                    }
                } else {
                    (Phase::Done(p), Action::Abort(SneakError::InvalidLabel(key)))
                },
                _ => (Phase::Done(p), Action::Abort(SneakError::InvalidLabel(key))),
            },
            _ => (self.step, Action::Ignored),
        }
    }

    /// The step and the action that follow a search that found `ms`, with
    /// the caret at `caret`.
    pub open spec fn on_found(self, ms: Seq<Span>, caret: usize) -> (Phase, Action) {
        match self.step {
            Phase::Searching(p, complete) => if ms.len() == 0 {
                (Phase::Done(p), Action::Abort(SneakError::NoMatch))
            } else if !complete {
                (Phase::Filtering(p), Action::Highlight(focus_of(ms, caret) as usize))
            } else if ms.len() == 1 {
                (Phase::Done(p), Action::Commit(ms[0]))
            } else if ms.len() >= self.min_for_labels {
                (Phase::LabelFiltering(p, ms), Action::Label)
            } else {
                (
                    Phase::Navigating(p, ms, focus_of(ms, caret) as nat),
                    Action::Highlight(focus_of(ms, caret) as usize),
                )
            },
            _ => (self.step, Action::Ignored),
        }
    }

    /// The pattern the session holds; empty before anything is typed.
    pub open spec fn held(self) -> Seq<char> {
        match self.step {
            Phase::Start => Seq::empty(),
            Phase::Searching(p, _) => p,
            Phase::Filtering(p) => p,
            Phase::Navigating(p, _, _) => p,
            Phase::LabelFiltering(p, _) => p,
            Phase::Done(p) => p,
        }
    }

    /// The matches the session is choosing among; none outside of a choice.
    pub open spec fn choices(self) -> Seq<Span> {
        match self.step {
            Phase::Navigating(_, ms, _) => ms,
            Phase::LabelFiltering(_, ms) => ms,
            _ => Seq::empty(),
        }
    }

    /// What the host is to search for: set only while a search is awaited.
    pub open spec fn key_to_search(self) -> Seq<char> {
        match self.step {
            Phase::Searching(p, _) => search_key_spec(p, self.len),
            _ => Seq::empty(),
        }
    }
}

/// The last pattern after a session in `s` ends, `last` being the one
/// before: the session's pattern if it holds one.
pub open spec fn remembered(s: SneakView, last: Seq<char>) -> Seq<char> {
    if s.held().len() > 0 { s.held() } else { last }
}

/// A complete search that finds exactly one match jumps to it at once;
/// a partial one goes on filtering. Neither starts a choice among matches.
pub proof fn lemma_single_match(s: SneakView, p: Seq<char>, complete: bool, ms: Seq<Span>, caret: usize)
    requires
        s.step == Phase::Searching(p, complete),
        ms.len() == 1,
    ensures
        complete ==> s.on_found(ms, caret) == (Phase::Done(p), Action::Commit(ms[0])),
        !complete ==> s.on_found(ms, caret).0 == Phase::Filtering(p),
        !(s.on_found(ms, caret).0 is Navigating),
        !(s.on_found(ms, caret).0 is LabelFiltering),
{
}

/// Cycling wraps around: the match after the last is the first, and the
/// match before the first is the last.
pub proof fn lemma_cyclic_navigation(
    s: SneakView,
    p: Seq<char>,
    ms: Seq<Span>,
    f: nat,
    key: Key,
    last: Seq<char>,
)
    requires
        s.step == Phase::Navigating(p, ms, f),
        f < ms.len(),
    ensures
        key == s.next_key ==> s.on_key(key, last) == (
            Phase::Navigating(p, ms, ((f + 1) as int % (ms.len() as int)) as nat),
            Action::Refocus(f as usize, ((f + 1) as int % (ms.len() as int)) as usize),
        ),
        key != s.next_key && key == s.prev_key ==> s.on_key(key, last) == (
            Phase::Navigating(p, ms, ((f + ms.len() - 1) as int % (ms.len() as int)) as nat),
            Action::Refocus(f as usize, ((f + ms.len() - 1) as int % (ms.len() as int)) as usize),
        ),
        key != s.next_key && key != s.prev_key ==> s.on_key(key, last) == (
            Phase::Done(p),
            Action::Commit(ms[f as int]),
        ),
{
    let n = ms.len() as int;
    if f + 1 < n {
        vstd::arithmetic::div_mod::lemma_small_mod((f + 1) as nat, n as nat);
    } else {
        vstd::arithmetic::div_mod::lemma_mod_self_0(n);
    }
    if f == 0 {
        vstd::arithmetic::div_mod::lemma_small_mod((n - 1) as nat, n as nat);
    } else {
        vstd::arithmetic::div_mod::lemma_mod_adds(f - 1, n, n);
        vstd::arithmetic::div_mod::lemma_small_mod((f - 1) as nat, n as nat);
        vstd::arithmetic::div_mod::lemma_mod_self_0(n);
    }
}

/// Typing a label keeps exactly the matches that bear it, over labels
/// drawn anew for the current number of matches, and at least one of
/// them. A single one left is jumped to; with more, the choice goes on
/// over the narrower set.
pub proof fn lemma_label_filtering(s: SneakView, p: Seq<char>, ms: Seq<Span>, c: char, last: Seq<char>)
    requires
        s.step == Phase::LabelFiltering(p, ms),
        label_seq(ms.len()).contains(c),
    ensures
        1 <= filter_spec(ms, c).len() <= ms.len(),
        ms.len() >= 2 ==> filter_spec(ms, c).len() < ms.len(),
        forall|x: Span| #[trigger] filter_spec(ms, c).contains(x) ==> ms.contains(x),
        filter_spec(ms, c).len() == 1 ==> s.on_key(Key::Char(c), last) == (
            Phase::Done(p),
            Action::Commit(filter_spec(ms, c)[0]),
        ),
        filter_spec(ms, c).len() > 1 ==> s.on_key(Key::Char(c), last) == (
            Phase::LabelFiltering(p, filter_spec(ms, c)),
            Action::Label,
        ),
{
    let labels = label_seq(ms.len());
    let j = choose|j: int| 0 <= j < labels.len() && labels[j] == c;
    crate::labels::lemma_label_len(ms.len());
    crate::matches::lemma_kept_nonempty(ms, labels, c, ms.len() as int, j);
    crate::matches::lemma_kept_len(ms, labels, c, ms.len() as int);
    crate::matches::lemma_kept_within(ms, labels, c, ms.len() as int);
    if ms.len() >= 2 {
        crate::labels::lemma_labels_vary(ms.len());
        let d = if labels[0] != c { 0 } else { labels.len() - 1 };
        crate::matches::lemma_kept_drops(ms, labels, c, ms.len() as int, d);
    }
}

/// The pattern a session ends with is searched for again, complete,
/// when the next session starts with a key other than a character: that
/// session never filters.
pub proof fn lemma_memory_round_trip(s: SneakView, next: SneakView, last: Seq<char>, key: Key)
    requires
        s.held().len() > 0,
        next.step == Phase::Start,
        !(key is Char),
    ensures
        next.on_key(key, remembered(s, last)) == (Phase::Searching(s.held(), true), Action::Search),
        next.at(Phase::Searching(s.held(), true)).key_to_search() == search_key_spec(
            s.held(),
            next.len,
        ),
        forall|ms: Seq<Span>, caret: usize|
            !(#[trigger] next.at(Phase::Searching(s.held(), true)).on_found(ms, caret).0 is Filtering),
{
}

/// A search that finds nothing ends the session with the no-match error,
/// never starting a choice among matches.
pub proof fn lemma_no_match(s: SneakView, p: Seq<char>, complete: bool, caret: usize)
    requires
        s.step == Phase::Searching(p, complete),
    ensures
        s.on_found(Seq::empty(), caret) == (Phase::Done(p), Action::Abort(SneakError::NoMatch)),
{
}

fn copied<T: Copy>(v: &Vec<T>) -> (r: Vec<T>)
    ensures
        r@ == v@,
{
    let mut r: Vec<T> = Vec::new();
    let mut i: usize = 0;
    while i < v.len()
        invariant
            i <= v@.len(),
            r@ == v@.take(i as int),
        decreases v@.len() - i,
    {
        r.push(v[i]);
        i = i + 1;
        assert(r@ =~= v@.take(i as int));
    }
    assert(v@.take(v@.len() as int) =~= v@);
    r
}

fn contains_char(v: &Vec<char>, c: char) -> (r: bool)
    ensures
        r == v@.contains(c),
{
    let mut i: usize = 0;
    while i < v.len()
        invariant
            i <= v@.len(),
            forall|j: int| 0 <= j < i ==> v@[j] != c,
        decreases v@.len() - i,
    {
        if v[i] == c {
            return true;
        }
        i = i + 1;
    }
    false
}

/// A session of jumping to a short sequence of characters, with its
/// settings: how long the sequence is, which keys cycle through the
/// matches, and from how many matches on labels are shown instead.
#[derive(Clone)]
pub struct Sneak {
    step: Step,
    len: usize,
    prev_key: Key,
    next_key: Key,
    min_for_labels: usize,
}

impl View for Sneak {
    type V = SneakView;

    closed spec fn view(&self) -> SneakView {
        SneakView {
            step: self.step@,
            len: self.len as nat,
            prev_key: self.prev_key,
            next_key: self.next_key,
            min_for_labels: self.min_for_labels as nat,
        }
    }
}

impl Sneak {
    /// A new session that jumps to two characters. `n` focuses the next
    /// match; the previous one is `<A-n>` where the host's setting makes
    /// Alt the reversing modifier, and `N` otherwise. Labels are never
    /// shown.
    pub fn new(alt_is_reverse: bool) -> (r: Self)
        ensures
            r@ == (SneakView {
                step: Phase::Start,
                len: 2,
                prev_key: if alt_is_reverse {
                    Key::Modified('n', ALT)
                } else {
                    Key::Char('N')
                },
                next_key: Key::Char('n'),
                min_for_labels: usize::MAX as nat,
            }),
            r@.wf(),
    {
        Sneak {
            step: Step::Start,
            len: 2,
            next_key: Key::Char('n'),
            prev_key: if alt_is_reverse {
                Key::Modified('n', ALT)
            } else {
                Key::Char('N')
            },
            min_for_labels: usize::MAX,
        }
    }

    /// The characters that select the previous and the next match.
    pub fn select_keys(self, prev: char, next: char) -> (r: Self)
        ensures
            r@ == (SneakView { prev_key: Key::Char(prev), next_key: Key::Char(next), ..self@ }),
    {
        Sneak { prev_key: Key::Char(prev), next_key: Key::Char(next), ..self }
    }

    /// Jumps to sequences of `len` characters instead of two.
    pub fn with_len(self, len: usize) -> (r: Self)
        requires
            len >= 1,
        ensures
            r@ == (SneakView { len: len as nat, ..self@ }),
    {
        Sneak { len, ..self }
    }

    /// Shows labels instead of cycling once there are at least
    /// `min_for_labels` matches.
    pub fn min_for_labels(self, min_for_labels: usize) -> (r: Self)
        ensures
            r@ == (SneakView { min_for_labels: min_for_labels as nat, ..self@ }),
    {
        Sneak { min_for_labels, ..self }
    }

    /// Where the session stands.
    pub fn step(&self) -> (r: &Step)
        ensures
            r@ == self@.step,
    {
        &self.step
    }

    /// The pattern the session holds.
    pub fn pattern(&self) -> (r: Vec<char>)
        ensures
            r@ == self@.held(),
    {
        match &self.step {
            Step::Start => Vec::new(),
            Step::Searching(p, _) => copied(p),
            Step::Filtering(p) => copied(p),
            Step::Navigating(p, _, _) => copied(p),
            Step::LabelFiltering(p, _) => copied(p),
            Step::Done(p) => copied(p),
        }
    }

    /// The matches being chosen among, in document order.
    pub fn matches(&self) -> (r: Vec<Span>)
        ensures
            r@ == self@.choices(),
    {
        match &self.step {
            Step::Navigating(_, ms, _) => copied(ms),
            Step::LabelFiltering(_, ms) => copied(ms),
            _ => Vec::new(),
        }
    }

    /// The key the host is to search the visible region for.
    pub fn search_key(&self) -> (r: Vec<char>)
        ensures
            r@ == self@.key_to_search(),
    {
        match &self.step {
            Step::Searching(p, _) => search_key(p, self.len),
            _ => Vec::new(),
        }
    }

    /// Ends the session: the pattern it holds, if any, becomes the last
    /// pattern.
    pub fn before_exit(&self, last: &mut Vec<char>)
        ensures
            final(last)@ == remembered(self@, old(last)@),
    {
        let p = self.pattern();
        if p.len() > 0 {
            *last = p;
        }
    }

    /// Handles one key press and says what the host is to do.
    ///
    /// `last` is the pattern that the previous session left: a key other
    /// than a character at the very start searches for it again.
    pub fn send_key(&mut self, key: Key, last: &Vec<char>) -> (r: Action)
        requires
            old(self)@.wf(),
        ensures
            final(self)@ == old(self)@.at(old(self)@.on_key(key, last@).0),
            r == old(self)@.on_key(key, last@).1,
            final(self)@.wf(),
    {
        let mut step = Step::Start;
        std::mem::swap(&mut self.step, &mut step);
        let (next, action) = match step {
            Step::Start => match key {
                Key::Char(c) => {
                    let mut p: Vec<char> = Vec::new();
                    p.push(c);
                    proof {
                        assert(p@ =~= seq![c]);
                    }
                    (Step::Searching(p, self.len == 1), Action::Search)
                },
                _ => {
                    if last.len() == 0 {
                        (Step::Done(Vec::new()), Action::Abort(SneakError::NoHistory))
                    } else {
                        (Step::Searching(copied(last), true), Action::Search)
                    }
                },
            },
            Step::Filtering(mut p) => match key {
                Key::Char(c) => {
                    let complete = p.len() >= self.len - 1;
                    p.push(c);
                    (Step::Searching(p, complete), Action::Search)
                },
                _ => (Step::Searching(p, true), Action::Search),
            },
            Step::Navigating(p, ms, f) => {
                let last_index = ms.len() - 1;
                if key == self.next_key {
                    let g = if f == last_index { 0 } else { f + 1 };
                    (Step::Navigating(p, ms, g), Action::Refocus(f, g))
                } else if key == self.prev_key {
                    let g = if f == 0 { last_index } else { f - 1 };
                    (Step::Navigating(p, ms, g), Action::Refocus(f, g))
                } else {
                    let span = ms[f];
                    (Step::Done(p), Action::Commit(span))
                }
            },
            Step::LabelFiltering(p, ms) => match key {
                Key::Char(c) => {
                    let labels = generate_labels(ms.len());
                    if contains_char(&labels, c) {
                        let kept = filter_by_label(&ms, c);
                        proof {
                            let j = choose|j: int| 0 <= j < labels@.len() && labels@[j] == c;
                            crate::labels::lemma_label_len(ms@.len());
                            crate::matches::lemma_kept_nonempty(
                                ms@,
                                labels@,
                                c,
                                ms@.len() as int,
                                j,
                            );
                        }
                        if kept.len() == 1 {
                            let span = kept[0];
                            (Step::Done(p), Action::Commit(span))
                        } else {
                            (Step::LabelFiltering(p, kept), Action::Label)
                        }
                    } else {
                        (Step::Done(p), Action::Abort(SneakError::InvalidLabel(key)))
                    }
                },
                _ => (Step::Done(p), Action::Abort(SneakError::InvalidLabel(key))),
            },
            other => (other, Action::Ignored),
        };
        self.step = next;
        action
    }

    /// Takes the matches the host found for [`Sneak::search_key`], in
    /// document order, and the caret's position, and says what the host
    /// is to do.
    ///
    /// No match ends the session; a partial pattern stays in filtering;
    /// a complete one jumps at once to a sole match, shows labels from
    /// the label threshold on, and otherwise cycles, starting at the
    /// first match after the caret.
    pub fn found(&mut self, matches: Vec<Span>, caret: usize) -> (r: Action)
        requires
            old(self)@.wf(),
        ensures
            final(self)@ == old(self)@.at(old(self)@.on_found(matches@, caret).0),
            r == old(self)@.on_found(matches@, caret).1,
            final(self)@.wf(),
    {
        let mut step = Step::Start;
        std::mem::swap(&mut self.step, &mut step);
        let (next, action) = match step {
            Step::Searching(p, complete) => {
                match default_focus(&matches, caret) {
                    None => (Step::Done(p), Action::Abort(SneakError::NoMatch)),
                    Some(f) => {
                        proof {
                            crate::matches::lemma_focus_of(matches@, caret);
                        }
                        if !complete {
                            (Step::Filtering(p), Action::Highlight(f))
                        } else if matches.len() == 1 {
                            let span = matches[0];
                            (Step::Done(p), Action::Commit(span))
                        } else if matches.len() >= self.min_for_labels {
                            (Step::LabelFiltering(p, matches), Action::Label)
                        } else {
                            (Step::Navigating(p, matches, f), Action::Highlight(f))
                        }
                    },
                }
            },
            other => (other, Action::Ignored),
        };
        self.step = next;
        action
    }
}

} // verus!
