//! The sliding-window search itself.  The detector owns the split lines and
//! the current window, hands the caller one window at a time, and consumes
//! the verdict of each window's race.  Which windows are searched, in what
//! order, and what a success returns are all pinned down here; only running
//! the external checker is left to the caller.

use vstd::prelude::*;

use crate::race::RaceVerdict;
use crate::text::all_newline_free;
use crate::text::contains_trigger;
use crate::text::has_trigger;
use crate::text::is_line_split;
use crate::text::join_lines;
use crate::text::join_window;
use crate::text::newline_free;
use crate::text::split_lines;

verus! {

/// The smallest fragment worth reporting, in lines.
pub const MIN_FRAGMENT_LINES: usize = 5;

/// The wall-clock budget of one window's race.  A fresh deadline of this
/// many seconds is set per window; it is not shared across windows.
pub const WINDOW_DEADLINE_SECS: u64 = 5;

/// The language tag carried by every successful detection.
pub open spec fn php_tag() -> Seq<char> {
    seq!['p', 'h', 'p']
}

/// A window `[start, end)` that the search may try: at least the minimum
/// fragment size, and ending before the final line.  The last split element
/// stays outside every window, so a message that ends in a newline is
/// searched over its visible lines only, never over the empty element after
/// the final separator.
pub open spec fn valid_window(line_count: int, start: int, end: int) -> bool {
    0 <= start && start + MIN_FRAGMENT_LINES <= end < line_count
}

/// The search order: `(s1, e1)` is tried strictly before `(s2, e2)` when it
/// starts earlier, or starts at the same line and is longer.
pub open spec fn window_before(s1: int, e1: int, s2: int, e2: int) -> bool {
    s1 < s2 || (s1 == s2 && e1 > e2)
}

/// Every window searched strictly before `(s0, e0)` was reported exhausted.
pub open spec fn all_prior_refused(
    line_count: int,
    s0: int,
    e0: int,
    refused: Set<(int, int)>,
) -> bool {
    forall|s: int, e: int|
        valid_window(line_count, s, e) && window_before(s, e, s0, e0)
            ==> #[trigger] refused.contains((s, e))
}

/// A successful detection: the checker's language tag and the fragment as it
/// stood in the message, undecorated.
#[derive(Debug)]
pub struct Detection {
    pub lang: String,
    pub fragment: String,
}

/// Whether `r` reports exactly the fragment of window `[s, e)` of `lines`.
pub open spec fn is_php_fragment(
    r: Option<Detection>,
    lines: Seq<Seq<char>>,
    s: int,
    e: int,
) -> bool {
    match r {
        Some(d) => d.lang@ == php_tag() && d.fragment@ == join_lines(lines.subrange(s, e)),
        None => false,
    }
}

/// The state of one detection call.  Created from the message text, then
/// stepped by the caller: while `running`, the caller races the window
/// `[start, end)` and feeds the verdict back through `step`.
pub struct SnippetDetector {
    /// The message's lines, fixed for the duration of the call.
    pub lines: Vec<String>,
    /// Whether a window is still to be raced.
    pub running: bool,
    /// Start of the current window, meaningful while running.
    pub start: usize,
    /// End (exclusive) of the current window, meaningful while running.
    pub end: usize,
    /// The result, meaningful once no longer running.
    pub result: Option<Detection>,
    /// Which windows were reported exhausted so far.
    pub refused: Ghost<Set<(int, int)>>,
    /// The window the result's fragment came from, if any.
    pub hit: Ghost<Option<(int, int)>>,
}

impl SnippetDetector {
    /// The mathematical view of the line sequence.
    pub open spec fn lv(&self) -> Seq<Seq<char>> {
        self.lines.deep_view()
    }

    /// The state invariant: the current window (or the successful one) is a
    /// valid window preceded only by exhausted windows, and a reported
    /// fragment is exactly its window's lines joined by newlines.
    pub open spec fn wf(&self) -> bool {
        &&& all_newline_free(self.lv())
        &&& self.lv().len() >= 1
        &&& if self.running {
            &&& self.lv().len() > MIN_FRAGMENT_LINES
            &&& valid_window(self.lv().len() as int, self.start as int, self.end as int)
            &&& all_prior_refused(
                self.lv().len() as int,
                self.start as int,
                self.end as int,
                self.refused@,
            )
            &&& self.result is None
            &&& self.hit@ is None
        } else {
            match self.hit@ {
                Some(w) => {
                    &&& valid_window(self.lv().len() as int, w.0, w.1)
                    &&& is_php_fragment(self.result, self.lv(), w.0, w.1)
                    &&& all_prior_refused(self.lv().len() as int, w.0, w.1, self.refused@)
                },
                None => self.result is None,
            }
        }
    }

    /// Splits the message and positions the search.  Text without any
    /// trigger character, or with fewer than `MIN_FRAGMENT_LINES + 1` lines,
    /// finishes at once as "no match", with no window ever issued; any other
    /// text starts at the earliest, longest window.
    pub fn new(text: &str) -> (d: SnippetDetector)
        ensures
            d.wf(),
            is_line_split(text@, d.lv()),
            d.running <==> (has_trigger(text@) && d.lv().len() > MIN_FRAGMENT_LINES),
            !d.running ==> d.result is None && d.hit@ is None && d.refused@ == Set::<(int,
                int)>::empty(),
            d.running ==> d.start == 0 && d.end == d.lines.len() - 1 && d.refused@ == Set::<(int,
                int)>::empty(),
    {
        let trig = contains_trigger(text);
        let lines = split_lines(text);
        let n = lines.len();
        if !trig || n < MIN_FRAGMENT_LINES + 1 {
            SnippetDetector {
                lines,
                running: false,
                start: 0,
                end: 0,
                result: None,
                refused: Ghost(Set::empty()),
                hit: Ghost(None),
            }
        } else {
            let d = SnippetDetector {
                lines,
                running: true,
                start: 0,
                end: n - 1,
                result: None,
                refused: Ghost(Set::empty()),
                hit: Ghost(None),
            };
            proof {
                assert forall|s: int, e: int|
                    valid_window(d.lv().len() as int, s, e) && window_before(s, e, 0, n - 1)
                        implies #[trigger] d.refused@.contains((s, e)) by {
                    assert(false);
                }
            }
            d
        }
    }

    /// Consumes the verdict of the current window's race.
    ///
    /// `Found` finishes the search with that window's undecorated fragment.
    /// `Exhausted` moves to the next window — same start one line shorter,
    /// or the next start at the longest width again — and finishes with "no
    /// match" once no window is left.  `DeadlineExpired` is the single named policy
    /// decision: it aborts the entire remaining search, not only the current
    /// window, and surfaces as "no match".
    pub fn step(&mut self, verdict: RaceVerdict) -> (done: bool)
        requires
            old(self).wf(),
            old(self).running,
        ensures
            final(self).wf(),
            final(self).lines == old(self).lines,
            done == !final(self).running,
            match verdict {
                RaceVerdict::Found => {
                    &&& !final(self).running
                    &&& is_php_fragment(
                        final(self).result,
                        old(self).lv(),
                        old(self).start as int,
                        old(self).end as int,
                    )
                    &&& final(self).hit@ == Some((old(self).start as int, old(self).end as int))
                    &&& final(self).refused@ == old(self).refused@
                },
                RaceVerdict::DeadlineExpired => {
                    &&& !final(self).running
                    &&& final(self).result is None
                    &&& final(self).refused@ == old(self).refused@
                },
                RaceVerdict::Exhausted => {
                    &&& final(self).refused@ == old(self).refused@.insert(
                        (old(self).start as int, old(self).end as int),
                    )
                    &&& final(self).result is None
                    &&& if old(self).end > old(self).start + MIN_FRAGMENT_LINES {
                        &&& final(self).running
                        &&& final(self).start == old(self).start
                        &&& final(self).end == old(self).end - 1
                    } else if old(self).start + 1 <= old(self).lines.len() - 1
                        - MIN_FRAGMENT_LINES {
                        &&& final(self).running
                        &&& final(self).start == old(self).start + 1
                        &&& final(self).end == old(self).lines.len() - 1
                    } else {
                        &&& !final(self).running
                        &&& all_prior_refused(
                            final(self).lv().len() as int,
                            final(self).lv().len() as int,
                            0,
                            final(self).refused@,
                        )
                    }
                },
            },
    {
        match verdict {
            RaceVerdict::Found => {
                let fragment = join_window(&self.lines, self.start, self.end);
                let lang = String::from_str("php");
                proof {
                    reveal_strlit("php");
                    assert(("php")@ =~= php_tag());
                }
                self.result = Some(Detection { lang, fragment });
                self.hit = Ghost(Some((self.start as int, self.end as int)));
                self.running = false;
                true
            },
            RaceVerdict::DeadlineExpired => {
                self.running = false;
                true
            },
            RaceVerdict::Exhausted => {
                let ghost n = self.lv().len() as int;
                let ghost s0 = self.start as int;
                let ghost e0 = self.end as int;
                let ghost prior = self.refused@;
                self.refused = Ghost(self.refused@.insert((s0, e0)));
                if self.end > self.start + MIN_FRAGMENT_LINES {
                    self.end = self.end - 1;
                    proof {
                        assert forall|s: int, e: int|
                            valid_window(n, s, e) && window_before(s, e, s0, e0 - 1)
                                implies #[trigger] self.refused@.contains((s, e)) by {
                            if s == s0 && e == e0 {
                            } else {
                                assert(window_before(s, e, s0, e0));
                                assert(prior.contains((s, e)));
                            }
                        }
                    }
                    false
                } else if self.start + 1 <= self.lines.len() - 1 - MIN_FRAGMENT_LINES {
                    self.start = self.start + 1;
                    self.end = self.lines.len() - 1;
                    proof {
                        assert forall|s: int, e: int|
                            valid_window(n, s, e) && window_before(s, e, s0 + 1, n - 1)
                                implies #[trigger] self.refused@.contains((s, e)) by {
                            if s == s0 && e == e0 {
                            } else {
                                assert(window_before(s, e, s0, e0));
                                assert(prior.contains((s, e)));
                            }
                        }
                    }
                    false
                } else {
                    self.running = false;
                    proof {
                        assert forall|s: int, e: int|
                            valid_window(n, s, e) && window_before(s, e, n, 0)
                                implies #[trigger] self.refused@.contains((s, e)) by {
                            if s == s0 && e == e0 {
                            } else {
                                assert(window_before(s, e, s0, e0));
                                assert(prior.contains((s, e)));
                            }
                        }
                    }
                    true
                }
            },
        }
    }
}

/// Priority: a fragment is only ever returned from the first window in
/// search order that validated.  Every valid window that starts earlier, or
/// starts at the same line and is longer, was exhausted first.
pub proof fn lemma_priority(d: &SnippetDetector, hs: int, he: int, s: int, e: int)
    requires
        d.wf(),
        !d.running,
        d.hit@ == Some((hs, he)),
        valid_window(d.lv().len() as int, s, e),
        window_before(s, e, hs, he),
    ensures
        d.refused@.contains((s, e)),
{
}

/// Minimality: a returned fragment spans at least `MIN_FRAGMENT_LINES` lines
/// of the message, and is exactly those lines joined by newlines.
pub proof fn lemma_minimality(d: &SnippetDetector, hs: int, he: int)
    requires
        d.wf(),
        !d.running,
        d.hit@ == Some((hs, he)),
    ensures
        he - hs >= MIN_FRAGMENT_LINES,
        valid_window(d.lv().len() as int, hs, he),
        match d.result {
            Some(det) => is_line_split(det.fragment@, d.lv().subrange(hs, he)),
            None => false,
        },
{
    let sub = d.lv().subrange(hs, he);
    assert forall|i: int| 0 <= i < sub.len() implies newline_free(#[trigger] sub[i]) by {
        assert(sub[i] == d.lv()[hs + i]);
    }
    assert(all_newline_free(sub));
}

} // verus!
