//! Batch translation with bisection recovery, as a state machine.
//!
//! The lines are cut into windows of at most `batch` lines.  Each window is
//! resolved through a work stack of half-open ranges: a range is first sent
//! as one bulk request; a reply of the wrong shape splits it at its midpoint,
//! and a range of one line that still fails falls back to a single-line
//! request.  The caller performs the requests that `next_action` names and
//! reports each reply through `on_bulk` or `on_single`.

use vstd::prelude::*;

verus! {

/// The next request the caller has to make.
#[derive(Debug, Clone, Copy, PartialEq, Eq, Structural)]
pub enum Action {
    /// Translate lines `start..end` in one bulk request.
    Bulk { start: usize, end: usize },
    /// Translate line `index` alone.
    Single { index: usize },
    /// Every line has its translation.
    Finished,
}

/// Failure to hand out a complete set of translations.
#[derive(Debug, Clone, Copy, PartialEq, Eq, Structural)]
pub enum TranslateError {
    /// Line `index` has no translation.
    Incomplete { index: usize },
}

/// Translation slots of one run, with the pending work.
pub struct Translation {
    slots: Vec<Option<String>>,
    stack: Vec<(usize, usize)>,
    window_end: usize,
    batch: usize,
    fallback: bool,
    bulk_calls: Ghost<nat>,
    single_calls: Ghost<nat>,
    bulk_filled: Ghost<nat>,
}

/// Most bulk requests that a run over `n` lines can make: one per node of a
/// full bisection tree.
pub open spec fn bulk_call_bound(n: nat) -> int {
    if n == 0 {
        0
    } else {
        2 * n - 1
    }
}

/// The action that opens the window of lines starting at `start`, out of
/// `n` lines in windows of `batch`; `Finished` past the last line.
pub open spec fn window_from(start: int, n: int, batch: int) -> Action {
    if start < n {
        Action::Bulk {
            start: start as usize,
            end: (if n - start < batch {
                n
            } else {
                start + batch
            }) as usize,
        }
    } else {
        Action::Finished
    }
}

/// Whether a bulk reply for a range of `len` lines can be used as it is.
pub open spec fn reply_fits(reply: Option<Vec<String>>, len: int) -> bool {
    reply matches Some(v) && v@.len() == len
}

impl Translation {
    /// Number of lines.
    pub closed spec fn len_spec(self) -> nat {
        self.slots@.len()
    }

    /// The translation slot of each line.
    pub closed spec fn slots_spec(self) -> Seq<Option<String>> {
        self.slots@
    }

    /// Pending ranges, bottom of the stack first.
    pub closed spec fn pending(self) -> Seq<(usize, usize)> {
        self.stack@
    }

    /// Largest number of lines in one bulk request.
    pub closed spec fn batch_spec(self) -> nat {
        self.batch as nat
    }

    /// Whether the top range has failed as a bulk request and waits for a
    /// single-line request.
    pub closed spec fn awaiting_single(self) -> bool {
        self.fallback
    }

    /// Bulk requests reported so far.
    pub closed spec fn bulk_calls(self) -> nat {
        self.bulk_calls@
    }

    /// Single-line requests reported so far.
    pub closed spec fn single_calls(self) -> nat {
        self.single_calls@
    }

    /// Lines filled from bulk replies so far.
    pub closed spec fn bulk_filled(self) -> nat {
        self.bulk_filled@
    }

    /// First line without a translation; every line before it has one.
    pub closed spec fn first_open(self) -> int {
        if self.stack@.len() == 0 {
            self.window_end as int
        } else {
            self.stack@.last().0 as int
        }
    }

    /// Upper bound on the bulk requests still to come.
    pub closed spec fn bulk_budget(self) -> int {
        2 * (self.slots@.len() - self.first_open()) - self.stack@.len() - (if self.window_end
            < self.slots@.len() {
            1int
        } else {
            0int
        }) - (if self.fallback {
            1int
        } else {
            0int
        })
    }

    /// Measure of the work left: every reported reply lowers it.
    pub closed spec fn work_left(self) -> int {
        self.bulk_budget() + (self.slots@.len() - self.first_open())
    }

    /// Invariant: the pending ranges are non-empty, contiguous and ordered
    /// with the leftmost on top, lie within the current window of at most
    /// `batch` lines, and cover exactly the lines that have no translation
    /// yet, all of which come after the translated ones; the counters stay
    /// within the call budget.
    pub closed spec fn wf(self) -> bool {
        let n = self.slots@.len();
        let st = self.stack@;
        let lo = self.first_open();
        &&& self.batch >= 1
        &&& self.window_end <= n
        &&& st.len() == 0 ==> self.window_end == n
        &&& st.len() > 0 ==> st[0].1 == self.window_end
        &&& st.len() > 0 ==> self.window_end - lo <= self.batch
        &&& forall|i: int| 0 <= i < st.len() ==> #[trigger] st[i].0 < st[i].1
        &&& forall|i: int| 0 < i < st.len() ==> #[trigger] st[i].1 == st[i - 1].0
        &&& forall|i: int, j: int| 0 <= i < j < st.len() ==> #[trigger] st[j].1 <= #[trigger] st[i].0
        &&& forall|i: int| 0 <= i < st.len() ==> i <= self.window_end - #[trigger] st[i].1
        &&& forall|k: int| 0 <= k < n ==> (#[trigger] self.slots@[k] is Some <==> k < lo)
        &&& self.fallback ==> st.len() > 0 && st.last().1 == st.last().0 + 1
        &&& self.bulk_calls@ + self.bulk_budget() <= bulk_call_bound(n)
        &&& self.single_calls@ + self.bulk_filled@ == lo
    }

    /// The action that `next_action` returns: the top range as a bulk
    /// request, or its one line as a single-line request once its bulk
    /// request failed.
    pub open spec fn action_spec(self) -> Action {
        if self.pending().len() == 0 {
            Action::Finished
        } else if self.awaiting_single() {
            Action::Single { index: self.pending().last().0 }
        } else {
            Action::Bulk { start: self.pending().last().0, end: self.pending().last().1 }
        }
    }

    /// Starts a run over `n` lines, in windows of `batch_size` lines (a size
    /// of zero counts as one).
    pub fn new(n: usize, batch_size: usize) -> (t: Translation)
        ensures
            t.wf(),
            t.len_spec() == n,
            t.batch_spec() == if batch_size == 0 {
                1
            } else {
                batch_size
            },
            forall|k: int| 0 <= k < n ==> t.slots_spec()[k] is None,
            t.bulk_calls() == 0,
            t.single_calls() == 0,
            t.bulk_filled() == 0,
            n > 0 ==> t.action_spec() == (Action::Bulk {
                start: 0,
                end: if n < t.batch_spec() {
                    n
                } else {
                    t.batch_spec() as usize
                },
            }),
            n == 0 ==> t.action_spec() == Action::Finished,
    {
        let mut slots: Vec<Option<String>> = Vec::new();
        let mut i: usize = 0;
        while i < n
            invariant
                i <= n,
                slots@.len() == i,
                forall|k: int| 0 <= k < i ==> slots@[k] is None,
            decreases n - i,
        {
            slots.push(None);
            i = i + 1;
        }
        let batch: usize = if batch_size == 0 {
            1
        } else {
            batch_size
        };
        let mut t = Translation {
            slots,
            stack: Vec::new(),
            window_end: 0,
            batch,
            fallback: false,
            bulk_calls: Ghost(0),
            single_calls: Ghost(0),
            bulk_filled: Ghost(0),
        };
        t.open_window();
        t
    }

    /// When the stack has run dry, pushes the next window of lines, if any.
    fn open_window(&mut self)
        requires
            old(self).batch >= 1,
            old(self).window_end <= old(self).slots@.len(),
            old(self).stack@.len() == 0,
            !old(self).fallback,
            forall|k: int|
                0 <= k < old(self).slots@.len() ==> (#[trigger] old(self).slots@[k] is Some <==> k
                    < old(self).window_end),
            old(self).bulk_calls@ + old(self).bulk_budget() <= bulk_call_bound(
                old(self).slots@.len(),
            ),
            old(self).single_calls@ + old(self).bulk_filled@ == old(self).window_end,
        ensures
            final(self).wf(),
            final(self).slots@ == old(self).slots@,
            final(self).batch == old(self).batch,
            final(self).fallback == old(self).fallback,
            final(self).first_open() == old(self).window_end,
            final(self).bulk_budget() <= old(self).bulk_budget(),
            final(self).bulk_calls@ == old(self).bulk_calls@,
            final(self).single_calls@ == old(self).single_calls@,
            final(self).bulk_filled@ == old(self).bulk_filled@,
            old(self).window_end < old(self).slots@.len() ==> final(self).stack@ == seq![
                (
                    old(self).window_end,
                    (if old(self).slots@.len() - old(self).window_end < old(self).batch {
                        old(self).slots@.len() as int
                    } else {
                        old(self).window_end + old(self).batch
                    }) as usize,
                ),
            ],
            old(self).window_end == old(self).slots@.len() ==> final(self).stack@.len() == 0,
    {
        let n = self.slots.len();
        if self.window_end < n {
            let start = self.window_end;
            let end = if n - start < self.batch {
                n
            } else {
                start + self.batch
            };
            self.stack.push((start, end));
            self.window_end = end;
        }
    }

    /// The request to make next.
    pub fn next_action(&self) -> (a: Action)
        requires
            self.wf(),
        ensures
            a == self.action_spec(),
    {
        let depth = self.stack.len();
        if depth == 0 {
            Action::Finished
        } else {
            let (start, end) = self.stack[depth - 1];
            if self.fallback {
                Action::Single { index: start }
            } else {
                Action::Bulk { start, end }
            }
        }
    }

    /// Reports the reply of the bulk request for the top range
    /// `start..end`: `None` when the request failed or its reply could not
    /// be read.  A reply with one translation per line fills those lines in
    /// order; any other reply splits the range at its midpoint, or, for a
    /// single line, asks for a single-line request.
    pub fn on_bulk(&mut self, reply: Option<Vec<String>>)
        requires
            old(self).wf(),
            old(self).action_spec() is Bulk,
        ensures
            final(self).wf(),
            final(self).len_spec() == old(self).len_spec(),
            final(self).batch_spec() == old(self).batch_spec(),
            final(self).bulk_calls() == old(self).bulk_calls() + 1,
            final(self).single_calls() == old(self).single_calls(),
            final(self).work_left() < old(self).work_left(),
            ({
                let (start, end) = old(self).pending().last();
                let rest = old(self).pending().drop_last();
                let mid = (start + (end - start) / 2) as usize;
                if reply_fits(reply, end - start) {
                    &&& final(self).bulk_filled() == old(self).bulk_filled() + (end - start)
                    &&& final(self).first_open() == end
                    &&& forall|k: int|
                        0 <= k < old(self).len_spec() ==> #[trigger] final(self).slots_spec()[k]
                            == if start <= k < end {
                            Some(reply.unwrap()@[k - start])
                        } else {
                            old(self).slots_spec()[k]
                        }
                    &&& rest.len() > 0 ==> final(self).pending() == rest
                    &&& rest.len() == 0 ==> final(self).action_spec() == window_from(
                        end as int,
                        old(self).len_spec() as int,
                        old(self).batch_spec() as int,
                    )
                } else {
                    &&& final(self).bulk_filled() == old(self).bulk_filled()
                    &&& final(self).slots_spec() == old(self).slots_spec()
                    &&& end - start == 1 ==> final(self).pending() == old(self).pending()
                        && final(self).action_spec() == (Action::Single { index: start })
                    &&& end - start > 1 ==> final(self).pending() == rest.push((mid, end)).push(
                        (start, mid),
                    ) && final(self).action_spec() == (Action::Bulk { start, end: mid })
                }
            }),
    {
        let depth = self.stack.len();
        let (start, end) = self.stack[depth - 1];
        let len = end - start;
        let fits = match &reply {
            Some(v) => v.len() == len,
            None => false,
        };
        if fits {
            self.accept_top(reply.unwrap());
        } else if len == 1 {
            self.fallback = true;
        } else {
            self.split_top();
        }
        proof {
            self.bulk_calls@ = self.bulk_calls@ + 1;
        }
    }

    /// Fills the top range from a reply of matching length and drops it.
    fn accept_top(&mut self, v: Vec<String>)
        requires
            old(self).wf(),
            old(self).action_spec() is Bulk,
            v@.len() == old(self).stack@.last().1 - old(self).stack@.last().0,
        ensures
            final(self).wf(),
            final(self).slots@.len() == old(self).slots@.len(),
            final(self).batch == old(self).batch,
            final(self).bulk_calls@ == old(self).bulk_calls@,
            final(self).single_calls@ == old(self).single_calls@,
            final(self).bulk_filled@ == old(self).bulk_filled@ + v@.len(),
            final(self).bulk_budget() + 2 * v@.len() - 1 <= old(self).bulk_budget(),
            final(self).first_open() == old(self).stack@.last().1,
            forall|k: int|
                0 <= k < old(self).slots@.len() ==> #[trigger] final(self).slots@[k] == if old(
                    self,
                ).stack@.last().0 <= k < old(self).stack@.last().1 {
                    Some(v@[k - old(self).stack@.last().0])
                } else {
                    old(self).slots@[k]
                },
            old(self).stack@.len() > 1 ==> final(self).stack@ == old(self).stack@.drop_last(),
            old(self).stack@.len() > 1 ==> !final(self).fallback,
            old(self).stack@.len() == 1 ==> final(self).action_spec() == window_from(
                old(self).stack@.last().1 as int,
                old(self).slots@.len() as int,
                old(self).batch as int,
            ),
    {
        let depth = self.stack.len();
        let (start, end) = self.stack[depth - 1];
        let ghost len = v@.len();
        fill_range(&mut self.slots, start, v);
        self.stack.pop();
        proof {
            self.bulk_filled@ = self.bulk_filled@ + len;
            let st = self.stack@;
            let os = old(self).stack@;
            assert(st =~= os.subrange(0, os.len() - 1));
            if st.len() > 0 {
                assert(st.last() == os[os.len() - 2]);
                assert(os[os.len() - 1].1 == os[os.len() - 2].0);
            }
            assert forall|i: int, j: int| 0 <= i < j < st.len() implies #[trigger] st[j].1
                <= #[trigger] st[i].0 by {
                assert(st[j] == os[j] && st[i] == os[i]);
            }
            assert forall|i: int| 0 <= i < st.len() implies #[trigger] st[i].0 < st[i].1 by {
                assert(st[i] == os[i]);
            }
            assert forall|i: int| 0 < i < st.len() implies #[trigger] st[i].1 == st[i - 1].0 by {
                assert(st[i] == os[i] && st[i - 1] == os[i - 1]);
            }
            assert forall|i: int| 0 <= i < st.len() implies i <= self.window_end
                - #[trigger] st[i].1 by {
                assert(st[i] == os[i]);
            }
            if st.len() > 0 {
                assert(os[0].1 == self.window_end);
                assert(os[0] == st[0]);
                assert(os[os.len() - 2].0 >= os[os.len() - 1].1);
                assert(self.window_end - st.last().0 <= self.window_end - os.last().0);
            } else {
                assert(os.len() == 1);
            }
        }
        if self.stack.len() == 0 {
            self.open_window();
        }
    }

    /// Splits the top range at its midpoint; the left half goes on top.
    fn split_top(&mut self)
        requires
            old(self).wf(),
            old(self).action_spec() is Bulk,
            old(self).stack@.last().1 - old(self).stack@.last().0 > 1,
        ensures
            final(self).wf(),
            final(self).slots@ == old(self).slots@,
            final(self).batch == old(self).batch,
            final(self).fallback == old(self).fallback,
            final(self).window_end == old(self).window_end,
            final(self).bulk_calls@ == old(self).bulk_calls@,
            final(self).single_calls@ == old(self).single_calls@,
            final(self).bulk_filled@ == old(self).bulk_filled@,
            final(self).first_open() == old(self).first_open(),
            final(self).bulk_budget() == old(self).bulk_budget() - 1,
            ({
                let (start, end) = old(self).stack@.last();
                let mid = (start + (end - start) / 2) as usize;
                final(self).stack@ == old(self).stack@.drop_last().push((mid, end)).push(
                    (start, mid),
                )
            }),
    {
        let depth = self.stack.len();
        let (start, end) = self.stack[depth - 1];
        let mid = start + (end - start) / 2;
        self.stack.pop();
        self.stack.push((mid, end));
        self.stack.push((start, mid));
        proof {
            let st = self.stack@;
            let os = old(self).stack@;
            assert(st =~= os.drop_last().push((mid, end)).push((start, mid)));
            assert(st.len() == os.len() + 1);
            assert forall|i: int, j: int| 0 <= i < j < st.len() implies #[trigger] st[j].1
                <= #[trigger] st[i].0 by {
                if j < os.len() - 1 {
                    assert(st[j] == os[j] && st[i] == os[i]);
                } else if i < os.len() - 1 {
                    assert(st[i] == os[i]);
                    assert(os[os.len() - 1].1 <= os[i].0);
                }
            }
            assert forall|i: int| 0 <= i < st.len() implies #[trigger] st[i].0 < st[i].1 by {
                if i < os.len() - 1 {
                    assert(st[i] == os[i]);
                }
            }
            assert forall|i: int| 0 < i < st.len() implies #[trigger] st[i].1 == st[i - 1].0 by {
                if i < os.len() - 1 {
                    assert(st[i] == os[i] && st[i - 1] == os[i - 1]);
                } else if i == os.len() - 1 {
                    assert(st[i - 1] == os[i - 1]);
                    assert(os[os.len() - 1].1 == os[os.len() - 2].0);
                }
            }
            assert forall|i: int| 0 <= i < st.len() implies i <= self.window_end
                - #[trigger] st[i].1 by {
                if i < os.len() - 1 {
                    assert(st[i] == os[i]);
                } else {
                    assert(os.len() - 1 <= self.window_end - os[os.len() - 1].1);
                }
            }
            if os.len() > 1 {
                assert(st[0] == os[0]);
            }
        }
    }

    /// Reports the translation of the single-line request for the line
    /// that `next_action` named.
    pub fn on_single(&mut self, text: String)
        requires
            old(self).wf(),
            old(self).action_spec() is Single,
        ensures
            final(self).wf(),
            final(self).len_spec() == old(self).len_spec(),
            final(self).batch_spec() == old(self).batch_spec(),
            final(self).bulk_calls() == old(self).bulk_calls(),
            final(self).single_calls() == old(self).single_calls() + 1,
            final(self).bulk_filled() == old(self).bulk_filled(),
            final(self).work_left() < old(self).work_left(),
            ({
                let index = old(self).pending().last().0;
                &&& final(self).first_open() == index + 1
                &&& old(self).pending().len() > 1 ==> final(self).pending() == old(
                    self,
                ).pending().drop_last() && final(self).action_spec() is Bulk
                &&& old(self).pending().len() == 1 ==> final(self).action_spec() == window_from(
                    index + 1,
                    old(self).len_spec() as int,
                    old(self).batch_spec() as int,
                )
                &&& final(self).slots_spec() == old(self).slots_spec().update(
                    index as int,
                    Some(text),
                )
            }),
    {
        let depth = self.stack.len();
        let (start, _end) = self.stack[depth - 1];
        self.slots.set(start, Some(text));
        self.stack.pop();
        self.fallback = false;
        proof {
            self.single_calls@ = self.single_calls@ + 1;
            let st = self.stack@;
            if st.len() > 0 {
                assert(st.last() == old(self).stack@[old(self).stack@.len() - 2]);
            }
        }
        if self.stack.len() == 0 {
            self.open_window();
        }
    }

    /// The translations, one per line in line order, or the first line that
    /// has none.
    pub fn finish(&self) -> (r: Result<Vec<String>, TranslateError>)
        ensures
            r matches Ok(v) ==> v@.len() == self.len_spec() && forall|k: int|
                0 <= k < v@.len() ==> self.slots_spec()[k] == Some(#[trigger] v@[k]),
            r is Ok <==> forall|k: int| 0 <= k < self.len_spec() ==> #[trigger] self.slots_spec()[k] is Some,
            r matches Err(TranslateError::Incomplete { index }) ==> index < self.len_spec()
                && self.slots_spec()[index as int] is None && forall|k: int|
                0 <= k < index ==> #[trigger] self.slots_spec()[k] is Some,
    {
        let mut out: Vec<String> = Vec::new();
        let mut k: usize = 0;
        while k < self.slots.len()
            invariant
                k <= self.slots@.len(),
                out@.len() == k,
                forall|j: int| 0 <= j < k ==> self.slots@[j] == Some(#[trigger] out@[j]),
            decreases self.slots@.len() - k,
        {
            match &self.slots[k] {
                Some(t) => out.push(t.clone()),
                None => {
                    assert forall|j: int| 0 <= j < k implies #[trigger] self.slots@[j] is Some by {
                        assert(self.slots@[j] == Some(out@[j]));
                    }
                    return Err(TranslateError::Incomplete { index: k });
                },
            }
            k = k + 1;
        }
        assert forall|j: int| 0 <= j < self.slots@.len() implies #[trigger] self.slots@[j] is Some by {
            assert(self.slots@[j] == Some(out@[j]));
        }
        Ok(out)
    }
}

/// A run that has nothing left to do holds a translation for every line, so
/// `finish` hands out exactly one translation per line, in line order.
pub proof fn lemma_finished_run_is_complete(t: Translation)
    requires
        t.wf(),
        t.action_spec() == Action::Finished,
    ensures
        forall|k: int| 0 <= k < t.len_spec() ==> #[trigger] t.slots_spec()[k] is Some,
{
}

/// Bisection always ends and stays within its call budget: the work left is
/// never negative and drops with every reply, at most `2n - 1` bulk requests
/// and at most `n` single-line requests are ever made for `n` lines, and
/// when no bulk reply was usable, every line was resolved by its own
/// single-line request.  A bulk request never asks for more than a batch of
/// lines.
pub proof fn lemma_bisection_bounded(t: Translation)
    requires
        t.wf(),
    ensures
        t.work_left() >= 0,
        t.bulk_calls() <= bulk_call_bound(t.len_spec()),
        t.single_calls() <= t.len_spec(),
        t.action_spec() == Action::Finished && t.bulk_filled() == 0 ==> t.single_calls()
            == t.len_spec(),
        t.action_spec() matches Action::Bulk { start, end } ==> start < end <= t.len_spec() && end
            - start <= t.batch_spec(),
        t.action_spec() matches Action::Single { index } ==> index < t.len_spec(),
{
    let st = t.stack@;
    if st.len() > 0 {
        let top = st.len() - 1;
        assert(top <= t.window_end - st[top].1);
        assert(st[top].0 < st[top].1);
    }
}

/// Writes `v` into `slots` from position `start` on.
fn fill_range(slots: &mut Vec<Option<String>>, start: usize, v: Vec<String>)
    requires
        start + v@.len() <= old(slots)@.len(),
    ensures
        final(slots)@.len() == old(slots)@.len(),
        forall|k: int|
            0 <= k < old(slots)@.len() ==> #[trigger] final(slots)@[k] == if start <= k < start
                + v@.len() {
                Some(v@[k - start])
            } else {
                old(slots)@[k]
            },
{
    let len = v.len();
    let n = slots.len();
    let mut i: usize = 0;
    while i < len
        invariant
            0 <= i <= len,
            v@.len() == len,
            start + len <= n,
            slots@.len() == n,
            n == old(slots)@.len(),
            forall|k: int|
                0 <= k < slots@.len() ==> #[trigger] slots@[k] == if start <= k < start + i {
                    Some(v@[k - start])
                } else {
                    old(slots)@[k]
                },
        decreases len - i,
    {
        slots.set(start + i, Some(v[i].clone()));
        i = i + 1;
    }
}

} // verus!
