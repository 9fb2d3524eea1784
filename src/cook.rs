//! The batch driver: cooks every ingredient of a pantry in name order.
//!
//! The driver is a state machine. Its owner asks it for the next step, applies
//! the ingredient that the step names, and reports whether the hook
//! succeeded; an ingredient marked ignored is skipped without being applied.
use vstd::prelude::*;
use crate::ingredient::Ingredient;

verus! {

broadcast use vstd::std_specs::vec::group_vec_axioms;

/// The outcome of a batch.
#[derive(Debug, Clone, Copy, PartialEq, Eq)]
pub struct CookTally {
    pub total: usize,
    pub applied: usize,
    pub skipped: usize,
    pub hook_failed: usize,
}

/// What the driver asks for next.
#[derive(Debug, Clone, Copy, PartialEq, Eq)]
pub enum CookAction {
    /// Apply the ingredient at this position of the list, then report.
    Apply(usize),
    /// The batch is over.
    Done(CookTally),
}

/// How many entries of `s` are true.
pub open spec fn count_true(s: Seq<bool>) -> int
    decreases s.len(),
{
    if s.len() == 0 {
        0
    } else {
        count_true(s.drop_last()) + if s.last() {
            1int
        } else {
            0int
        }
    }
}

proof fn lemma_count_true_bounds(s: Seq<bool>)
    ensures
        0 <= count_true(s) <= s.len(),
    decreases s.len(),
{
    if s.len() > 0 {
        lemma_count_true_bounds(s.drop_last());
    }
}

/// A batch in progress over a list of ingredients.
pub struct CookRun {
    ignored: Vec<bool>,
    pos: usize,
    pending: bool,
    tally: CookTally,
    outcomes: Ghost<Seq<bool>>,
}

impl CookRun {
    /// For each ingredient of the list, whether it is ignored.
    pub closed spec fn ignored(&self) -> Seq<bool> {
        self.ignored@
    }

    /// The hook outcomes reported so far, in order.
    pub closed spec fn outcomes(&self) -> Seq<bool> {
        self.outcomes@
    }

    /// How many entries of the list have been dealt with or handed out.
    pub closed spec fn position(&self) -> int {
        self.pos as int
    }

    /// Whether an ingredient was handed out and its outcome is awaited.
    pub closed spec fn is_pending(&self) -> bool {
        self.pending
    }

    pub closed spec fn spec_tally(&self) -> CookTally {
        self.tally
    }

    pub closed spec fn wf(&self) -> bool {
        &&& self.pos <= self.ignored@.len()
        &&& self.tally.total == self.ignored@.len()
        &&& self.tally.skipped == count_true(self.ignored@.take(self.pos as int))
        &&& self.tally.applied + (if self.pending {
            1int
        } else {
            0int
        }) == self.pos - self.tally.skipped
        &&& self.pending ==> self.pos > 0 && !self.ignored@[self.pos - 1]
        &&& self.outcomes@.len() == self.tally.applied
        &&& self.tally.hook_failed == self.outcomes@.len() - count_true(self.outcomes@)
    }

    /// A batch over `list`, nothing done yet.
    pub fn start(list: &Vec<&Ingredient>) -> (r: CookRun)
        ensures
            r.wf(),
            r.ignored().len() == list@.len(),
            forall|i: int| 0 <= i < list@.len() ==> r.ignored()[i] == list@[i].meta.ignored,
            r.position() == 0,
            !r.is_pending(),
            r.outcomes() == Seq::<bool>::empty(),
    {
        let mut ignored: Vec<bool> = Vec::new();
        let mut i: usize = 0;
        while i < list.len()
            invariant
                i <= list@.len(),
                ignored@.len() == i,
                forall|j: int| 0 <= j < i ==> ignored@[j] == list@[j].meta.ignored,
            decreases list.len() - i,
        {
            ignored.push(list[i].meta.ignored);
            i += 1;
        }
        proof {
            assert(ignored@.take(0) =~= Seq::<bool>::empty());
        }
        CookRun {
            ignored,
            pos: 0,
            pending: false,
            tally: CookTally { total: list.len(), applied: 0, skipped: 0, hook_failed: 0 },
            outcomes: Ghost(Seq::empty()),
        }
    }

    /// The tally so far.
    pub fn tally(&self) -> (r: CookTally)
        ensures
            r == self.spec_tally(),
    {
        self.tally
    }

    /// Skips the ignored ingredients ahead and hands out the next one to
    /// apply, or ends the batch when none is left.
    pub fn next(&mut self) -> (r: CookAction)
        requires
            old(self).wf(),
            !old(self).is_pending(),
        ensures
            final(self).wf(),
            final(self).ignored() == old(self).ignored(),
            final(self).outcomes() == old(self).outcomes(),
            old(self).position() <= final(self).position(),
            forall|j: int|
                old(self).position() <= j < final(self).position() - (if final(self).is_pending() {
                    1int
                } else {
                    0int
                }) ==> old(self).ignored()[j],
            match r {
                CookAction::Apply(i) => {
                    &&& final(self).is_pending()
                    &&& i == final(self).position() - 1
                    &&& old(self).position() <= i
                    &&& i < old(self).ignored().len()
                    &&& !old(self).ignored()[i as int]
                },
                CookAction::Done(t) => {
                    &&& !final(self).is_pending()
                    &&& final(self).position() == old(self).ignored().len()
                    &&& t == final(self).spec_tally()
                    &&& t.total == old(self).ignored().len()
                    &&& t.skipped == count_true(old(self).ignored())
                    &&& t.applied == old(self).ignored().len() - count_true(old(self).ignored())
                    &&& t.hook_failed == old(self).outcomes().len() - count_true(
                        old(self).outcomes(),
                    )
                },
            },
    {
        let ghost start_pos = self.pos as int;
        while self.pos < self.ignored.len() && self.ignored[self.pos]
            invariant
                self.wf(),
                !self.pending,
                start_pos <= self.pos,
                self.ignored@ == old(self).ignored@,
                self.outcomes@ == old(self).outcomes@,
                forall|j: int| start_pos <= j < self.pos ==> old(self).ignored@[j],
            decreases self.ignored.len() - self.pos,
        {
            proof {
                assert(self.ignored@.take(self.pos + 1).drop_last() =~= self.ignored@.take(
                    self.pos as int,
                ));
                lemma_count_true_bounds(self.ignored@.take(self.pos as int));
            }
            self.tally.skipped = self.tally.skipped + 1;
            self.pos = self.pos + 1;
        }
        if self.pos < self.ignored.len() {
            proof {
                assert(self.ignored@.take(self.pos + 1).drop_last() =~= self.ignored@.take(
                    self.pos as int,
                ));
            }
            self.pos = self.pos + 1;
            self.pending = true;
            CookAction::Apply(self.pos - 1)
        } else {
            proof {
                assert(self.ignored@.take(self.pos as int) =~= self.ignored@);
            }
            CookAction::Done(self.tally)
        }
    }

    /// Reports whether the hook of the ingredient handed out last succeeded.
    pub fn record(&mut self, hook_ok: bool)
        requires
            old(self).wf(),
            old(self).is_pending(),
        ensures
            final(self).wf(),
            !final(self).is_pending(),
            final(self).ignored() == old(self).ignored(),
            final(self).position() == old(self).position(),
            final(self).outcomes() == old(self).outcomes().push(hook_ok),
            final(self).spec_tally().applied == old(self).spec_tally().applied + 1,
            final(self).spec_tally().skipped == old(self).spec_tally().skipped,
            final(self).spec_tally().hook_failed == old(self).spec_tally().hook_failed + (if hook_ok {
                0int
            } else {
                1int
            }),
    {
        proof {
            assert(self.outcomes@.push(hook_ok).drop_last() =~= self.outcomes@);
            lemma_count_true_bounds(self.outcomes@);
        }
        self.pending = false;
        self.tally.applied = self.tally.applied + 1;
        if !hook_ok {
            self.tally.hook_failed = self.tally.hook_failed + 1;
        }
        self.outcomes = Ghost(self.outcomes@.push(hook_ok));
    }
}

/// One step of a batch: reports the outcome of the hook of the ingredient
/// handed out before (`None` when none is awaited) and says what to do next.
pub fn execute(run: &mut CookRun, last: Option<bool>) -> (r: CookAction)
    requires
        old(run).wf(),
        old(run).is_pending() <==> last is Some,
    ensures
        final(run).wf(),
        final(run).ignored() == old(run).ignored(),
        final(run).outcomes() == match last {
            Some(ok) => old(run).outcomes().push(ok),
            None => old(run).outcomes(),
        },
        old(run).position() <= final(run).position(),
        forall|j: int|
            old(run).position() <= j < final(run).position() - (if final(run).is_pending() {
                1int
            } else {
                0int
            }) ==> old(run).ignored()[j],
        match r {
            CookAction::Apply(i) => {
                &&& final(run).is_pending()
                &&& i == final(run).position() - 1
                &&& old(run).position() <= i
                &&& i < old(run).ignored().len()
                &&& !old(run).ignored()[i as int]
            },
            CookAction::Done(t) => {
                &&& !final(run).is_pending()
                &&& final(run).position() == old(run).ignored().len()
                &&& t == final(run).spec_tally()
                &&& t.total == old(run).ignored().len()
                &&& t.skipped == count_true(old(run).ignored())
                &&& t.applied == old(run).ignored().len() - count_true(old(run).ignored())
                &&& t.hook_failed == final(run).outcomes().len() - count_true(final(run).outcomes())
            },
        },
{
    if let Some(ok) = last {
        run.record(ok);
    }
    run.next()
}

} // verus!
