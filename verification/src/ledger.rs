//! The problem ledger: every problem ever added, partitioned into four
//! ordered segments.
//!
//! Movement is one-directional and FIFO: `unsolved` → `solved_not_used` →
//! `solved_used` → `solved_before_reset` (on reset). No operation reorders a
//! segment. A `ProblemID`, once present anywhere (archive included), may
//! never be added again.

use vstd::prelude::*;

use crate::error::InterpreterError;
use crate::problem::{FixStatus, Problem, ProblemID};

verus! {

/// The mathematical model of a [`Problems`] ledger: its four segments as
/// sequences.
#[verifier::ext_equal]
pub struct LedgerView {
    pub unsolved: Seq<Problem>,
    pub solved_not_used: Seq<Problem>,
    pub solved_used: Seq<Problem>,
    pub solved_before_reset: Seq<Problem>,
}

/// Whether some entry of `s` carries the given ID.
pub open spec fn seq_has_id(s: Seq<Problem>, id: ProblemID) -> bool {
    exists|i: int| 0 <= i < s.len() && s[i].id == id
}

/// The IDs of a segment, in order.
pub open spec fn ids_of(s: Seq<Problem>) -> Seq<ProblemID> {
    s.map_values(|p: Problem| p.id)
}

/// Freshly added problems: each candidate ID, in order, as a `Fixed` problem.
pub open spec fn to_problems(ids: Seq<ProblemID>) -> Seq<Problem> {
    ids.map_values(|id: ProblemID| Problem { id, fix_status: FixStatus::Fixed })
}

impl LedgerView {
    /// All settled work: the used segment followed by the not-yet-used one.
    /// Only entries of this sequence are eligible for fix-status changes.
    pub open spec fn solved(self) -> Seq<Problem> {
        self.solved_used + self.solved_not_used
    }

    /// How many problems are solved and not archived.
    pub open spec fn total_solved(self) -> nat {
        self.solved_used.len() + self.solved_not_used.len()
    }

    /// Every problem the ledger has ever accepted, archive included.
    pub open spec fn total_count(self) -> nat {
        self.unsolved.len() + self.solved_not_used.len() + self.solved_used.len()
            + self.solved_before_reset.len()
    }

    /// Whether the ID is present anywhere in the ledger, archive included.
    pub open spec fn contains_id(self, id: ProblemID) -> bool {
        ||| seq_has_id(self.unsolved, id)
        ||| seq_has_id(self.solved_not_used, id)
        ||| seq_has_id(self.solved_used, id)
        ||| seq_has_id(self.solved_before_reset, id)
    }
}

/// The first entry of `skip`, in order, that `ids` does not contain, if any.
pub open spec fn first_bad_skip(skip: Seq<ProblemID>, ids: Seq<ProblemID>) -> Option<ProblemID>
    decreases skip.len(),
{
    if skip.len() == 0 {
        None
    } else if !ids.contains(skip[0]) {
        Some(skip[0])
    } else {
        first_bad_skip(skip.skip(1), ids)
    }
}

/// `ids` with every entry of `skip` removed, in order.
pub open spec fn filter_skip(ids: Seq<ProblemID>, skip: Seq<ProblemID>) -> Seq<ProblemID>
    decreases ids.len(),
{
    if ids.len() == 0 {
        Seq::empty()
    } else if skip.contains(ids[0]) {
        filter_skip(ids.skip(1), skip)
    } else {
        seq![ids[0]] + filter_skip(ids.skip(1), skip)
    }
}

/// The first candidate, in order, that is already present in the ledger or
/// repeats an earlier candidate (`seen`), if any.
pub open spec fn first_dup_from(
    cands: Seq<ProblemID>,
    led: LedgerView,
    seen: Seq<ProblemID>,
) -> Option<ProblemID>
    decreases cands.len(),
{
    if cands.len() == 0 {
        None
    } else if led.contains_id(cands[0]) || seen.contains(cands[0]) {
        Some(cands[0])
    } else {
        first_dup_from(cands.skip(1), led, seen.push(cands[0]))
    }
}

/// The index of the first entry of `s` carrying `id`, or `-1` when none does.
pub open spec fn first_id_index(s: Seq<Problem>, id: ProblemID) -> int
    decreases s.len(),
{
    if s.len() == 0 {
        -1
    } else if s[0].id == id {
        0
    } else {
        let rest = first_id_index(s.skip(1), id);
        if rest == -1 {
            -1
        } else {
            rest + 1
        }
    }
}

/// What [`Problems::add`] does: validate the skip list, drop skipped
/// candidates, refuse the whole command on any duplicate (against the whole
/// ledger, archive included, and against earlier candidates of the same
/// command), otherwise append to `unsolved` in input order. An invalid skip
/// entry is reported before any duplicate.
pub open spec fn spec_add(
    led: LedgerView,
    ids: Seq<ProblemID>,
    skip: Option<Seq<ProblemID>>,
) -> (Result<(), InterpreterError>, LedgerView) {
    let skq = match skip {
        Some(s) => s,
        None => Seq::empty(),
    };
    match first_bad_skip(skq, ids) {
        Some(p) => (Err(InterpreterError::UnexpectedSkipProblem(p.number)), led),
        None => {
            let cands = filter_skip(ids, skq);
            match first_dup_from(cands, led, Seq::empty()) {
                Some(p) => (Err(InterpreterError::DuplicateProblemAdded(p)), led),
                None => (
                    Ok(()),
                    LedgerView { unsolved: led.unsolved + to_problems(cands), ..led },
                ),
            }
        },
    }
}

/// What [`Problems::finished`] does: move the first `n` unsolved problems to
/// the tail of `solved_not_used`, or fail without touching anything.
pub open spec fn spec_finished(led: LedgerView, n: u32) -> (
    Result<(), InterpreterError>,
    LedgerView,
) {
    if n as nat <= led.unsolved.len() {
        (
            Ok(()),
            LedgerView {
                unsolved: led.unsolved.skip(n as int),
                solved_not_used: led.solved_not_used + led.unsolved.take(n as int),
                ..led
            },
        )
    } else {
        (Err(InterpreterError::NotEnoughProblems), led)
    }
}

/// What [`Problems::use_problems`] does: consume the first `n` solved-not-used
/// problems into `solved_used` when at least `n` are available; otherwise
/// report `false` and leave the ledger untouched.
pub open spec fn spec_use(led: LedgerView, n: u32) -> (bool, LedgerView) {
    if n as nat <= led.solved_not_used.len() {
        (
            true,
            LedgerView {
                solved_not_used: led.solved_not_used.skip(n as int),
                solved_used: led.solved_used + led.solved_not_used.take(n as int),
                ..led
            },
        )
    } else {
        (false, led)
    }
}

/// What [`Problems::change_status`] does: find the first solved problem (used
/// segment first, then not-used) carrying the ID, and flip its status in
/// place; fail when absent or when the status would not change.
pub open spec fn spec_change_one(
    led: LedgerView,
    number: u32,
    chapter: u32,
    new_status: FixStatus,
) -> (Result<(), InterpreterError>, LedgerView) {
    let id = ProblemID { number, chapter };
    let sol = led.solved();
    let i = first_id_index(sol, id);
    if i == -1 {
        (Err(InterpreterError::FixStatusProblemNotFound(id, new_status)), led)
    } else if sol[i].fix_status == new_status {
        (Err(InterpreterError::FixStatusNotChanged(sol[i], new_status)), led)
    } else {
        let p = Problem { id: sol[i].id, fix_status: new_status };
        if i < led.solved_used.len() {
            (Ok(()), LedgerView { solved_used: led.solved_used.update(i, p), ..led })
        } else {
            (
                Ok(()),
                LedgerView {
                    solved_not_used: led.solved_not_used.update(
                        i - led.solved_used.len(),
                        p,
                    ),
                    ..led
                },
            )
        }
    }
}

/// Status changes for a whole list, applied strictly in order, stopping at
/// the first failing number with the earlier changes kept.
pub open spec fn spec_change_list(
    led: LedgerView,
    nums: Seq<u32>,
    chapter: u32,
    new_status: FixStatus,
) -> (Result<(), InterpreterError>, LedgerView)
    decreases nums.len(),
{
    if nums.len() == 0 {
        (Ok(()), led)
    } else {
        let step = spec_change_one(led, nums[0], chapter, new_status);
        if step.0 is Err {
            step
        } else {
            spec_change_list(step.1, nums.skip(1), chapter, new_status)
        }
    }
}

/// What [`Problems::reset_remaining`] does: archive all settled work, used
/// segment first, leaving `unsolved` alone.
pub open spec fn spec_reset(led: LedgerView) -> LedgerView {
    LedgerView {
        solved_before_reset: led.solved_before_reset + led.solved_used + led.solved_not_used,
        solved_used: Seq::empty(),
        solved_not_used: Seq::empty(),
        ..led
    }
}

/// The four-segment ledger of every problem ever added.
pub struct Problems {
    pub unsolved: Vec<Problem>,
    pub solved_not_used: Vec<Problem>,
    pub solved_used: Vec<Problem>,
    pub solved_before_reset: Vec<Problem>,
}

impl View for Problems {
    type V = LedgerView;

    open spec fn view(&self) -> LedgerView {
        LedgerView {
            unsolved: self.unsolved@,
            solved_not_used: self.solved_not_used@,
            solved_used: self.solved_used@,
            solved_before_reset: self.solved_before_reset@,
        }
    }
}

impl Default for Problems {
    /// The empty ledger.
    fn default() -> (led: Problems)
        ensures
            led@.unsolved.len() == 0,
            led@.solved_not_used.len() == 0,
            led@.solved_used.len() == 0,
            led@.solved_before_reset.len() == 0,
    {
        Problems {
            unsolved: Vec::new(),
            solved_not_used: Vec::new(),
            solved_used: Vec::new(),
            solved_before_reset: Vec::new(),
        }
    }
}

/// Whether `v` contains the given ID among its first `upto` entries.
fn prefix_contains_id(v: &Vec<ProblemID>, upto: usize, id: &ProblemID) -> (r: bool)
    requires
        upto <= v@.len(),
    ensures
        r == v@.take(upto as int).contains(*id),
{
    let mut j: usize = 0;
    while j < upto
        invariant
            j <= upto <= v@.len(),
            forall|k: int| 0 <= k < j ==> v@[k] != *id,
        decreases upto - j,
    {
        if v[j] == *id {
            assert(v@.take(upto as int)[j as int] == *id);
            return true;
        }
        j += 1;
    }
    assert(forall|k: int| 0 <= k < upto ==> v@.take(upto as int)[k] != *id);
    false
}

/// Whether `v` contains the given ID.
fn vec_contains_id(v: &Vec<ProblemID>, id: &ProblemID) -> (r: bool)
    ensures
        r == v@.contains(*id),
{
    let n = v.len();
    let r = prefix_contains_id(v, n, id);
    proof {
        assert(v@.take(n as int) =~= v@);
    }
    r
}

/// Whether some entry of `v` carries the given ID.
fn vec_has_id(v: &Vec<Problem>, id: &ProblemID) -> (r: bool)
    ensures
        r == seq_has_id(v@, *id),
{
    let mut j: usize = 0;
    while j < v.len()
        invariant
            j <= v@.len(),
            forall|k: int| 0 <= k < j ==> v@[k].id != *id,
        decreases v@.len() - j,
    {
        if v[j].id == *id {
            return true;
        }
        j += 1;
    }
    false
}

impl Problems {
    /// Whether the ID is present anywhere in the ledger, archive included.
    pub fn contains_anywhere(&self, id: &ProblemID) -> (r: bool)
        ensures
            r == self@.contains_id(*id),
    {
        vec_has_id(&self.unsolved, id) || vec_has_id(&self.solved_not_used, id) || vec_has_id(
            &self.solved_used,
            id,
        ) || vec_has_id(&self.solved_before_reset, id)
    }

    /// Appends the candidate problems (minus any skipped) to `unsolved`, in
    /// input order, as described by [`spec_add`]. All-or-nothing: on any
    /// error nothing has been appended.
    pub fn add(&mut self, ids: Vec<ProblemID>, skip: Option<Vec<ProblemID>>) -> (r: Result<
        (),
        InterpreterError,
    >)
        ensures
            ({
                let step = spec_add(old(self)@, ids@, opt_ids_view(skip));
                r == step.0 && final(self)@ == step.1
            }),
    {
        let ghost skq: Seq<ProblemID> = match skip {
            Some(ref sk) => sk@,
            None => Seq::empty(),
        };
        // Validate the skip list: every entry must occur among the ids of
        // this same command.
        if let Some(sk) = &skip {
            let mut j: usize = 0;
            proof {
                assert(skq.skip(0) =~= skq);
            }
            while j < sk.len()
                invariant
                    j <= sk@.len(),
                    skq == sk@,
                    first_bad_skip(skq, ids@) == first_bad_skip(skq.skip(j as int), ids@),
                decreases sk@.len() - j,
            {
                if !vec_contains_id(&ids, &sk[j]) {
                    assert(first_bad_skip(skq.skip(j as int), ids@) == Some(sk@[j as int]));
                    return Err(InterpreterError::UnexpectedSkipProblem(sk[j].number));
                }
                proof {
                    assert(skq.skip(j as int).skip(1) =~= skq.skip(j + 1));
                }
                j += 1;
            }
            proof {
                assert(skq.skip(j as int) =~= Seq::<ProblemID>::empty());
            }
        }
        assert(first_bad_skip(skq, ids@) is None);
        // Drop the skipped candidates.
        let mut cands: Vec<ProblemID> = Vec::new();
        let mut j: usize = 0;
        proof {
            assert(ids@.skip(0) =~= ids@);
        }
        while j < ids.len()
            invariant
                j <= ids@.len(),
                (match skip {
                    Some(ref sk) => skq == sk@,
                    None => skq == Seq::<ProblemID>::empty(),
                }),
                filter_skip(ids@, skq) == cands@ + filter_skip(ids@.skip(j as int), skq),
            decreases ids@.len() - j,
        {
            let in_skip = match &skip {
                Some(sk) => vec_contains_id(sk, &ids[j]),
                None => false,
            };
            proof {
                assert(ids@.skip(j as int).skip(1) =~= ids@.skip(j + 1));
            }
            if !in_skip {
                let ghost pre = cands@;
                cands.push(ids[j]);
                proof {
                    assert(pre + (seq![ids@[j as int]] + filter_skip(ids@.skip(j + 1), skq))
                        =~= cands@ + filter_skip(ids@.skip(j + 1), skq));
                }
            }
            j += 1;
        }
        proof {
            assert(ids@.skip(j as int) =~= Seq::<ProblemID>::empty());
            assert(cands@ + Seq::<ProblemID>::empty() =~= cands@);
        }
        assert(cands@ == filter_skip(ids@, skq));
        // Refuse the whole command on any duplicate, against the existing
        // ledger and against earlier candidates of this command, before any
        // mutation.
        let mut j: usize = 0;
        proof {
            assert(cands@.skip(0) =~= cands@);
            assert(cands@.take(0) =~= Seq::<ProblemID>::empty());
        }
        while j < cands.len()
            invariant
                j <= cands@.len(),
                first_dup_from(cands@, self@, Seq::empty()) == first_dup_from(
                    cands@.skip(j as int),
                    self@,
                    cands@.take(j as int),
                ),
            decreases cands@.len() - j,
        {
            let dup = self.contains_anywhere(&cands[j]) || prefix_contains_id(&cands, j, &cands[j]);
            if dup {
                assert(first_dup_from(cands@.skip(j as int), self@, cands@.take(j as int))
                    == Some(cands@[j as int]));
                return Err(InterpreterError::DuplicateProblemAdded(cands[j]));
            }
            proof {
                assert(cands@.skip(j as int).skip(1) =~= cands@.skip(j + 1));
                assert(cands@.take(j as int).push(cands@[j as int]) =~= cands@.take(j + 1));
            }
            j += 1;
        }
        proof {
            assert(cands@.skip(j as int) =~= Seq::<ProblemID>::empty());
        }
        assert(first_dup_from(cands@, self@, Seq::empty()) is None);
        // Append, in input order.
        let ghost led0 = self@;
        let mut j: usize = 0;
        while j < cands.len()
            invariant
                j <= cands@.len(),
                self@.unsolved == led0.unsolved + to_problems(cands@.take(j as int)),
                self@.solved_not_used == led0.solved_not_used,
                self@.solved_used == led0.solved_used,
                self@.solved_before_reset == led0.solved_before_reset,
            decreases cands@.len() - j,
        {
            self.unsolved.push(Problem { id: cands[j], fix_status: FixStatus::Fixed });
            proof {
                assert(to_problems(cands@.take(j as int)).push(
                    Problem { id: cands@[j as int], fix_status: FixStatus::Fixed },
                ) =~= to_problems(cands@.take(j + 1)));
            }
            j += 1;
        }
        proof {
            assert(cands@.take(j as int) =~= cands@);
            assert(self@ =~~= spec_add(led0, ids@, opt_ids_view(skip)).1);
        }
        Ok(())
    }

    /// Moves the first `n` unsolved problems to the tail of
    /// `solved_not_used`, as described by [`spec_finished`]. No partial move
    /// on failure.
    pub fn finished(&mut self, n: u32) -> (r: Result<(), InterpreterError>)
        ensures
            ({
                let step = spec_finished(old(self)@, n);
                r == step.0 && final(self)@ == step.1
            }),
    {
        let n_us = n as usize;
        if n_us <= self.unsolved.len() {
            let mut i: usize = 0;
            while i < n_us
                invariant
                    i <= n_us <= old(self)@.unsolved.len(),
                    self@.unsolved == old(self)@.unsolved.skip(i as int),
                    self@.solved_not_used == old(self)@.solved_not_used + old(
                        self,
                    )@.unsolved.take(i as int),
                    self@.solved_used == old(self)@.solved_used,
                    self@.solved_before_reset == old(self)@.solved_before_reset,
                decreases n_us - i,
            {
                let p = self.unsolved.remove(0);
                self.solved_not_used.push(p);
                proof {
                    assert(old(self)@.unsolved.skip(i as int).remove(0) =~= old(
                        self,
                    )@.unsolved.skip(i + 1));
                    assert((old(self)@.solved_not_used + old(self)@.unsolved.take(i as int)).push(
                        old(self)@.unsolved[i as int],
                    ) =~= old(self)@.solved_not_used + old(self)@.unsolved.take(i + 1));
                }
                i += 1;
            }
            proof {
                assert(self@ =~~= spec_finished(old(self)@, n).1);
            }
            Ok(())
        } else {
            Err(InterpreterError::NotEnoughProblems)
        }
    }

    /// Consumes the first `n` solved-not-used problems into `solved_used`
    /// when at least `n` are available, as described by [`spec_use`]; returns
    /// whether the move happened. Insufficient solved work is a normal
    /// outcome, not an error.
    pub fn use_problems(&mut self, n: u32) -> (r: bool)
        ensures
            ({
                let step = spec_use(old(self)@, n);
                r == step.0 && final(self)@ == step.1
            }),
    {
        let n_us = n as usize;
        if n_us <= self.solved_not_used.len() {
            let mut i: usize = 0;
            while i < n_us
                invariant
                    i <= n_us <= old(self)@.solved_not_used.len(),
                    self@.solved_not_used == old(self)@.solved_not_used.skip(i as int),
                    self@.solved_used == old(self)@.solved_used + old(
                        self,
                    )@.solved_not_used.take(i as int),
                    self@.unsolved == old(self)@.unsolved,
                    self@.solved_before_reset == old(self)@.solved_before_reset,
                decreases n_us - i,
            {
                let p = self.solved_not_used.remove(0);
                self.solved_used.push(p);
                proof {
                    assert(old(self)@.solved_not_used.skip(i as int).remove(0) =~= old(
                        self,
                    )@.solved_not_used.skip(i + 1));
                    assert((old(self)@.solved_used + old(self)@.solved_not_used.take(
                        i as int,
                    )).push(old(self)@.solved_not_used[i as int]) =~= old(self)@.solved_used + old(
                        self,
                    )@.solved_not_used.take(i + 1));
                }
                i += 1;
            }
            proof {
                assert(self@ =~~= spec_use(old(self)@, n).1);
            }
            true
        } else {
            false
        }
    }

    /// Flips the status of the first solved problem carrying the ID, used
    /// segment first, as described by [`spec_change_one`].
    pub fn change_status(&mut self, number: u32, chapter: u32, new_status: FixStatus) -> (r: Result<
        (),
        InterpreterError,
    >)
        ensures
            ({
                let step = spec_change_one(old(self)@, number, chapter, new_status);
                r == step.0 && final(self)@ == step.1
            }),
    {
        let id = ProblemID { number, chapter };
        let ghost sol = old(self)@.solved();
        let mut j: usize = 0;
        while j < self.solved_used.len()
            invariant
                self == old(self),
                j <= self@.solved_used.len(),
                id == (ProblemID { number, chapter }),
                forall|k: int| 0 <= k < j ==> self@.solved_used[k].id != id,
            decreases self@.solved_used.len() - j,
        {
            if self.solved_used[j].id == id {
                proof {
                    lemma_first_id_index_at(sol, id, j as int);
                }
                if self.solved_used[j].fix_status == new_status {
                    return Err(InterpreterError::FixStatusNotChanged(
                        self.solved_used[j],
                        new_status,
                    ));
                }
                let p = Problem { id: self.solved_used[j].id, fix_status: new_status };
                self.solved_used[j] = p;
                proof {
                    assert(self@ =~~= spec_change_one(old(self)@, number, chapter, new_status).1);
                }
                return Ok(());
            }
            j += 1;
        }
        let used_len = self.solved_used.len();
        let mut k: usize = 0;
        while k < self.solved_not_used.len()
            invariant
                self == old(self),
                used_len == self@.solved_used.len(),
                k <= self@.solved_not_used.len(),
                id == (ProblemID { number, chapter }),
                forall|m: int| 0 <= m < used_len ==> self@.solved_used[m].id != id,
                forall|m: int| 0 <= m < k ==> self@.solved_not_used[m].id != id,
            decreases self@.solved_not_used.len() - k,
        {
            if self.solved_not_used[k].id == id {
                proof {
                    assert(forall|m: int|
                        0 <= m < used_len + k ==> sol[m].id != id);
                    lemma_first_id_index_at(sol, id, used_len + k as int);
                }
                if self.solved_not_used[k].fix_status == new_status {
                    return Err(InterpreterError::FixStatusNotChanged(
                        self.solved_not_used[k],
                        new_status,
                    ));
                }
                let p = Problem { id: self.solved_not_used[k].id, fix_status: new_status };
                self.solved_not_used[k] = p;
                proof {
                    assert(self@ =~~= spec_change_one(old(self)@, number, chapter, new_status).1);
                }
                return Ok(());
            }
            k += 1;
        }
        proof {
            assert(forall|m: int| 0 <= m < sol.len() ==> sol[m].id != id);
            lemma_first_id_index_none(sol, id);
        }
        Err(InterpreterError::FixStatusProblemNotFound(id, new_status))
    }

    /// Archives all settled work, used segment first, as described by
    /// [`spec_reset`]. `unsolved` is untouched.
    pub fn reset_remaining(&mut self)
        ensures
            final(self)@ == spec_reset(old(self)@),
    {
        self.solved_before_reset.append(&mut self.solved_used);
        self.solved_before_reset.append(&mut self.solved_not_used);
        proof {
            assert(self@ =~~= spec_reset(old(self)@));
        }
    }

    /// How many problems are solved and not archived.
    pub fn total_solved(&self) -> (r: u32)
        requires
            self@.total_solved() <= u32::MAX,
        ensures
            r == self@.total_solved(),
    {
        (self.solved_used.len() + self.solved_not_used.len()) as u32
    }

    /// How many solved problems no day's quota has consumed yet.
    pub fn total_solved_not_used(&self) -> (r: u32)
        requires
            self@.solved_not_used.len() <= u32::MAX,
        ensures
            r == self@.solved_not_used.len(),
    {
        self.solved_not_used.len() as u32
    }

    /// All settled work, used segment first, in ledger order: the entries
    /// eligible for fix-status changes and for the report's rework listing.
    pub fn solved_iter(&self) -> (r: Vec<Problem>)
        ensures
            r@ == self@.solved(),
    {
        let mut out: Vec<Problem> = Vec::new();
        let mut j: usize = 0;
        while j < self.solved_used.len()
            invariant
                j <= self@.solved_used.len(),
                out@ == self@.solved_used.take(j as int),
            decreases self@.solved_used.len() - j,
        {
            out.push(self.solved_used[j]);
            proof {
                assert(self@.solved_used.take(j as int).push(self@.solved_used[j as int])
                    =~= self@.solved_used.take(j + 1));
            }
            j += 1;
        }
        proof {
            assert(self@.solved_used.take(j as int) =~= self@.solved_used);
        }
        let mut k: usize = 0;
        while k < self.solved_not_used.len()
            invariant
                k <= self@.solved_not_used.len(),
                out@ == self@.solved_used + self@.solved_not_used.take(k as int),
            decreases self@.solved_not_used.len() - k,
        {
            out.push(self.solved_not_used[k]);
            proof {
                assert((self@.solved_used + self@.solved_not_used.take(k as int)).push(
                    self@.solved_not_used[k as int],
                ) =~= self@.solved_used + self@.solved_not_used.take(k + 1));
            }
            k += 1;
        }
        proof {
            assert(self@.solved_used + self@.solved_not_used.take(k as int) =~= self@.solved());
        }
        out
    }
}

/// The view of an optional skip list.
pub open spec fn opt_ids_view(skip: Option<Vec<ProblemID>>) -> Option<Seq<ProblemID>> {
    match skip {
        Some(v) => Some(v@),
        None => None,
    }
}

/// `first_id_index` names the position of the first entry carrying `id`: if
/// `s[j]` carries it and no earlier entry does, the index is `j`.
pub proof fn lemma_first_id_index_at(s: Seq<Problem>, id: ProblemID, j: int)
    requires
        0 <= j < s.len(),
        s[j].id == id,
        forall|k: int| 0 <= k < j ==> s[k].id != id,
    ensures
        first_id_index(s, id) == j,
    decreases j,
{
    if j == 0 {
    } else {
        assert(forall|k: int| 0 <= k < j - 1 ==> s.skip(1)[k].id != id);
        lemma_first_id_index_at(s.skip(1), id, j - 1);
    }
}

/// When `first_id_index` names a position, that position is in range,
/// carries `id`, and no earlier position does.
pub proof fn lemma_first_id_index_props(s: Seq<Problem>, id: ProblemID)
    requires
        first_id_index(s, id) != -1,
    ensures
        ({
            let i = first_id_index(s, id);
            0 <= i < s.len() && s[i].id == id && forall|k: int| 0 <= k < i ==> s[k].id != id
        }),
    decreases s.len(),
{
    if s.len() > 0 && s[0].id != id {
        lemma_first_id_index_props(s.skip(1), id);
        let i = first_id_index(s, id);
        assert(forall|k: int| 1 <= k < i ==> s.skip(1)[k - 1].id != id ==> s[k].id != id);
    }
}

/// When no entry of `s` carries `id`, `first_id_index` is `-1`.
pub proof fn lemma_first_id_index_none(s: Seq<Problem>, id: ProblemID)
    requires
        forall|k: int| 0 <= k < s.len() ==> s[k].id != id,
    ensures
        first_id_index(s, id) == -1,
    decreases s.len(),
{
    if s.len() > 0 {
        assert(forall|k: int| 0 <= k < s.skip(1).len() ==> s.skip(1)[k].id != id);
        lemma_first_id_index_none(s.skip(1), id);
    }
}

} // verus!
