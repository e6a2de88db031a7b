//! Rolling back a failed install or update: the addon directory is changed
//! only by steps that can be undone, and a failure undoes the steps taken,
//! last first, so the directory ends as it began.

use vstd::prelude::*;
use vstd::string::StringExecFns;

verus! {

/// A change made to the addon directory.
#[derive(Debug, Clone, PartialEq, Eq)]
pub enum DirStep {
    /// An existing folder was renamed to its backup name.
    SetAside(String),
    /// A new folder was moved in under this name.
    MoveIn(String),
}

/// A change that undoes a `DirStep`.
#[derive(Debug, Clone, PartialEq, Eq)]
pub enum UndoStep {
    /// Remove the folder that was moved in.
    Remove(String),
    /// Rename the backup back to the folder's name.
    PutBack(String),
}

/// A step by the name it acts on.
pub enum StepModel {
    SetAside(Seq<char>),
    MoveIn(Seq<char>),
    Remove(Seq<char>),
    PutBack(Seq<char>),
}

pub open spec fn dir_step_model(s: DirStep) -> StepModel {
    match s {
        DirStep::SetAside(d) => StepModel::SetAside(d@),
        DirStep::MoveIn(d) => StepModel::MoveIn(d@),
    }
}

pub open spec fn undo_step_model(s: UndoStep) -> StepModel {
    match s {
        UndoStep::Remove(d) => StepModel::Remove(d@),
        UndoStep::PutBack(d) => StepModel::PutBack(d@),
    }
}

/// A journal of directory steps, by model.
pub open spec fn journal_model(done: Seq<DirStep>) -> Seq<StepModel> {
    done.map_values(|s: DirStep| dir_step_model(s))
}

/// A list of undo steps, by model.
pub open spec fn undo_model(r: Seq<UndoStep>) -> Seq<StepModel> {
    r.map_values(|u: UndoStep| undo_step_model(u))
}

/// The addon directory: its folders by name, each with its content, and
/// the folders set aside under their backup names.
#[verifier::ext_equal]
pub struct DirState {
    pub folders: Map<Seq<char>, nat>,
    pub aside: Map<Seq<char>, nat>,
}

/// The content a newly moved-in folder has.
pub open spec fn new_content() -> nat {
    0
}

/// A step can be taken: a folder is set aside only if it is there and has
/// no backup yet; a folder is moved in only where none is; a moved-in
/// folder is removed only if it is there; a backup is put back only into a
/// free name.
pub open spec fn step_ok(s: DirState, m: StepModel) -> bool {
    match m {
        StepModel::SetAside(d) => s.folders.contains_key(d) && !s.aside.contains_key(d),
        StepModel::MoveIn(d) => !s.folders.contains_key(d),
        StepModel::Remove(d) => s.folders.contains_key(d),
        StepModel::PutBack(d) => s.aside.contains_key(d) && !s.folders.contains_key(d),
    }
}

/// The directory after a step.
pub open spec fn apply_step(s: DirState, m: StepModel) -> DirState {
    match m {
        StepModel::SetAside(d) => DirState { folders: s.folders.remove(d), aside: s.aside.insert(d, s.folders[d]) },
        StepModel::MoveIn(d) => DirState { folders: s.folders.insert(d, new_content()), aside: s.aside },
        StepModel::Remove(d) => DirState { folders: s.folders.remove(d), aside: s.aside },
        StepModel::PutBack(d) => DirState { folders: s.folders.insert(d, s.aside[d]), aside: s.aside.remove(d) },
    }
}

/// The steps taken can all be taken, one after the other, from `s`.
pub open spec fn steps_ok(s: DirState, steps: Seq<StepModel>) -> bool
    decreases steps.len(),
{
    steps.len() == 0 || (step_ok(s, steps[0]) && steps_ok(apply_step(s, steps[0]), steps.drop_first()))
}

/// The directory after `steps`, in order.
pub open spec fn apply_steps(s: DirState, steps: Seq<StepModel>) -> DirState
    decreases steps.len(),
{
    if steps.len() == 0 {
        s
    } else {
        apply_steps(apply_step(s, steps[0]), steps.drop_first())
    }
}

/// The step that undoes `m`.
pub open spec fn inverse(m: StepModel) -> StepModel {
    match m {
        StepModel::SetAside(d) => StepModel::PutBack(d),
        StepModel::MoveIn(d) => StepModel::Remove(d),
        StepModel::Remove(d) => StepModel::MoveIn(d),
        StepModel::PutBack(d) => StepModel::SetAside(d),
    }
}

/// What undoes `steps`: their inverses, last first.
pub open spec fn undo_of(steps: Seq<StepModel>) -> Seq<StepModel>
    decreases steps.len(),
{
    if steps.len() == 0 {
        Seq::empty()
    } else {
        seq![inverse(steps.last())] + undo_of(steps.drop_last())
    }
}

proof fn lemma_apply_steps_push(s: DirState, steps: Seq<StepModel>, m: StepModel)
    ensures
        apply_steps(s, steps.push(m)) == apply_step(apply_steps(s, steps), m),
        steps_ok(s, steps.push(m)) == (steps_ok(s, steps) && step_ok(apply_steps(s, steps), m)),
    decreases steps.len(),
{
    if steps.len() > 0 {
        assert(steps.push(m)[0] == steps[0]);
        assert(steps.push(m).drop_first() =~= steps.drop_first().push(m));
        lemma_apply_steps_push(apply_step(s, steps[0]), steps.drop_first(), m);
    } else {
        assert(steps.push(m)[0] == m);
        assert(steps.push(m).drop_first() =~= Seq::<StepModel>::empty());
        assert(apply_steps(apply_step(s, m), Seq::<StepModel>::empty()) == apply_step(s, m));
        assert(steps_ok(apply_step(s, m), Seq::<StepModel>::empty()));
    }
}

proof fn lemma_apply_steps_concat(s: DirState, a: Seq<StepModel>, b: Seq<StepModel>)
    ensures
        apply_steps(s, a + b) == apply_steps(apply_steps(s, a), b),
    decreases a.len(),
{
    if a.len() > 0 {
        assert((a + b).drop_first() =~= a.drop_first() + b);
        lemma_apply_steps_concat(apply_step(s, a[0]), a.drop_first(), b);
    } else {
        assert(a + b =~= b);
    }
}

/// A step an install or update takes: setting a folder aside or moving one
/// in.
pub open spec fn forward_step(m: StepModel) -> bool {
    m is SetAside || m is MoveIn
}

/// Undoing a step that could be taken gives back the directory it was
/// taken from.
proof fn lemma_inverse_step(s: DirState, m: StepModel)
    requires
        step_ok(s, m),
        forward_step(m),
    ensures
        apply_step(apply_step(s, m), inverse(m)) == s,
{
    let t = apply_step(apply_step(s, m), inverse(m));
    match m {
        StepModel::SetAside(d) => {
            assert(t.folders =~= s.folders);
            assert(t.aside =~= s.aside);
        },
        StepModel::MoveIn(d) => {
            assert(t.folders =~= s.folders);
            assert(t.aside =~= s.aside);
        },
        _ => {},
    }
    assert(t =~= s);
}

/// However far an install or update got, undoing the steps it took, last
/// first, leaves the addon directory and its backups as they were before
/// it began.
pub proof fn law_undo_restores(s: DirState, steps: Seq<StepModel>)
    requires
        steps_ok(s, steps),
        forall|i: int| 0 <= i < steps.len() ==> forward_step(#[trigger] steps[i]),
    ensures
        apply_steps(apply_steps(s, steps), undo_of(steps)) == s,
    decreases steps.len(),
{
    if steps.len() > 0 {
        let init = steps.drop_last();
        let m = steps.last();
        assert(init.push(m) =~= steps);
        lemma_apply_steps_push(s, init, m);
        let mid = apply_steps(s, init);
        lemma_inverse_step(mid, m);
        law_undo_restores(s, init);
        let u = undo_of(steps);
        assert(u == seq![inverse(m)] + undo_of(init));
        lemma_apply_steps_concat(apply_steps(s, steps), seq![inverse(m)], undo_of(init));
        let one = seq![inverse(m)];
        assert(one[0] == inverse(m));
        assert(one.drop_first() =~= Seq::<StepModel>::empty());
        let after = apply_step(apply_steps(s, steps), inverse(m));
        assert(apply_steps(after, Seq::<StepModel>::empty()) == after);
        assert(apply_steps(apply_steps(s, steps), one) == after);
    }
}

/// `undo_of` by position: its `j`-th step undoes the `j`-th step from the
/// end.
proof fn lemma_undo_index(steps: Seq<StepModel>)
    ensures
        undo_of(steps).len() == steps.len(),
        forall|j: int| 0 <= j < steps.len() ==> #[trigger] undo_of(steps)[j] == inverse(steps[steps.len() - 1 - j]),
    decreases steps.len(),
{
    if steps.len() > 0 {
        lemma_undo_index(steps.drop_last());
        assert forall|j: int| 0 <= j < steps.len() implies #[trigger] undo_of(steps)[j] == inverse(
            steps[steps.len() - 1 - j],
        ) by {
            if j > 0 {
                assert(undo_of(steps)[j] == undo_of(steps.drop_last())[j - 1]);
            }
        }
    }
}

/// The undo steps for the directory steps `done`, taken in order: each
/// step's inverse, last first.
pub fn undo_plan(done: &Vec<DirStep>) -> (r: Vec<UndoStep>)
    ensures
        undo_model(r@) == undo_of(journal_model(done@)),
        forall|s: DirState| #[trigger]
            steps_ok(s, journal_model(done@)) ==> apply_steps(apply_steps(s, journal_model(done@)), undo_model(r@)) == s,
{
    let ghost ms = journal_model(done@);
    proof {
        lemma_undo_index(ms);
    }
    let n = done.len();
    let mut r: Vec<UndoStep> = Vec::new();
    let mut i: usize = n;
    while i > 0
        invariant
            i <= n,
            n == done@.len(),
            ms == journal_model(done@),
            undo_of(ms).len() == ms.len(),
            forall|j: int| 0 <= j < ms.len() ==> #[trigger] undo_of(ms)[j] == inverse(ms[ms.len() - 1 - j]),
            r@.len() == n - i,
            forall|j: int| 0 <= j < r@.len() ==> #[trigger] undo_step_model(r@[j]) == undo_of(ms)[j],
        decreases i,
    {
        i -= 1;
        let u = match &done[i] {
            DirStep::SetAside(d) => UndoStep::PutBack(d.clone()),
            DirStep::MoveIn(d) => UndoStep::Remove(d.clone()),
        };
        proof {
            assert(ms[i as int] == dir_step_model(done@[i as int]));
            assert(undo_of(ms)[r@.len() as int] == inverse(ms[i as int]));
        }
        r.push(u);
    }
    assert(undo_model(r@) =~= undo_of(ms));
    proof {
        assert forall|s: DirState| #[trigger] steps_ok(s, ms) implies apply_steps(apply_steps(s, ms), undo_of(ms)) == s by {
            assert forall|i: int| 0 <= i < ms.len() implies forward_step(#[trigger] ms[i]) by {
                assert(ms[i] == dir_step_model(done@[i]));
            }
            law_undo_restores(s, ms);
        }
    }
    r
}

/// Whether a folder named `name` was already moved in by the steps `done`:
/// moving in another of that name would replace it with no way back, so
/// the operation stops there instead.
pub fn moved_in_before(done: &Vec<DirStep>, name: &str) -> (r: bool)
    ensures
        r == journal_model(done@).contains(StepModel::MoveIn(name@)),
{
    let ghost ms = journal_model(done@);
    let key = String::from_str(name);
    let mut i: usize = 0;
    while i < done.len()
        invariant
            0 <= i <= done.len(),
            key@ == name@,
            ms == journal_model(done@),
            forall|j: int| 0 <= j < i ==> #[trigger] ms[j] != StepModel::MoveIn(name@),
        decreases done.len() - i,
    {
        assert(ms[i as int] == dir_step_model(done@[i as int]));
        match &done[i] {
            DirStep::MoveIn(d) => {
                if *d == key {
                    assert(ms[i as int] == StepModel::MoveIn(name@));
                    return true;
                }
            },
            DirStep::SetAside(_) => {},
        }
        i += 1;
    }
    proof {
        if ms.contains(StepModel::MoveIn(name@)) {
            let j = choose|j: int| 0 <= j < ms.len() && ms[j] == StepModel::MoveIn(name@);
            assert(ms[j] != StepModel::MoveIn(name@));
        }
    }
    false
}

} // verus!
