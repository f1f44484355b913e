use vstd::prelude::*;
use crate::state::{State, valid_tags};
use crate::tag::{TagInfo, TagModel, has_name, models, unique_names};

verus! {

/// The record after a run over `fetched` that starts from `known`: each fetched
/// tag, in the order fetched, is appended unless a tag of its name is already
/// recorded by then.
pub open spec fn reconciled(known: Seq<TagModel>, fetched: Seq<TagModel>) -> Seq<TagModel>
    decreases fetched.len(),
{
    if fetched.len() == 0 {
        known
    } else {
        let prev = reconciled(known, fetched.drop_last());
        if has_name(prev, fetched.last().name) {
            prev
        } else {
            prev.push(fetched.last())
        }
    }
}

/// A run over two lists in turn is a run over the two joined.
pub proof fn lemma_reconciled_concat(known: Seq<TagModel>, a: Seq<TagModel>, b: Seq<TagModel>)
    ensures
        reconciled(known, a + b) == reconciled(reconciled(known, a), b),
    decreases b.len(),
{
    if b.len() == 0 {
        assert(a + b =~= a);
    } else {
        assert((a + b).drop_last() =~= a + b.drop_last());
        assert((a + b).last() == b.last());
        lemma_reconciled_concat(known, a, b.drop_last());
    }
}

/// A run only appends: the record it starts from is a prefix of the result.
pub proof fn lemma_reconciled_extends(known: Seq<TagModel>, fetched: Seq<TagModel>)
    ensures
        known.len() <= reconciled(known, fetched).len(),
        reconciled(known, fetched).subrange(0, known.len() as int) == known,
    decreases fetched.len(),
{
    if fetched.len() > 0 {
        lemma_reconciled_extends(known, fetched.drop_last());
        let prev = reconciled(known, fetched.drop_last());
        if !has_name(prev, fetched.last().name) {
            assert(prev.push(fetched.last()).subrange(0, known.len() as int) =~= prev.subrange(
                0,
                known.len() as int,
            ));
        }
    }
}

/// Each name that the record holds is still held after a run.
proof fn lemma_has_name_kept(known: Seq<TagModel>, fetched: Seq<TagModel>, name: Seq<char>)
    requires
        has_name(known, name),
    ensures
        has_name(reconciled(known, fetched), name),
{
    lemma_reconciled_extends(known, fetched);
    let r = reconciled(known, fetched);
    let i = choose|i: int| 0 <= i < known.len() && #[trigger] known[i].name == name;
    assert(r.subrange(0, known.len() as int)[i] == r[i]);
}

/// After a run, every fetched name is recorded.
proof fn lemma_fetched_recorded(known: Seq<TagModel>, fetched: Seq<TagModel>)
    ensures
        forall|i: int|
            0 <= i < fetched.len() ==> has_name(reconciled(known, fetched), #[trigger] fetched[i].name),
    decreases fetched.len(),
{
    if fetched.len() > 0 {
        let init = fetched.drop_last();
        lemma_fetched_recorded(known, init);
        let prev = reconciled(known, init);
        let r = reconciled(known, fetched);
        assert forall|i: int| 0 <= i < fetched.len() implies has_name(r, #[trigger] fetched[i].name) by {
            if i < init.len() {
                assert(init[i] == fetched[i]);
                let j = choose|j: int| 0 <= j < prev.len() && #[trigger] prev[j].name == fetched[i].name;
                assert(r[j] == prev[j]);
            } else if !has_name(prev, fetched.last().name) {
                assert(r[prev.len() as int] == fetched.last());
            }
        }
    }
}

/// A run over tags whose names are all recorded changes nothing.
proof fn lemma_all_recorded_unchanged(known: Seq<TagModel>, fetched: Seq<TagModel>)
    requires
        forall|i: int| 0 <= i < fetched.len() ==> has_name(known, #[trigger] fetched[i].name),
    ensures
        reconciled(known, fetched) == known,
    decreases fetched.len(),
{
    if fetched.len() > 0 {
        let init = fetched.drop_last();
        assert forall|i: int| 0 <= i < init.len() implies has_name(known, #[trigger] init[i].name) by {
            assert(init[i] == fetched[i]);
        }
        lemma_all_recorded_unchanged(known, init);
        assert(has_name(known, fetched[fetched.len() - 1].name));
    }
}

/// A run keeps names unique and commit times representable, provided the
/// fetched commit times are.
pub proof fn lemma_reconciled_valid(known: Seq<TagModel>, fetched: Seq<TagModel>)
    requires
        valid_tags(known),
        forall|i: int| 0 <= i < fetched.len() ==> (#[trigger] fetched[i]).commit_time.wf(),
    ensures
        valid_tags(reconciled(known, fetched)),
    decreases fetched.len(),
{
    if fetched.len() > 0 {
        let init = fetched.drop_last();
        assert forall|i: int| 0 <= i < init.len() implies (#[trigger] init[i]).commit_time.wf() by {
            assert(init[i] == fetched[i]);
        }
        lemma_reconciled_valid(known, init);
        let prev = reconciled(known, init);
        let t = fetched.last();
        if !has_name(prev, t.name) {
            let r = prev.push(t);
            assert forall|i: int, j: int|
                0 <= i < r.len() && 0 <= j < r.len() && i != j implies #[trigger] r[i].name
                != #[trigger] r[j].name by {
                if i == prev.len() as int {
                    assert(prev[j].name == r[j].name);
                } else if j == prev.len() as int {
                    assert(prev[i].name == r[i].name);
                } else {
                    assert(prev[i] == r[i] && prev[j] == r[j]);
                }
            }
            assert forall|i: int| 0 <= i < r.len() implies (#[trigger] r[i]).commit_time.wf() by {
                if i < prev.len() {
                    assert(prev[i] == r[i]);
                }
            }
        }
    }
}

/// A run interrupted after the first `done` fetched tags, then run again over
/// the whole list, ends with the record that one uninterrupted run gives: the
/// tags already recorded are skipped and the rest are processed in order.
pub proof fn lemma_resume(known: Seq<TagModel>, fetched: Seq<TagModel>, done: int)
    requires
        0 <= done <= fetched.len(),
    ensures
        reconciled(reconciled(known, fetched.take(done)), fetched) == reconciled(known, fetched),
{
    let first = fetched.take(done);
    let rest = fetched.skip(done);
    let r = reconciled(known, first);
    assert(fetched =~= first + rest);
    lemma_reconciled_concat(known, first, rest);
    lemma_reconciled_concat(r, first, rest);
    lemma_fetched_recorded(known, first);
    lemma_all_recorded_unchanged(r, first);
}

/// A second run over an unchanged list of tags processes no tag.
pub proof fn lemma_idempotent(known: Seq<TagModel>, fetched: Seq<TagModel>)
    ensures
        reconciled(reconciled(known, fetched), fetched) == reconciled(known, fetched),
{
    lemma_resume(known, fetched, fetched.len() as int);
    assert(fetched.take(fetched.len() as int) =~= fetched);
}

/// No run removes or reorders a recorded tag: the record before a run is a
/// prefix of the record after it, and each name recorded before is recorded
/// after.
pub proof fn lemma_monotonic(known: Seq<TagModel>, fetched: Seq<TagModel>)
    ensures
        reconciled(known, fetched).subrange(0, known.len() as int) == known,
        forall|name: Seq<char>|
            has_name(known, name) ==> has_name(#[trigger] reconciled(known, fetched), name),
{
    lemma_reconciled_extends(known, fetched);
    assert forall|name: Seq<char>| has_name(known, name) implies has_name(
        #[trigger] reconciled(known, fetched),
        name,
    ) by {
        lemma_has_name_kept(known, fetched, name);
    }
}

/// Names alone identify tags: once a tag of some name is recorded, a later tag
/// of that name is skipped, whatever its commit time.
pub proof fn lemma_name_keyed(known: Seq<TagModel>, first: TagModel, second: TagModel)
    requires
        first.name == second.name,
    ensures
        reconciled(known, seq![first, second]) == reconciled(known, seq![first]),
{
    let one = seq![first];
    lemma_fetched_recorded(known, one);
    assert(seq![first, second].drop_last() =~= one);
    assert(one.drop_last() =~= Seq::<TagModel>::empty());
}

/// One run of the reconciliation: the record it started from, the fetched tags,
/// and how far through them it has gone.
pub struct Reconciler {
    state: State,
    fetched: Vec<TagInfo>,
    next: usize,
    initial: Ghost<Seq<TagModel>>,
}

impl Reconciler {
    /// The record the run started from.
    pub closed spec fn initial(&self) -> Seq<TagModel> {
        self.initial@
    }

    /// The tags the run goes through, in order.
    pub closed spec fn fetched(&self) -> Seq<TagModel> {
        models(self.fetched@)
    }

    /// How many fetched tags have been gone through.
    pub closed spec fn position(&self) -> int {
        self.next as int
    }

    /// The record as it stands.
    pub closed spec fn current(&self) -> Seq<TagModel> {
        self.state@
    }

    /// The record is the one that a run over the tags gone through gives.
    pub open spec fn wf(&self) -> bool {
        &&& 0 <= self.position() <= self.fetched().len()
        &&& valid_tags(self.current())
        &&& forall|i: int|
            0 <= i < self.fetched().len() ==> (#[trigger] self.fetched()[i]).commit_time.wf()
        &&& self.current() == reconciled(self.initial(), self.fetched().take(self.position()))
    }

    /// The run has gone through every fetched tag.
    pub open spec fn finished(&self) -> bool {
        self.position() == self.fetched().len()
    }

    /// Starts a run from a record and a freshly fetched list of tags.
    pub fn new(state: State, fetched: Vec<TagInfo>) -> (r: Reconciler)
        requires
            state.wf(),
            forall|i: int| 0 <= i < fetched.len() ==> (#[trigger] fetched@[i]).commit_time.wf(),
        ensures
            r.wf(),
            r.initial() == state@,
            r.current() == state@,
            r.fetched() == models(fetched@),
            r.position() == 0,
    {
        let ghost initial = state@;
        let r = Reconciler { state, fetched, next: 0, initial: Ghost(initial) };
        assert forall|i: int| 0 <= i < r.fetched().len() implies (#[trigger] r.fetched()[i]).commit_time.wf() by {
            assert(r.fetched()[i] == r.fetched@[i]@);
        }
        assert(r.fetched().take(0) =~= Seq::<TagModel>::empty());
        r
    }

    /// Moves to the next fetched tag whose name is not recorded, appends it to
    /// the record and returns it; tags already recorded are passed over. Returns
    /// `None`, leaving the record as it is, once every fetched tag has been gone
    /// through.
    pub fn next_new_tag(&mut self) -> (r: Option<TagInfo>)
        requires
            old(self).wf(),
        ensures
            final(self).wf(),
            final(self).initial() == old(self).initial(),
            final(self).fetched() == old(self).fetched(),
            old(self).position() <= final(self).position(),
            final(self).current() == reconciled(
                old(self).current(),
                old(self).fetched().subrange(old(self).position(), final(self).position()),
            ),
            match r {
                Some(t) => {
                    &&& final(self).current() == old(self).current().push(t@)
                    &&& !has_name(old(self).current(), t@.name)
                    &&& old(self).position() < final(self).position()
                    &&& old(self).fetched()[final(self).position() - 1] == t@
                },
                None => {
                    &&& final(self).current() == old(self).current()
                    &&& final(self).finished()
                },
            },
    {
        let ghost start = self.next as int;
        let ghost before = self.state@;
        let ghost f = self.fetched();
        while self.next < self.fetched.len()
            invariant
                self.wf(),
                self.initial() == old(self).initial(),
                f == self.fetched(),
                f == old(self).fetched(),
                self.fetched@ == old(self).fetched@,
                start <= self.next <= f.len(),
                before == self.current(),
                before == old(self).current(),
                start == old(self).position(),
                before == reconciled(before, f.subrange(start, self.next as int)),
            decreases self.fetched.len() - self.next,
        {
            let i = self.next;
            self.next = i + 1;
            assert(f.take(i + 1).drop_last() =~= f.take(i as int));
            assert(f.take(i + 1).last() == f[i as int]);
            assert(f.subrange(start, i + 1).drop_last() =~= f.subrange(start, i as int));
            assert(f.subrange(start, i + 1).last() == f[i as int]);
            assert(f[i as int] == self.fetched@[i as int]@);
            if !self.state.knows(&self.fetched[i].name) {
                let tag = self.fetched[i].clone();
                assert(tag.commit_time.wf());
                self.state.append(tag.clone());
                return Some(tag);
            }
        }
        None
    }

    /// The record as it stands.
    pub fn state(&self) -> (r: &State)
        requires
            self.wf(),
        ensures
            r@ == self.current(),
            r.wf(),
    {
        &self.state
    }

    /// Ends the run, handing back the record.
    pub fn into_state(self) -> (r: State)
        requires
            self.wf(),
        ensures
            r@ == self.current(),
            r.wf(),
    {
        self.state
    }
}

} // verus!
