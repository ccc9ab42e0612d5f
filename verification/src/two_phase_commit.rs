//! The approvals that a change of a term waits for before it is committed,
//! when the change reaches other terms that must approve it.
use vstd::prelude::*;
use crate::model::{contains_string, copy_strings, strings_view};

verus! {

/// The mathematical value of a [`TwoPhaseCommit`].
pub struct TwoPhaseCommitView {
    /// The name of the term whose change this is.
    pub origin: Seq<char>,
    /// Whether the change started at this term.
    pub is_initiator: bool,
    /// The terms whose approval is still awaited.
    pub waiting: Set<Seq<char>>,
    /// The terms that approved.
    pub approved: Set<Seq<char>>,
    /// The terms whose changes wait for this term's approval, in the order
    /// they started waiting.
    pub waiters: Seq<Seq<char>>,
}

/// The set of names a sequence of strings holds.
pub open spec fn name_set(v: Seq<String>) -> Set<Seq<char>> {
    strings_view(v).to_set()
}

/// A commit after the term `name` approved it: an awaited approval is
/// recorded, any other leaves the commit as it was.
pub open spec fn approved_by(v: TwoPhaseCommitView, name: Seq<char>) -> TwoPhaseCommitView {
    if v.waiting.contains(name) {
        TwoPhaseCommitView {
            waiting: v.waiting.remove(name),
            approved: v.approved.insert(name),
            ..v
        }
    } else {
        v
    }
}

/// A change of one term within a change of several.
pub struct TwoPhaseCommit {
    origin: String,
    is_initiator: bool,
    waiting_for_approval_from: Vec<String>,
    had_approval_from: Vec<String>,
    awaiting_approval: Vec<String>,
}

impl View for TwoPhaseCommit {
    type V = TwoPhaseCommitView;

    closed spec fn view(&self) -> TwoPhaseCommitView {
        TwoPhaseCommitView {
            origin: self.origin@,
            is_initiator: self.is_initiator,
            waiting: name_set(self.waiting_for_approval_from@),
            approved: name_set(self.had_approval_from@),
            waiters: strings_view(self.awaiting_approval@),
        }
    }
}

/// Appends `s` to `v` unless a string equal to it is there already.
fn insert_name(v: &mut Vec<String>, s: &String)
    requires
        strings_view(old(v)@).no_duplicates(),
    ensures
        strings_view(final(v)@).no_duplicates(),
        name_set(final(v)@) == name_set(old(v)@).insert(s@),
{
    if !contains_string(v, s) {
        let ghost before = strings_view(v@);
        v.push(s.clone());
        assert(strings_view(v@) =~= before.push(s@));
        assert forall|i: int, j: int|
            0 <= i < strings_view(v@).len() && 0 <= j < strings_view(v@).len() && i != j implies
            strings_view(v@)[i] != strings_view(v@)[j] by {
            if i == before.len() as int {
                assert(before.contains(before[j]));
            } else if j == before.len() as int {
                assert(before.contains(before[i]));
            }
        }
        assert forall|x: Seq<char>| #[trigger] name_set(v@).contains(x) == name_set(old(v)@).insert(
            s@,
        ).contains(x) by {
            if x == s@ {
                assert(strings_view(v@)[before.len() as int] == x);
            } else if before.contains(x) {
                let k = choose|k: int| 0 <= k < before.len() && before[k] == x;
                assert(strings_view(v@)[k] == x);
            } else if strings_view(v@).contains(x) {
                let k = choose|k: int| 0 <= k < strings_view(v@).len() && strings_view(v@)[k] == x;
                assert(k < before.len());
                assert(before[k] == x);
            }
        }
        assert(name_set(v@) =~= name_set(old(v)@).insert(s@));
    } else {
        assert(name_set(v@) =~= name_set(old(v)@).insert(s@));
    }
}

impl TwoPhaseCommit {
    /// No name is held twice among the awaited and among the approved terms.
    pub closed spec fn wf(&self) -> bool {
        &&& strings_view(self.waiting_for_approval_from@).no_duplicates()
        &&& strings_view(self.had_approval_from@).no_duplicates()
    }

    /// The change of the term `origin`, which waits for no approval yet.
    pub fn new(origin: &str, is_initiator: bool) -> (res: Self)
        ensures
            res.wf(),
            res@ == (TwoPhaseCommitView {
                origin: origin@,
                is_initiator,
                waiting: Set::empty(),
                approved: Set::empty(),
                waiters: Seq::empty(),
            }),
    {
        let res = Self {
            origin: origin.to_owned(),
            is_initiator,
            waiting_for_approval_from: Vec::new(),
            had_approval_from: Vec::new(),
            awaiting_approval: Vec::new(),
        };
        assert(res@.waiting =~= Set::<Seq<char>>::empty());
        assert(res@.approved =~= Set::<Seq<char>>::empty());
        assert(res@.waiters =~= Seq::<Seq<char>>::empty());
        res
    }

    /// Whether the change started at this term.
    pub fn is_initiator(&self) -> (res: bool)
        ensures
            res == self@.is_initiator,
    {
        self.is_initiator
    }

    /// The name of the term whose change this is.
    pub fn origin(&self) -> (res: String)
        ensures
            res@ == self@.origin,
    {
        self.origin.clone()
    }

    /// Whether other terms' changes wait for this term's approval.
    pub fn is_being_waited(&self) -> (res: bool)
        ensures
            res == (self@.waiters.len() > 0),
    {
        self.awaiting_approval.len() > 0
    }

    /// Records that the change of the term `waiter` waits for this term's
    /// approval.
    pub fn add_approval_waiter(&mut self, waiter: String)
        requires
            old(self).wf(),
        ensures
            final(self).wf(),
            final(self)@ == (TwoPhaseCommitView {
                waiters: old(self)@.waiters.push(waiter@),
                ..old(self)@
            }),
    {
        self.awaiting_approval.push(waiter);
        assert(strings_view(self.awaiting_approval@) =~= old(self)@.waiters.push(waiter@));
    }

    /// Approves every change that waits for this term: each commit among
    /// `commits` whose term waits for this one records the approval of
    /// `name`, the name of this term, and the waiters are forgotten.
    pub fn approve_all(&mut self, name: &str, commits: &mut Vec<TwoPhaseCommit>)
        requires
            old(self).wf(),
            forall|i: int| 0 <= i < old(commits)@.len() ==> (#[trigger] old(commits)@[i]).wf(),
        ensures
            final(self).wf(),
            final(self)@ == (TwoPhaseCommitView { waiters: Seq::empty(), ..old(self)@ }),
            final(commits)@.len() == old(commits)@.len(),
            forall|i: int|
                0 <= i < final(commits)@.len() ==> (#[trigger] final(commits)@[i]).wf()
                    && final(commits)@[i]@ == if old(self)@.waiters.contains(
                    old(commits)@[i]@.origin,
                ) {
                    approved_by(old(commits)@[i]@, name@)
                } else {
                    old(commits)@[i]@
                },
    {
        let mut i: usize = 0;
        while i < commits.len()
            invariant
                i <= commits@.len(),
                *self == *old(self),
                self.wf(),
                commits@.len() == old(commits)@.len(),
                forall|j: int| 0 <= j < commits@.len() ==> (#[trigger] commits@[j]).wf(),
                forall|j: int| i <= j < commits@.len() ==> #[trigger] commits@[j] == old(commits)@[j],
                forall|j: int|
                    0 <= j < i ==> (#[trigger] commits@[j])@ == if old(self)@.waiters.contains(
                        old(commits)@[j]@.origin,
                    ) {
                        approved_by(old(commits)@[j]@, name@)
                    } else {
                        old(commits)@[j]@
                    },
            decreases commits@.len() - i,
        {
            if contains_string(&self.awaiting_approval, &commits[i].origin) {
                commits[i].approve_from(name);
            }
            i = i + 1;
        }
        self.awaiting_approval.clear();
        assert(strings_view(self.awaiting_approval@) =~= Seq::<Seq<char>>::empty());
    }

    /// Whether this change still waits for the approval of some term.
    pub fn is_waiting(&self) -> (res: bool)
        ensures
            res == (self@.waiting != Set::<Seq<char>>::empty()),
    {
        let res = self.waiting_for_approval_from.len() > 0;
        if res {
            assert(strings_view(self.waiting_for_approval_from@)[0] == self.waiting_for_approval_from@[0]@);
            assert(self@.waiting.contains(self.waiting_for_approval_from@[0]@));
        } else {
            assert(self@.waiting =~= Set::<Seq<char>>::empty());
        }
        res
    }

    /// Adds the terms `approval_from` to those whose approval is awaited.
    pub fn append_approval_from(&mut self, approval_from: &[String])
        requires
            old(self).wf(),
        ensures
            final(self).wf(),
            final(self)@ == (TwoPhaseCommitView {
                waiting: old(self)@.waiting.union(strings_view(approval_from@).to_set()),
                ..old(self)@
            }),
    {
        let mut i: usize = 0;
        while i < approval_from.len()
            invariant
                i <= approval_from@.len(),
                self.wf(),
                self.origin == old(self).origin,
                self.is_initiator == old(self).is_initiator,
                self.had_approval_from == old(self).had_approval_from,
                self.awaiting_approval == old(self).awaiting_approval,
                self@.waiting == old(self)@.waiting.union(
                    strings_view(approval_from@.take(i as int)).to_set(),
                ),
            decreases approval_from@.len() - i,
        {
            let ghost before = self@.waiting;
            insert_name(&mut self.waiting_for_approval_from, &approval_from[i]);
            let ghost prefix = strings_view(approval_from@.take(i as int));
            assert(strings_view(approval_from@.take(i + 1)) =~= prefix.push(approval_from@[i as int]@));
            i = i + 1;
            assert forall|x: Seq<char>| #[trigger] self@.waiting.contains(x) == old(
                self,
            )@.waiting.union(strings_view(approval_from@.take(i as int)).to_set()).contains(x) by {
                let now = strings_view(approval_from@.take(i as int));
                if prefix.contains(x) {
                    let k = choose|k: int| 0 <= k < prefix.len() && prefix[k] == x;
                    assert(now[k] == x);
                }
                if now.contains(x) && x != now[now.len() - 1] {
                    let k = choose|k: int| 0 <= k < now.len() && now[k] == x;
                    assert(k < prefix.len());
                    assert(prefix[k] == x);
                }
                assert(now[now.len() - 1] == approval_from@[i - 1]@);
            }
            assert(self@.waiting =~= old(self)@.waiting.union(
                strings_view(approval_from@.take(i as int)).to_set(),
            ));
        }
        assert(approval_from@.take(i as int) =~= approval_from@);
    }

    /// The terms whose approval is still awaited, each once.
    pub fn waiting_for(&self) -> (res: Vec<String>)
        requires
            self.wf(),
        ensures
            strings_view(res@).no_duplicates(),
            name_set(res@) == self@.waiting,
    {
        copy_strings(&self.waiting_for_approval_from)
    }

    /// The terms that approved, each once.
    pub fn approved(&self) -> (res: Vec<String>)
        requires
            self.wf(),
        ensures
            strings_view(res@).no_duplicates(),
            name_set(res@) == self@.approved,
    {
        copy_strings(&self.had_approval_from)
    }

    /// Records the approval of the term `approved`, if it is awaited: it is
    /// no longer awaited and counts as approved. An approval that is not
    /// awaited changes nothing.
    pub fn approve_from(&mut self, approved: &str)
        requires
            old(self).wf(),
        ensures
            final(self).wf(),
            final(self)@ == approved_by(old(self)@, approved@),
    {
        let name = approved.to_owned();
        let ghost w = strings_view(self.waiting_for_approval_from@);
        let mut idx: usize = 0;
        while idx < self.waiting_for_approval_from.len()
            invariant
                idx <= self.waiting_for_approval_from@.len(),
                self == old(self),
                w == strings_view(self.waiting_for_approval_from@),
                name@ == approved@,
                forall|k: int| 0 <= k < idx ==> w[k] != name@,
            ensures
                idx <= w.len(),
                idx < w.len() ==> w[idx as int] == name@,
                forall|k: int| 0 <= k < idx ==> w[k] != name@,
            decreases self.waiting_for_approval_from@.len() - idx,
        {
            if self.waiting_for_approval_from[idx] == name {
                break;
            }
            idx = idx + 1;
        }
        if idx < self.waiting_for_approval_from.len() {
            assert(w[idx as int] == name@);
            self.waiting_for_approval_from.remove(idx);
            let ghost after = strings_view(self.waiting_for_approval_from@);
            assert(after =~= w.remove(idx as int));
            assert forall|i: int, j: int|
                0 <= i < after.len() && 0 <= j < after.len() && i != j implies after[i] != after[j] by {
                let oi = if i < idx { i } else { i + 1 };
                let oj = if j < idx { j } else { j + 1 };
                assert(after[i] == w[oi]);
                assert(after[j] == w[oj]);
            }
            assert forall|x: Seq<char>| #[trigger] after.to_set().contains(x) == w.to_set().remove(
                name@,
            ).contains(x) by {
                if after.contains(x) {
                    let k = choose|k: int| 0 <= k < after.len() && after[k] == x;
                    let ok = if k < idx { k } else { k + 1 };
                    assert(w[ok] == x);
                    assert(ok != idx);
                }
                if w.contains(x) && x != name@ {
                    let k = choose|k: int| 0 <= k < w.len() && w[k] == x;
                    assert(k != idx);
                    let nk = if k < idx { k } else { k - 1 };
                    assert(after[nk] == x);
                }
            }
            assert(after.to_set() =~= w.to_set().remove(name@));
            insert_name(&mut self.had_approval_from, &name);
        } else {
            assert(!w.contains(approved@));
        }
    }
}

/// Whether no commit among `commits` still waits for an approval, so that
/// the change of several terms may be committed.
pub fn ready_for_commit(commits: &Vec<TwoPhaseCommit>) -> (res: bool)
    ensures
        res == forall|i: int|
            0 <= i < commits@.len() ==> (#[trigger] commits@[i])@.waiting == Set::<Seq<char>>::empty(),
{
    let mut i: usize = 0;
    while i < commits.len()
        invariant
            i <= commits@.len(),
            forall|j: int| 0 <= j < i ==> (#[trigger] commits@[j])@.waiting == Set::<Seq<char>>::empty(),
        decreases commits@.len() - i,
    {
        if commits[i].is_waiting() {
            return false;
        }
        i = i + 1;
    }
    true
}

} // verus!
