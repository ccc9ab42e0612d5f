//! The screen of one term: its versions, whether it is being edited or
//! deleted, and the outcome of editing a term as the propagation of its
//! changes reads it.
use vstd::prelude::*;
use crate::drag_and_drop::{self, edits_of, ListEdit};
use crate::model::{FatTerm, FatTermView, NameDescription};
use crate::edit_screen::{term_of, edit_changes, EditChange, EditScreenView, TermScreenPIT};
use crate::placeholder::fresh_rule_placeholder;
use crate::points_in_time::{latest_of, PointsInTime, PointsInTimeView};

verus! {

/// One kind of change made to a term, as the propagation of changes reads
/// it: argument edits carry the argument that was pushed or removed. A new
/// name is no kind of its own there: it shows in the term's name before and
/// after the changes.
pub enum TermChange {
    DescriptionChange,
    FactsChange,
    ArgRename,
    /// The arguments were pushed, moved or removed, by these edits in order.
    ArgChanges(Vec<drag_and_drop::Change<NameDescription>>),
    RuleChanges,
}

/// The mathematical value of a [`TermChange`].
pub enum TermChangeView {
    DescriptionChange,
    FactsChange,
    ArgRename,
    ArgChanges(Seq<ListEdit>),
    RuleChanges,
}

impl View for TermChange {
    type V = TermChangeView;

    open spec fn view(&self) -> TermChangeView {
        match self {
            TermChange::DescriptionChange => TermChangeView::DescriptionChange,
            TermChange::FactsChange => TermChangeView::FactsChange,
            TermChange::ArgRename => TermChangeView::ArgRename,
            TermChange::ArgChanges(changes) => TermChangeView::ArgChanges(edits_of(changes@)),
            TermChange::RuleChanges => TermChangeView::RuleChanges,
        }
    }
}

/// The views of a sequence of term changes.
pub open spec fn term_changes_view(changes: Seq<TermChange>) -> Seq<TermChangeView> {
    changes.map_values(|c: TermChange| c@)
}

/// The outcome of editing a term.
pub enum Change {
    /// The changes made, the term's name before them, and the term after them.
    Changes(Vec<TermChange>, String, FatTerm),
    /// The term of this name was deleted.
    Deleted(String),
}


/// What a term screen hands out when an editing session ends.
pub enum Output {
    /// The term was changed by these changes into the given term.
    Changes(Vec<EditChange>, FatTerm),
    /// The term of this name is to be deleted.
    Deleted(String),
}

/// The mathematical value of a [`TermScreen`].
pub struct TermScreenView {
    /// The versions of the term.
    pub pits: PointsInTimeView,
    /// The version shown, or `None` while the edited term is shown.
    pub showing: Option<usize>,
    /// The edit screen, while an editing session runs.
    pub editing: Option<EditScreenView>,
    /// The text typed to confirm a deletion.
    pub delete_confirmation: Seq<char>,
    /// Whether the term is to be deleted.
    pub in_deletion: bool,
}

/// Whether an edit screen holds a session that has just begun on `t`: it
/// shows `t`, its lists are editable and recorded no edit, and its
/// placeholders are empty.
pub open spec fn fresh_session(e: EditScreenView, t: FatTermView) -> bool {
    &&& term_of(e) == t
    &&& e.original_name == t.name
    &&& e.arguments.active && e.rules.active && e.facts.active
    &&& e.arguments.list.changes.len() == 0 && e.rules.list.changes.len() == 0
        && e.facts.list.changes.len() == 0
    &&& !e.arguments.list.order_has_changed && !e.rules.list.order_has_changed
        && !e.facts.list.order_has_changed
    &&& e.fact_placeholder == Seq::<Seq<char>>::empty() && e.fact_editing is None
    &&& e.rule_placeholder == fresh_rule_placeholder() && e.rule_editing is None
    &&& e.arg_placeholder == (Seq::<char>::empty(), Seq::<char>::empty())
    &&& !e.arg_rename && !e.description_change
}

/// A new screen that shows `term`, which has not changed yet.
pub open spec fn viewing_view(term: FatTermView) -> TermScreenView {
    TermScreenView {
        pits: PointsInTimeView { original: term, pits: Seq::empty(), sources: Seq::empty() },
        showing: Some(0),
        editing: None,
        delete_confirmation: Seq::empty(),
        in_deletion: false,
    }
}

/// Whether `v` is a new screen of `term`: it shows the term, or, when
/// `in_edit`, holds a session that has just begun on it.
pub open spec fn new_screen(v: TermScreenView, term: FatTermView, in_edit: bool) -> bool {
    if in_edit {
        &&& v.pits == PointsInTimeView { original: term, pits: Seq::empty(), sources: Seq::empty() }
        &&& v.showing is None
        &&& v.editing matches Some(e) && fresh_session(e, term)
        &&& v.delete_confirmation == Seq::<char>::empty()
        &&& !v.in_deletion
    } else {
        v == viewing_view(term)
    }
}

/// The screen of one term.
pub struct TermScreen {
    points_in_time: PointsInTime,
    showing_point_in_time: Option<usize>,
    current: Option<TermScreenPIT>,
    delete_confirmation: String,
    in_deletion: bool,
}

impl View for TermScreen {
    type V = TermScreenView;

    closed spec fn view(&self) -> TermScreenView {
        TermScreenView {
            pits: self.points_in_time@,
            showing: self.showing_point_in_time,
            editing: match self.current {
                Some(t) => Some(t@),
                None => None,
            },
            delete_confirmation: self.delete_confirmation@,
            in_deletion: self.in_deletion,
        }
    }
}

/// The word to type to confirm a deletion.
pub open spec fn deletion_word() -> Seq<char> {
    "delete"@
}

impl TermScreen {
    /// Validity: the versions and the edit screen are valid, a shown version
    /// exists, when no version is shown an editing session runs, and a term
    /// marked for deletion is not being edited.
    pub closed spec fn wf(&self) -> bool {
        &&& self.points_in_time.wf()
        &&& self.showing_point_in_time matches Some(i) ==> i <= self.points_in_time@.pits.len()
        &&& self.showing_point_in_time is None ==> self.current is Some
        &&& self.current matches Some(c) ==> c.wf()
        &&& self.in_deletion ==> self.current is None
    }

    /// A new screen of `term`, which has not changed yet: it shows the term,
    /// or edits it when `in_edit`.
    pub fn new(term: &FatTerm, in_edit: bool) -> (res: Self)
        ensures
            res.wf(),
            new_screen(res@, term@, in_edit),
    {
        let current = if in_edit {
            let mut screen = TermScreenPIT::new(term);
            screen.start_changes();
            Some(screen)
        } else {
            None
        };
        Self {
            points_in_time: PointsInTime::new(term),
            showing_point_in_time: if in_edit {
                None
            } else {
                Some(0)
            },
            current,
            delete_confirmation: String::new(),
            in_deletion: false,
        }
    }

    /// Shows the version at `pit_idx`, if there is one.
    pub fn choose_pit(&mut self, pit_idx: usize)
        requires
            old(self).wf(),
        ensures
            final(self).wf(),
            final(self)@ == if pit_idx <= old(self)@.pits.pits.len() {
                TermScreenView { showing: Some(pit_idx), ..old(self)@ }
            } else {
                old(self)@
            },
    {
        if pit_idx < self.points_in_time.len() {
            self.showing_point_in_time = Some(pit_idx);
        }
    }

    /// The most recent version of the term.
    pub fn extract_term(&self) -> (res: FatTerm)
        ensures
            res@ == latest_of(self@.pits),
    {
        self.points_in_time.latest().copy()
    }

    /// Whether the term is to be deleted.
    pub fn in_deletion(&self) -> (res: bool)
        ensures
            res == self@.in_deletion,
    {
        self.in_deletion
    }

    /// The versions of the term.
    pub fn get_pits(&self) -> (res: &PointsInTime)
        ensures
            res@ == self@.pits,
    {
        &self.points_in_time
    }

    /// Records a new version of the term, caused by the term `source`.
    pub fn push_pit(&mut self, term: &FatTerm, source: &str)
        requires
            old(self).wf(),
            old(self)@.pits.pits.len() + 1 < usize::MAX,
        ensures
            final(self).wf(),
            final(self)@ == (TermScreenView {
                pits: PointsInTimeView {
                    pits: old(self)@.pits.pits.push(term@),
                    sources: old(self)@.pits.sources.push(
                        if source@ == latest_of(old(self)@.pits).name {
                            None
                        } else {
                            Some(source@)
                        },
                    ),
                    ..old(self)@.pits
                },
                ..old(self)@
            }),
    {
        self.points_in_time.push_pit(term, source);
    }

    /// Records a new version of the term, caused by the term `source`, and
    /// shows it for the user to confirm.
    pub fn push_for_confirmation(&mut self, term: &FatTerm, source: &str)
        requires
            old(self).wf(),
            old(self)@.pits.pits.len() + 1 < usize::MAX,
        ensures
            final(self).wf(),
            final(self)@ == (TermScreenView {
                pits: PointsInTimeView {
                    pits: old(self)@.pits.pits.push(term@),
                    sources: old(self)@.pits.sources.push(
                        if source@ == latest_of(old(self)@.pits).name {
                            None
                        } else {
                            Some(source@)
                        },
                    ),
                    ..old(self)@.pits
                },
                showing: Some((old(self)@.pits.pits.len() + 1) as usize),
                ..old(self)@
            }),
    {
        self.push_pit(term, source);
        let pits_count = self.points_in_time.len();
        self.choose_pit(pits_count - 1);
    }

    /// Whether a change can be made to the term: no editing session runs.
    pub fn is_ready_for_change(&self) -> (res: bool)
        ensures
            res == (self@.editing is None),
    {
        self.current.is_none()
    }

    /// The term's name, as it was before any of its versions changed it.
    pub fn name(&self) -> (res: String)
        ensures
            res@ == self@.pits.original.name,
    {
        self.points_in_time.original().meta.term.name.clone()
    }

    /// Whether an editing session runs.
    pub fn in_edit(&self) -> (res: bool)
        ensures
            res == (self@.editing is Some),
    {
        self.current.is_some()
    }

    /// The version shown, or `None` while the edited term is shown.
    pub fn showing(&self) -> (res: Option<usize>)
        ensures
            res == self@.showing,
    {
        self.showing_point_in_time
    }

    /// The term the screen shows: the chosen version, or the term being
    /// edited.
    pub fn shown(&self) -> (res: FatTerm)
        requires
            self.wf(),
        ensures
            res@ == match self@.showing {
                Some(i) => if i == 0 {
                    self@.pits.original
                } else {
                    self@.pits.pits[i - 1]
                },
                None => term_of(self@.editing->Some_0),
            },
    {
        match self.showing_point_in_time {
            Some(i) => self.points_in_time.pit_at(i).copy(),
            None => match &self.current {
                Some(screen) => screen.extract_term(),
                None => self.points_in_time.original().copy(),
            },
        }
    }

    /// The edit screen of the running session.
    pub fn editing_mut(&mut self) -> (res: &mut TermScreenPIT)
        requires
            old(self).wf(),
            old(self)@.editing is Some,
        ensures
            res.wf(),
            (*res)@ == old(self)@.editing->Some_0,
            final(self)@ == (TermScreenView { editing: Some((*final(res))@), ..old(self)@ }),
            (*final(res)).wf() ==> final(self).wf(),
    {
        self.current.as_mut().unwrap()
    }

    /// Starts an editing session on the most recent version, which the
    /// screen then shows.
    pub fn start_edit(&mut self)
        requires
            old(self).wf(),
            !old(self)@.in_deletion,
            old(self)@.editing is None,
        ensures
            final(self).wf(),
            final(self)@.editing matches Some(e) && fresh_session(e, latest_of(old(self)@.pits)),
            final(self)@ == (TermScreenView {
                showing: None,
                editing: final(self)@.editing,
                ..old(self)@
            }),
    {
        let mut screen = TermScreenPIT::new(self.points_in_time.latest());
        screen.start_changes();
        self.showing_point_in_time = None;
        self.current = Some(screen);
    }

    /// Ends the editing session: the most recent version is shown again, and
    /// what the session changed, if anything, is handed out.
    pub fn finish_edit(&mut self) -> (res: Option<Output>)
        requires
            old(self).wf(),
            !old(self)@.in_deletion,
            old(self)@.editing is Some,
        ensures
            final(self).wf(),
            final(self)@ == (TermScreenView {
                showing: Some(old(self)@.pits.pits.len() as usize),
                editing: None,
                ..old(self)@
            }),
            ({
                let e = old(self)@.editing->Some_0;
                if edit_changes(e).len() > 0 {
                    res matches Some(Output::Changes(c, t)) && c@.map_values(|x: EditChange| x@)
                        == edit_changes(e) && t@ == term_of(e)
                } else {
                    res is None
                }
            }),
    {
        let mut current: Option<TermScreenPIT> = None;
        std::mem::swap(&mut current, &mut self.current);
        self.showing_point_in_time = Some(self.points_in_time.len() - 1);
        match current {
            Some(mut screen) => match screen.finish_changes() {
                Some((changes, updated_term)) => Some(Output::Changes(changes, updated_term)),
                None => None,
            },
            None => None,
        }
    }

    /// Sets the text typed to confirm a deletion.
    pub fn set_delete_confirmation(&mut self, text: String)
        requires
            old(self).wf(),
        ensures
            final(self).wf(),
            final(self)@ == (TermScreenView { delete_confirmation: text@, ..old(self)@ }),
    {
        self.delete_confirmation = text;
    }

    /// Deletes the term during an editing session, if the deletion was
    /// confirmed by typing `delete`: the session ends, the most recent
    /// version is shown, the term is marked for deletion and its name is
    /// handed out. Without the confirmation nothing happens.
    pub fn delete(&mut self) -> (res: Option<Output>)
        requires
            old(self).wf(),
            old(self)@.editing is Some,
        ensures
            final(self).wf(),
            if old(self)@.delete_confirmation == deletion_word() {
                &&& res matches Some(Output::Deleted(name)) && name@ == old(self)@.pits.original.name
                &&& final(self)@ == (TermScreenView {
                    showing: Some(old(self)@.pits.pits.len() as usize),
                    editing: None,
                    in_deletion: true,
                    ..old(self)@
                })
            } else {
                &&& res is None
                &&& final(self)@ == old(self)@
            },
    {
        let word = "delete".to_owned();
        if self.delete_confirmation == word {
            let name = self.name();
            self.current = None;
            self.showing_point_in_time = Some(self.points_in_time.len() - 1);
            self.in_deletion = true;
            return Some(Output::Deleted(name));
        }
        None
    }
}

/// Deletion is final: a valid screen marked for deletion runs no editing
/// session, so it can be neither edited again nor deleted a second time
/// (`start_edit`, `finish_edit` and `delete` each require the opposite).
pub proof fn lemma_deletion_is_absorbing(s: &TermScreen)
    requires
        s.wf(),
    ensures
        s@.in_deletion ==> s@.editing is None,
{
}

} // verus!
