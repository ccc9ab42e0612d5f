//! The tabs of the editor: the query tab and one tab per opened term, with
//! the tab that is selected.
use vstd::prelude::*;
use crate::ask::push_char;
use crate::model::{contains_string, strings_view, Comment, FatTerm, FatTermView, NameDescription, Term};
use crate::edit_screen::EditScreenView;
use crate::term_screen::{fresh_session, new_screen, viewing_view, TermScreen, TermScreenView};
use crate::terms_filter::{lookup, TermsFilter};

verus! {

/// The selected tab.
#[derive(PartialEq, Eq, Structural)]
pub enum ChosenTab {
    /// The query tab.
    Ask,
    /// The tab of the term screen at this position.
    Term(usize),
}

/// The mathematical value of [`Tabs`]: the selected tab and the screens of
/// the opened terms, in tab order.
pub struct TabsView {
    pub selection: ChosenTab,
    pub screens: Seq<TermScreenView>,
}

/// The name of the term a screen shows.
pub open spec fn screen_name(s: TermScreenView) -> Seq<char> {
    s.pits.original.name
}

/// The first position of a screen of the term `name`, if any.
pub open spec fn position_of(screens: Seq<TermScreenView>, name: Seq<char>) -> Option<int>
    decreases screens.len(),
{
    if screens.len() == 0 {
        None
    } else {
        match position_of(screens.drop_last(), name) {
            Some(i) => Some(i),
            None => if screen_name(screens.last()) == name {
                Some(screens.len() - 1)
            } else {
                None
            },
        }
    }
}

/// The first position of a screen of `name` is a position of the screens
/// where `name` stands, and no earlier one holds it; without such a
/// position no screen holds it.
pub proof fn lemma_position_of(screens: Seq<TermScreenView>, name: Seq<char>)
    ensures
        match position_of(screens, name) {
            Some(i) => 0 <= i < screens.len() && screen_name(screens[i]) == name && forall|j: int|
                0 <= j < i ==> screen_name(#[trigger] screens[j]) != name,
            None => forall|j: int| 0 <= j < screens.len() ==> screen_name(#[trigger] screens[j]) != name,
        },
    decreases screens.len(),
{
    if screens.len() > 0 {
        let prefix = screens.drop_last();
        lemma_position_of(prefix, name);
        assert forall|j: int| 0 <= j < prefix.len() implies prefix[j] == screens[j] by {}
    }
}

/// The position found by a scan that stopped at the first screen of `name`.
pub proof fn lemma_position_at(screens: Seq<TermScreenView>, name: Seq<char>, i: int)
    requires
        0 <= i < screens.len(),
        screen_name(screens[i]) == name,
        forall|j: int| 0 <= j < i ==> screen_name(#[trigger] screens[j]) != name,
    ensures
        position_of(screens, name) == Some(i),
{
    lemma_position_of(screens, name);
}

/// The label of a screen's tab: `untitled` for a term without a name, the
/// name followed by `*` while the term is edited, the name otherwise.
pub open spec fn tab_label_of(s: TermScreenView) -> Seq<char> {
    if screen_name(s).len() == 0 {
        "untitled"@
    } else if s.editing is Some {
        screen_name(s).push('*')
    } else {
        screen_name(s)
    }
}

/// The selection after the tab at `closed` was closed: a closed selected
/// tab selects the query tab, and a selected tab after the closed one moves
/// one position back.
pub open spec fn selection_after_close(selection: ChosenTab, closed: usize) -> ChosenTab {
    match selection {
        ChosenTab::Term(cur) => if closed == cur {
            ChosenTab::Ask
        } else if closed < cur {
            ChosenTab::Term((cur - 1) as usize)
        } else {
            selection
        },
        ChosenTab::Ask => ChosenTab::Ask,
    }
}

/// The selection after the tab at `closed` was closed among `len` tabs,
/// with the rule that keeps a term tab selected where it can: the query tab
/// when the last tab closes, the same tab one position back when an earlier
/// tab closes, and otherwise the same position, or the new last tab when it
/// would lie beyond the tabs.
pub open spec fn selection_after_request_close(selection: ChosenTab, closed: usize, len: nat) -> ChosenTab {
    if len == 1 {
        ChosenTab::Ask
    } else {
        match selection {
            ChosenTab::Term(cur) => if closed < cur {
                ChosenTab::Term((cur - 1) as usize)
            } else if cur <= len - 2 {
                selection
            } else {
                ChosenTab::Term((len - 2) as usize)
            },
            ChosenTab::Ask => ChosenTab::Ask,
        }
    }
}

/// Whether the selected tab exists: a selected term tab is one of the open
/// ones.
pub open spec fn selection_valid(t: TabsView) -> bool {
    t.selection matches ChosenTab::Term(i) ==> i < t.screens.len()
}

/// Whether closing the tab of `name` leaves the selection pointing past the
/// tabs: the closed tab stands before the selected one, whose position is
/// kept.
pub open spec fn close_shifts_selection(t: TabsView, name: Seq<char>) -> bool {
    &&& position_of(t.screens, name) is Some
    &&& t.selection matches ChosenTab::Term(cur) && position_of(t.screens, name)->Some_0 < cur
}

/// A term with no name, description, arguments, facts or rules.
pub open spec fn empty_term_view() -> FatTermView {
    FatTermView {
        name: Seq::empty(),
        desc: Seq::empty(),
        args: Seq::empty(),
        referred_by: Seq::empty(),
        facts: Seq::empty(),
        rules: Seq::empty(),
    }
}

/// Updating a screen updates its view.
proof fn lemma_update_views(v: Seq<TermScreen>, i: int, x: TermScreen)
    requires
        0 <= i < v.len(),
    ensures
        v.update(i, x).map_values(|s: TermScreen| s@) == v.map_values(|s: TermScreen| s@).update(
            i,
            x@,
        ),
{
    assert(v.update(i, x).map_values(|s: TermScreen| s@) =~= v.map_values(|s: TermScreen| s@).update(
        i,
        x@,
    ));
}

/// The tabs of the editor.
pub struct Tabs {
    current_selection: ChosenTab,
    term_screens: Vec<TermScreen>,
}

impl View for Tabs {
    type V = TabsView;

    closed spec fn view(&self) -> TabsView {
        TabsView {
            selection: self.current_selection,
            screens: self.term_screens@.map_values(|s: TermScreen| s@),
        }
    }
}

impl Tabs {
    /// Validity: every screen is valid.
    pub closed spec fn wf(&self) -> bool {
        forall|i: int| 0 <= i < self.term_screens@.len() ==> #[trigger] self.term_screens@[i].wf()
    }

    /// The query tab, selected, and no term tab.
    pub fn new() -> (res: Self)
        ensures
            res.wf(),
            res@.selection == ChosenTab::Ask,
            res@.screens == Seq::<TermScreenView>::empty(),
    {
        let res = Self { current_selection: ChosenTab::Ask, term_screens: Vec::new() };
        assert(res@.screens =~= Seq::<TermScreenView>::empty());
        res
    }

    /// The selected tab.
    pub fn selection(&self) -> (res: ChosenTab)
        ensures
            res == self@.selection,
    {
        match self.current_selection {
            ChosenTab::Ask => ChosenTab::Ask,
            ChosenTab::Term(i) => ChosenTab::Term(i),
        }
    }

    /// The number of term tabs.
    pub fn len(&self) -> (res: usize)
        ensures
            res == self@.screens.len(),
    {
        self.term_screens.len()
    }

    /// The screen at position `idx`.
    pub fn screen(&self, idx: usize) -> (res: &TermScreen)
        requires
            self.wf(),
            idx < self@.screens.len(),
        ensures
            res.wf(),
            res@ == self@.screens[idx as int],
    {
        &self.term_screens[idx]
    }

    /// The screen at position `idx`, to be acted on in place; the tabs stay
    /// valid when the screen does.
    pub fn screen_mut(&mut self, idx: usize) -> (res: &mut TermScreen)
        requires
            old(self).wf(),
            idx < old(self)@.screens.len(),
        ensures
            res.wf(),
            (*res)@ == old(self)@.screens[idx as int],
            final(self)@ == (TabsView {
                screens: old(self)@.screens.update(idx as int, (*final(res))@),
                ..old(self)@
            }),
            (*final(res)).wf() ==> final(self).wf(),
    {
        let r = &mut self.term_screens[idx];
        proof {
            lemma_update_views(old(self).term_screens@, idx as int, *final(r));
        }
        r
    }

    /// Opens a tab that shows `term`, without selecting it.
    pub fn push(&mut self, term: &FatTerm)
        requires
            old(self).wf(),
        ensures
            selection_valid(old(self)@) ==> selection_valid(final(self)@),
            final(self).wf(),
            final(self)@.selection == old(self)@.selection,
            final(self)@.screens.len() == old(self)@.screens.len() + 1,
            final(self)@.screens.take(old(self)@.screens.len() as int) == old(self)@.screens,
            final(self)@.screens.last() == viewing_view(term@),
    {
        let screen = TermScreen::new(term, false);
        self.term_screens.push(screen);
        assert(self@.screens.take(old(self)@.screens.len() as int) =~= old(self)@.screens);
    }

    /// Opens a tab with a new, empty term being edited, and selects it.
    pub fn add_new_term(&mut self)
        requires
            old(self).wf(),
        ensures
            selection_valid(final(self)@),
            final(self).wf(),
            final(self)@.selection == ChosenTab::Term(old(self)@.screens.len() as usize),
            final(self)@.screens.len() == old(self)@.screens.len() + 1,
            final(self)@.screens.take(old(self)@.screens.len() as int) == old(self)@.screens,
            new_screen(final(self)@.screens.last(), empty_term_view(), true),
    {
        let empty = FatTerm::new(
            Comment::new(NameDescription::new("", ""), Vec::new(), Vec::new()),
            Term::new(Vec::new(), Vec::new()),
        );
        proof {
            reveal_strlit("");
        }
        assert(empty@.name =~= Seq::<char>::empty());
        assert(empty@.desc =~= Seq::<char>::empty());
        assert(empty@.args =~= Seq::<(Seq<char>, Seq<char>)>::empty());
        assert(empty@.referred_by =~= Seq::<Seq<char>>::empty());
        assert(empty@.facts =~= Seq::<Seq<Seq<char>>>::empty());
        assert(empty@.rules =~= empty_term_view().rules);
        assert(empty@ == empty_term_view());
        self.term_screens.push(TermScreen::new(&empty, true));
        self.current_selection = ChosenTab::Term(self.term_screens.len() - 1);
        assert(self@.screens.take(old(self)@.screens.len() as int) =~= old(self)@.screens);
    }

    /// Starts a new term named `name`: a tab of a term without a name, if
    /// one is open, is selected instead (the term being created there is not
    /// finished); otherwise a tab with a new, empty term being edited is
    /// opened and selected, and the term is given the name.
    pub fn add_term(&mut self, name: String)
        requires
            old(self).wf(),
        ensures
            final(self).wf(),
            match position_of(old(self)@.screens, Seq::<char>::empty()) {
                Some(i) => final(self)@ == (TabsView { selection: ChosenTab::Term(i as usize), ..old(self)@ }),
                None => {
                    &&& final(self)@.selection == ChosenTab::Term(old(self)@.screens.len() as usize)
                    &&& final(self)@.screens.len() == old(self)@.screens.len() + 1
                    &&& final(self)@.screens.take(old(self)@.screens.len() as int) == old(self)@.screens
                    &&& final(self)@.screens.last().editing matches Some(e) && e.name == name@
                        && fresh_session(EditScreenView { name: Seq::empty(), ..e }, empty_term_view())
                },
            },
    {
        let no_name = String::new();
        if let Some(idx) = self.position(&no_name) {
            self.current_selection = ChosenTab::Term(idx);
            return;
        }
        self.add_new_term();
        let last = self.term_screens.len() - 1;
        let ghost before = self@;
        let screen = self.screen_mut(last);
        let editing = screen.editing_mut();
        editing.set_name(name);
        proof {
            let e = before.screens.last().editing->Some_0;
            assert(EditScreenView { name: Seq::empty(), ..self@.screens.last().editing->Some_0 } == e);
        }
        assert(self@.screens.take(old(self)@.screens.len() as int) =~= before.screens.take(
            old(self)@.screens.len() as int,
        ));
    }

    /// The first position of a tab of the term `term_name`, if any.
    pub fn position(&self, term_name: &String) -> (res: Option<usize>)
        requires
            self.wf(),
        ensures
            match position_of(self@.screens, term_name@) {
                Some(i) => res matches Some(r) && r == i && 0 <= i < self@.screens.len(),
                None => res is None,
            },
    {
        let ghost screens = self@.screens;
        let mut i: usize = 0;
        while i < self.term_screens.len()
            invariant
                i <= self.term_screens@.len(),
                screens == self@.screens,
                self.wf(),
                forall|j: int| 0 <= j < i ==> screen_name(screens[j]) != term_name@,
            decreases self.term_screens@.len() - i,
        {
            assert(screens[i as int] == self.term_screens@[i as int]@);
            let name = self.term_screens[i].name();
            if name == *term_name {
                proof {
                    lemma_position_at(screens, term_name@, i as int);
                }
                return Some(i);
            }
            i = i + 1;
        }
        proof {
            lemma_position_of(screens, term_name@);
        }
        None
    }

    /// The screen of the term `term_name`, if one is open.
    pub fn get(&self, term_name: &String) -> (res: Option<&TermScreen>)
        requires
            self.wf(),
        ensures
            match position_of(self@.screens, term_name@) {
                Some(i) => res matches Some(s) && s@ == self@.screens[i],
                None => res is None,
            },
    {
        match self.position(term_name) {
            Some(i) => {
                assert(self@.screens[i as int] == self.term_screens@[i as int]@);
                Some(&self.term_screens[i])
            },
            None => None,
        }
    }

    /// Selects the tab of the term `term_name`, if one is open.
    pub fn select(&mut self, term_name: &String)
        requires
            old(self).wf(),
        ensures
            selection_valid(old(self)@) ==> selection_valid(final(self)@),
            final(self).wf(),
            final(self)@.screens == old(self)@.screens,
            final(self)@.selection == match position_of(old(self)@.screens, term_name@) {
                Some(i) => ChosenTab::Term(i as usize),
                None => old(self)@.selection,
            },
    {
        if let Some(idx) = self.position(term_name) {
            self.current_selection = ChosenTab::Term(idx);
        }
    }

    /// Selects the tab of the term `term_name`, opening one with the term
    /// read from the knowledge base first if none is open.
    pub fn select_with_push(&mut self, term_name: &String, terms: &TermsFilter)
        requires
            old(self).wf(),
            terms.wf(),
            position_of(old(self)@.screens, term_name@) is None ==> lookup(terms@, term_name@) is Some,
        ensures
            selection_valid(old(self)@) ==> selection_valid(final(self)@),
            final(self).wf(),
            position_of(old(self)@.screens, term_name@) is Some ==> final(self)@ == (TabsView {
                selection: ChosenTab::Term(position_of(old(self)@.screens, term_name@)->Some_0 as usize),
                ..old(self)@
            }),
            position_of(old(self)@.screens, term_name@) is None ==> {
                &&& final(self)@.screens == old(self)@.screens.push(
                    viewing_view(lookup(terms@, term_name@)->Some_0),
                )
                &&& final(self)@.selection == match position_of(final(self)@.screens, term_name@) {
                    Some(i) => ChosenTab::Term(i as usize),
                    None => old(self)@.selection,
                }
            },
    {
        if self.position(term_name).is_none() {
            match terms.get(term_name) {
                Some(term) => {
                    let ghost before = self@.screens;
                    self.push(term);
                    assert(self@.screens =~= before.push(viewing_view(term@)));
                },
                None => {},
            }
        }
        self.select(term_name);
    }

    /// Closes the tab of the term `term_name`, if one is open; the query tab
    /// is selected if the closed tab was. The selection is otherwise kept
    /// as it was.
    pub fn close(&mut self, term_name: &String)
        requires
            old(self).wf(),
        ensures
            selection_valid(old(self)@) && !close_shifts_selection(old(self)@, term_name@)
                ==> selection_valid(final(self)@),
            final(self).wf(),
            match position_of(old(self)@.screens, term_name@) {
                Some(i) => final(self)@ == (TabsView {
                    selection: if old(self)@.selection == ChosenTab::Term(i as usize) {
                        ChosenTab::Ask
                    } else {
                        old(self)@.selection
                    },
                    screens: old(self)@.screens.remove(i),
                }),
                None => final(self)@ == old(self)@,
            },
    {
        if let Some(idx) = self.position(term_name) {
            assert(position_of(old(self)@.screens, term_name@) == Some(idx as int));
            if self.current_selection == ChosenTab::Term(idx) {
                self.current_selection = ChosenTab::Ask;
            }
            let ghost before = self.term_screens@;
            self.term_screens.remove(idx);
            assert(self@.screens =~= before.map_values(|s: TermScreen| s@).remove(idx as int));
        }
    }

    /// The user asked to close the tab at `close_idx`: a tab whose term is
    /// being edited is selected instead, for the editing to be finished
    /// first; any other tab is closed and the selection follows the tabs.
    pub fn close_tab(&mut self, close_idx: usize)
        requires
            old(self).wf(),
            close_idx < old(self)@.screens.len(),
        ensures
            selection_valid(old(self)@) ==> selection_valid(final(self)@),
            final(self).wf(),
            final(self)@ == if old(self)@.screens[close_idx as int].editing is Some {
                TabsView { selection: ChosenTab::Term(close_idx), ..old(self)@ }
            } else {
                TabsView {
                    selection: selection_after_close(old(self)@.selection, close_idx),
                    screens: old(self)@.screens.remove(close_idx as int),
                }
            },
    {
        assert(self.term_screens@[close_idx as int]@ == self@.screens[close_idx as int]);
        if self.term_screens[close_idx].in_edit() {
            self.current_selection = ChosenTab::Term(close_idx);
        } else {
            match self.current_selection {
                ChosenTab::Term(current_idx) => {
                    if close_idx == current_idx {
                        self.current_selection = ChosenTab::Ask;
                    } else if close_idx < current_idx {
                        self.current_selection = ChosenTab::Term(current_idx - 1);
                    }
                },
                ChosenTab::Ask => {},
            }
            let ghost before = self.term_screens@;
            self.term_screens.remove(close_idx);
            assert(self@.screens =~= before.map_values(|s: TermScreen| s@).remove(close_idx as int));
        }
    }

    /// The user asked to close the tab at `close_idx`, where the selection
    /// stays on a term tab when it can: a tab whose term is being edited is
    /// selected instead and `false` is returned; any other tab is closed,
    /// the selection follows [`selection_after_request_close`], and `true`
    /// is returned.
    pub fn request_close(&mut self, close_idx: usize) -> (res: bool)
        requires
            old(self).wf(),
            close_idx < old(self)@.screens.len(),
        ensures
            selection_valid(old(self)@) ==> selection_valid(final(self)@),
            final(self).wf(),
            res == (old(self)@.screens[close_idx as int].editing is None),
            final(self)@ == if res {
                TabsView {
                    selection: selection_after_request_close(
                        old(self)@.selection,
                        close_idx,
                        old(self)@.screens.len(),
                    ),
                    screens: old(self)@.screens.remove(close_idx as int),
                }
            } else {
                TabsView { selection: ChosenTab::Term(close_idx), ..old(self)@ }
            },
    {
        assert(self.term_screens@[close_idx as int]@ == self@.screens[close_idx as int]);
        if self.term_screens[close_idx].in_edit() {
            self.current_selection = ChosenTab::Term(close_idx);
            return false;
        }
        let len = self.term_screens.len();
        if len == 1 {
            self.current_selection = ChosenTab::Ask;
        }
        match self.current_selection {
            ChosenTab::Term(idx) => {
                if close_idx < idx {
                    self.current_selection = ChosenTab::Term(idx - 1);
                } else if idx > len - 2 {
                    self.current_selection = ChosenTab::Term(len - 2);
                }
            },
            ChosenTab::Ask => {},
        }
        let ghost before = self.term_screens@;
        self.term_screens.remove(close_idx);
        assert(self@.screens =~= before.map_values(|s: TermScreen| s@).remove(close_idx as int));
        true
    }

    /// The label of the tab at `idx`.
    pub fn tab_label(&self, idx: usize) -> (res: String)
        requires
            self.wf(),
            idx < self@.screens.len(),
        ensures
            res@ == tab_label_of(self@.screens[idx as int]),
    {
        let screen = &self.term_screens[idx];
        let mut name = screen.name();
        if name.as_str().is_empty() {
            let label = "untitled".to_owned();
            proof {
                reveal_strlit("untitled");
            }
            label
        } else if screen.in_edit() {
            push_char(&mut name, '*');
            name
        } else {
            name
        }
    }

    /// The positions of the tabs of the named terms, in tab order.
    pub fn positions_of(&self, names: &Vec<String>) -> (res: Vec<usize>)
        requires
            self.wf(),
        ensures
            forall|k: int| 0 <= k < res@.len() ==> #[trigger] res@[k] < self@.screens.len(),
            forall|k: int, l: int| 0 <= k < l < res@.len() ==> res@[k] < res@[l],
            forall|i: int|
                0 <= i < self@.screens.len() ==> (res@.contains(i as usize) <==> strings_view(names@).contains(
                    screen_name(self@.screens[i]),
                )),
    {
        let mut res: Vec<usize> = Vec::new();
        let mut i: usize = 0;
        while i < self.term_screens.len()
            invariant
                i <= self.term_screens@.len(),
                self.wf(),
                forall|k: int| 0 <= k < res@.len() ==> #[trigger] res@[k] < i,
                forall|k: int, l: int| 0 <= k < l < res@.len() ==> res@[k] < res@[l],
                forall|j: int|
                    0 <= j < i ==> (res@.contains(j as usize) <==> strings_view(names@).contains(
                        screen_name(self@.screens[j]),
                    )),
            decreases self.term_screens@.len() - i,
        {
            assert(self@.screens[i as int] == self.term_screens@[i as int]@);
            let name = self.term_screens[i].name();
            let ghost before = res@;
            if contains_string(names, &name) {
                res.push(i);
                assert(res@[before.len() as int] == i);
            }
            assert forall|j: int|
                0 <= j < i + 1 implies (res@.contains(j as usize) <==> strings_view(names@).contains(
                screen_name(self@.screens[j]),
            )) by {
                if res@.contains(j as usize) && j < i {
                    let k = choose|k: int| 0 <= k < res@.len() && res@[k] == j as usize;
                    if k < before.len() {
                        assert(before[k] == j as usize);
                    }
                }
                if j < i && before.contains(j as usize) {
                    let k = choose|k: int| 0 <= k < before.len() && before[k] == j as usize;
                    assert(res@[k] == j as usize);
                }
                if j == i && res@.contains(j as usize) && res@.len() == before.len() {
                    let k = choose|k: int| 0 <= k < res@.len() && res@[k] == j as usize;
                    assert(before[k] < i);
                }
            }
            i = i + 1;
        }
        res
    }
}

} // verus!
