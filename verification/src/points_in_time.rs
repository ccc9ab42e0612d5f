//! The versions a term goes through while a change of it waits to be
//! committed, and where each version came from.
use vstd::prelude::*;
use crate::model::{FatTerm, FatTermView};

verus! {

/// Where a version of a term came from: an edit of the term itself, or a
/// change propagated from the named term.
pub enum ChangeSource {
    Internal,
    External(String),
}

/// The mathematical value of a [`ChangeSource`]: `None` for an edit of the
/// term itself, the other term's name otherwise.
pub open spec fn source_view(c: ChangeSource) -> Option<Seq<char>> {
    match c {
        ChangeSource::Internal => None,
        ChangeSource::External(name) => Some(name@),
    }
}

impl ChangeSource {
    /// How the source is described to the user: `Internal` for an edit of
    /// the term itself, the other term's name otherwise.
    pub fn text(&self) -> (res: String)
        ensures
            res@ == match source_view(*self) {
                None => "Internal"@,
                Some(name) => name,
            },
    {
        match self {
            ChangeSource::Internal => "Internal".to_owned(),
            ChangeSource::External(name) => name.clone(),
        }
    }
}

/// The mathematical value of a [`PointsInTime`]: the original version, the
/// later versions in the order they came, and the source of each later one.
pub struct PointsInTimeView {
    pub original: FatTermView,
    pub pits: Seq<FatTermView>,
    pub sources: Seq<Option<Seq<char>>>,
}

/// The most recent version.
pub open spec fn latest_of(p: PointsInTimeView) -> FatTermView {
    if p.pits.len() == 0 {
        p.original
    } else {
        p.pits.last()
    }
}

/// The name shown as the source of a later version: the other term's name,
/// or the original version's name for an edit of the term itself.
pub open spec fn source_name(p: PointsInTimeView, source: Option<Seq<char>>) -> Seq<char> {
    match source {
        None => p.original.name,
        Some(name) => name,
    }
}

/// The versions of a term.
pub struct PointsInTime {
    original: FatTerm,
    points_in_time: Vec<FatTerm>,
    pit_info: Vec<ChangeSource>,
}

impl View for PointsInTime {
    type V = PointsInTimeView;

    closed spec fn view(&self) -> PointsInTimeView {
        PointsInTimeView {
            original: self.original@,
            pits: self.points_in_time@.map_values(|t: FatTerm| t@),
            sources: self.pit_info@.map_values(|c: ChangeSource| source_view(c)),
        }
    }
}

impl PointsInTime {
    /// Each later version has its source, and the number of versions fits in
    /// a `usize`.
    pub closed spec fn wf(&self) -> bool {
        &&& self.points_in_time@.len() == self.pit_info@.len()
        &&& self.points_in_time@.len() < usize::MAX
    }

    /// The versions of a term that has not changed yet.
    pub fn new(term: &FatTerm) -> (res: Self)
        ensures
            res.wf(),
            res@ == (PointsInTimeView {
                original: term@,
                pits: Seq::empty(),
                sources: Seq::empty(),
            }),
    {
        let res = Self { original: term.copy(), points_in_time: Vec::new(), pit_info: Vec::new() };
        assert(res@.pits =~= Seq::<FatTermView>::empty());
        assert(res@.sources =~= Seq::<Option<Seq<char>>>::empty());
        res
    }

    /// Records a new version of the term that the term `source` caused: an
    /// edit of the term itself when `source` is the name of the most recent
    /// version, a propagated change otherwise.
    pub fn push_pit(&mut self, term: &FatTerm, source: &str)
        requires
            old(self).wf(),
            old(self)@.pits.len() + 1 < usize::MAX,
        ensures
            final(self).wf(),
            final(self)@ == (PointsInTimeView {
                pits: old(self)@.pits.push(term@),
                sources: old(self)@.sources.push(
                    if source@ == latest_of(old(self)@).name {
                        None
                    } else {
                        Some(source@)
                    },
                ),
                ..old(self)@
            }),
    {
        let source_name = source.to_owned();
        let internal = source_name == self.latest().meta.term.name;
        if internal {
            self.pit_info.push(ChangeSource::Internal);
        } else {
            self.pit_info.push(ChangeSource::External(source_name));
        }
        self.points_in_time.push(term.copy());
        assert(self@.pits =~= old(self)@.pits.push(term@));
        assert(self@.sources =~= old(self)@.sources.push(
            if source@ == latest_of(old(self)@).name {
                None
            } else {
                Some(source@)
            },
        ));
    }

    /// The name of the source of each later version, in order: the other
    /// term's name, or this term's original name for its own edits.
    pub fn change_sources(&self) -> (res: Vec<String>)
        requires
            self.wf(),
        ensures
            res@.len() == self@.sources.len(),
            forall|i: int|
                0 <= i < res@.len() ==> (#[trigger] res@[i])@ == source_name(
                    self@,
                    self@.sources[i],
                ),
    {
        let mut res: Vec<String> = Vec::new();
        let mut i: usize = 0;
        while i < self.pit_info.len()
            invariant
                i <= self.pit_info@.len(),
                res@.len() == i,
                forall|j: int|
                    0 <= j < i ==> (#[trigger] res@[j])@ == source_name(self@, self@.sources[j]),
            decreases self.pit_info@.len() - i,
        {
            let name = match &self.pit_info[i] {
                ChangeSource::External(e) => e.clone(),
                ChangeSource::Internal => self.original.meta.term.name.clone(),
            };
            res.push(name);
            i = i + 1;
        }
        res
    }

    /// The version the change started from.
    pub fn original(&self) -> (res: &FatTerm)
        ensures
            res@ == self@.original,
    {
        &self.original
    }

    /// The most recent version.
    pub fn latest(&self) -> (res: &FatTerm)
        ensures
            res@ == latest_of(self@),
    {
        if self.points_in_time.len() == 0 {
            &self.original
        } else {
            let last = self.points_in_time.len() - 1;
            &self.points_in_time[last]
        }
    }

    /// The version at `idx`: the original at 0, the later ones after it.
    pub fn pit_at(&self, idx: usize) -> (res: &FatTerm)
        requires
            idx <= self@.pits.len(),
        ensures
            res@ == if idx == 0 {
                self@.original
            } else {
                self@.pits[idx - 1]
            },
    {
        if idx == 0 {
            &self.original
        } else {
            &self.points_in_time[idx - 1]
        }
    }

    /// The number of versions, the original included.
    pub fn len(&self) -> (res: usize)
        requires
            self.wf(),
        ensures
            res == self@.pits.len() + 1,
    {
        self.points_in_time.len() + 1
    }
}

} // verus!
