use vstd::prelude::*;
use crate::project::ProjectFiles;

verus! {

/// The selected row of a list, if any.
#[derive(Debug, Clone, Copy, PartialEq, Eq, Structural)]
pub struct ListSelection {
    pub selected: Option<usize>,
}

/// Moving a list's selection forwards and backwards, wrapping around.
pub trait SelectNextPrev {
    spec fn selection(&self) -> Option<usize>;

    /// Selects the next of `max` rows, the first after the last; nothing where no row is
    /// selected.
    fn next_if_some(&mut self, max: usize)
        requires
            old(self).selection() is Some ==> old(self).selection()->0 < max,
        ensures
            final(self).selection() == (match old(self).selection() {
                Some(i) => Some(((i + 1) % (max as int)) as usize),
                None => None,
            }),
    ;

    /// Selects the previous of `max` rows, the last before the first; nothing where no row
    /// is selected.
    fn prev_if_some(&mut self, max: usize)
        requires
            old(self).selection() is Some ==> old(self).selection()->0 < max,
        ensures
            final(self).selection() == (match old(self).selection() {
                Some(i) => Some(
                    if i == 0 {
                        (max - 1) as usize
                    } else {
                        (i - 1) as usize
                    },
                ),
                None => None,
            }),
    ;
}

impl SelectNextPrev for ListSelection {
    open spec fn selection(&self) -> Option<usize> {
        self.selected
    }

    fn next_if_some(&mut self, max: usize) {
        if let Some(idx) = self.selected {
            self.selected = Some((idx + 1) % max);
        }
    }

    fn prev_if_some(&mut self, max: usize) {
        if let Some(idx) = self.selected {
            let mut idx = idx;
            if idx == 0 {
                idx = max;
            }
            idx = idx - 1;
            self.selected = Some(idx);
        }
    }
}

/// Which pane of the hierarchy view has the focus.
#[derive(Debug, Clone, Copy, PartialEq, Eq, Structural)]
pub enum HierarchyViewBlocksState {
    Hierarchy,
    GameObject,
    Component,
}

/// A key press, as the hierarchy view tells them apart.
#[derive(Debug, Clone, Copy, PartialEq, Eq, Structural)]
pub enum NavKey {
    /// Escape.
    Back,
    /// Enter or space.
    Select,
    /// `j` or the down arrow.
    Down,
    /// `k` or the up arrow.
    Up,
    Other,
}

/// What the hierarchy view does on a key, besides changing its focus.
#[derive(Debug, Clone, Copy, PartialEq, Eq, Structural)]
pub enum NavAction {
    Nothing,
    /// Go back to the file selection.
    LeaveView,
    /// Clear the selection of the components list.
    ClearComponents,
    /// Select the first row of the components list.
    SelectFirstComponent,
    /// Clear the selection of the fields list.
    ClearFields,
    /// Move the selection of the focused pane's list to the next row.
    NextRow,
    /// Move the selection of the focused pane's list to the previous row.
    PrevRow,
}

/// The hierarchy view's focus after a key, and what it does.
pub open spec fn on_key_spec(s: HierarchyViewBlocksState, k: NavKey) -> (
    HierarchyViewBlocksState,
    NavAction,
) {
    match k {
        NavKey::Back => match s {
            HierarchyViewBlocksState::Hierarchy => (s, NavAction::LeaveView),
            HierarchyViewBlocksState::GameObject => (
                HierarchyViewBlocksState::Hierarchy,
                NavAction::ClearComponents,
            ),
            HierarchyViewBlocksState::Component => (
                HierarchyViewBlocksState::GameObject,
                NavAction::ClearFields,
            ),
        },
        NavKey::Select => match s {
            HierarchyViewBlocksState::Hierarchy => (
                HierarchyViewBlocksState::GameObject,
                NavAction::SelectFirstComponent,
            ),
            HierarchyViewBlocksState::GameObject => (
                HierarchyViewBlocksState::Component,
                NavAction::Nothing,
            ),
            HierarchyViewBlocksState::Component => (s, NavAction::Nothing),
        },
        NavKey::Down => (s, NavAction::NextRow),
        NavKey::Up => (s, NavAction::PrevRow),
        NavKey::Other => (s, NavAction::Nothing),
    }
}

impl HierarchyViewBlocksState {
    /// The focus after `key`, and the action to take.
    pub fn on_key(self, key: NavKey) -> (r: (HierarchyViewBlocksState, NavAction))
        ensures
            r == on_key_spec(self, key),
    {
        match key {
            NavKey::Back => match self {
                HierarchyViewBlocksState::Hierarchy => (self, NavAction::LeaveView),
                HierarchyViewBlocksState::GameObject => (
                    HierarchyViewBlocksState::Hierarchy,
                    NavAction::ClearComponents,
                ),
                HierarchyViewBlocksState::Component => (
                    HierarchyViewBlocksState::GameObject,
                    NavAction::ClearFields,
                ),
            },
            NavKey::Select => match self {
                HierarchyViewBlocksState::Hierarchy => (
                    HierarchyViewBlocksState::GameObject,
                    NavAction::SelectFirstComponent,
                ),
                HierarchyViewBlocksState::GameObject => (
                    HierarchyViewBlocksState::Component,
                    NavAction::Nothing,
                ),
                HierarchyViewBlocksState::Component => (self, NavAction::Nothing),
            },
            NavKey::Down => (self, NavAction::NextRow),
            NavKey::Up => (self, NavAction::PrevRow),
            NavKey::Other => (self, NavAction::Nothing),
        }
    }
}

/// Pairs a value with another.
pub trait PairWith<U>: Sized {
    fn pair_with(self, other: U) -> (r: (Self, U))
        ensures
            r == (self, other),
    ;
}

impl<T, U> PairWith<U> for T {
    fn pair_with(self, other: U) -> (r: (T, U)) {
        (self, other)
    }
}


/// The selection of the file selection screen: one row in one of its three lists (scenes,
/// prefabs, assets), or none.
#[derive(Debug, Clone, Copy, PartialEq, Eq, Structural)]
pub struct FileSelectState {
    pub scenes: ListSelection,
    pub prefabs: ListSelection,
    pub assets: ListSelection,
}

/// A list's selection is a row that it has.
pub open spec fn fits(sel: Option<usize>, len: nat) -> bool {
    sel matches Some(i) ==> i < len
}

impl FileSelectState {
    /// Each list's selection is one of its rows.
    pub open spec fn wf(&self, p: ProjectFiles) -> bool {
        &&& fits(self.scenes.selected, p.scenes@.len())
        &&& fits(self.prefabs.selected, p.prefabs@.len())
        &&& fits(self.assets.selected, p.assets@.len())
    }

    /// The first row of the first list that has rows is selected: scenes, then prefabs,
    /// then assets.
    pub fn new_file_select(project: &ProjectFiles) -> (r: FileSelectState)
        ensures
            r.wf(*project),
            r.scenes.selected == (if project.scenes@.len() > 0 {
                Some(0usize)
            } else {
                None
            }),
            r.prefabs.selected == (if project.scenes@.len() == 0 && project.prefabs@.len() > 0 {
                Some(0usize)
            } else {
                None
            }),
            r.assets.selected == (if project.scenes@.len() == 0 && project.prefabs@.len() == 0
                && project.assets@.len() > 0 {
                Some(0usize)
            } else {
                None
            }),
    {
        let none = ListSelection { selected: None };
        let first = ListSelection { selected: Some(0) };
        if !project.scenes.is_empty() {
            FileSelectState { scenes: first, prefabs: none, assets: none }
        } else if !project.prefabs.is_empty() {
            FileSelectState { scenes: none, prefabs: first, assets: none }
        } else if !project.assets.is_empty() {
            FileSelectState { scenes: none, prefabs: none, assets: first }
        } else {
            FileSelectState { scenes: none, prefabs: none, assets: none }
        }
    }

    /// Moves the selection to the first row of the next list that has rows, in the
    /// cycle scenes, prefabs, assets; it stays where no other list has rows.
    pub fn next_section(&mut self, project: &ProjectFiles)
        ensures
            old(self).wf(*project) ==> final(self).wf(*project),
            *final(self) == next_section_spec(*old(self), *project),
    {
        let none = ListSelection { selected: None };
        let first = ListSelection { selected: Some(0) };
        if self.scenes.selected.is_some() {
            if !project.prefabs.is_empty() {
                self.scenes = none;
                self.prefabs = first;
            } else if !project.assets.is_empty() {
                self.scenes = none;
                self.assets = first;
            }
        } else if self.prefabs.selected.is_some() {
            if !project.assets.is_empty() {
                self.prefabs = none;
                self.assets = first;
            } else if !project.scenes.is_empty() {
                self.prefabs = none;
                self.scenes = first;
            }
        } else if self.assets.selected.is_some() {
            if !project.scenes.is_empty() {
                self.assets = none;
                self.scenes = first;
            } else if !project.prefabs.is_empty() {
                self.assets = none;
                self.prefabs = first;
            }
        }
    }

    /// Moves the selection to the first row of the previous list that has rows, in the
    /// cycle scenes, prefabs, assets; it stays where no other list has rows.
    pub fn prev_section(&mut self, project: &ProjectFiles)
        ensures
            old(self).wf(*project) ==> final(self).wf(*project),
            *final(self) == prev_section_spec(*old(self), *project),
    {
        let none = ListSelection { selected: None };
        let first = ListSelection { selected: Some(0) };
        if self.scenes.selected.is_some() {
            if !project.assets.is_empty() {
                self.scenes = none;
                self.assets = first;
            } else if !project.prefabs.is_empty() {
                self.scenes = none;
                self.prefabs = first;
            }
        } else if self.prefabs.selected.is_some() {
            if !project.scenes.is_empty() {
                self.prefabs = none;
                self.scenes = first;
            } else if !project.assets.is_empty() {
                self.prefabs = none;
                self.assets = first;
            }
        } else if self.assets.selected.is_some() {
            if !project.prefabs.is_empty() {
                self.assets = none;
                self.prefabs = first;
            } else if !project.scenes.is_empty() {
                self.assets = none;
                self.scenes = first;
            }
        }
    }

    /// Moves each list's selection one row down, wrapping around.
    pub fn move_down(&mut self, project: &ProjectFiles)
        requires
            old(self).wf(*project),
        ensures
            final(self).wf(*project),
            final(self).scenes.selected == step_down(old(self).scenes.selected, project.scenes@.len()),
            final(self).prefabs.selected == step_down(old(self).prefabs.selected, project.prefabs@.len()),
            final(self).assets.selected == step_down(old(self).assets.selected, project.assets@.len()),
    {
        self.scenes.next_if_some(project.scenes.len());
        self.prefabs.next_if_some(project.prefabs.len());
        self.assets.next_if_some(project.assets.len());
    }

    /// Moves each list's selection one row up, wrapping around.
    pub fn move_up(&mut self, project: &ProjectFiles)
        requires
            old(self).wf(*project),
        ensures
            final(self).wf(*project),
            final(self).scenes.selected == step_up(old(self).scenes.selected, project.scenes@.len()),
            final(self).prefabs.selected == step_up(old(self).prefabs.selected, project.prefabs@.len()),
            final(self).assets.selected == step_up(old(self).assets.selected, project.assets@.len()),
    {
        self.scenes.prev_if_some(project.scenes.len());
        self.prefabs.prev_if_some(project.prefabs.len());
        self.assets.prev_if_some(project.assets.len());
    }

    /// The selected file: of the scenes, else the prefabs, else the assets.
    pub fn selected_file(&self, project: &ProjectFiles) -> (r: Option<String>)
        requires
            self.wf(*project),
        ensures
            r matches Some(p) ==> (match self.scenes.selected {
                Some(i) => p@ == project.scenes@[i as int]@,
                None => match self.prefabs.selected {
                    Some(i) => p@ == project.prefabs@[i as int]@,
                    None => match self.assets.selected {
                        Some(i) => p@ == project.assets@[i as int]@,
                        None => false,
                    },
                },
            }),
            r is None <==> (self.scenes.selected is None && self.prefabs.selected is None
                && self.assets.selected is None),
    {
        if let Some(i) = self.scenes.selected {
            Some(project.scenes[i].clone())
        } else if let Some(i) = self.prefabs.selected {
            Some(project.prefabs[i].clone())
        } else if let Some(i) = self.assets.selected {
            Some(project.assets[i].clone())
        } else {
            None
        }
    }
}

pub open spec fn step_down(sel: Option<usize>, len: nat) -> Option<usize> {
    match sel {
        Some(i) => Some(((i + 1) % (len as int)) as usize),
        None => None,
    }
}

pub open spec fn step_up(sel: Option<usize>, len: nat) -> Option<usize> {
    match sel {
        Some(i) => Some(
            if i == 0 {
                (len - 1) as usize
            } else {
                (i - 1) as usize
            },
        ),
        None => None,
    }
}

/// The first row of `p`'s list of index `k` (scenes 0, prefabs 1, assets 2) alone
/// selected.
pub open spec fn only(k: int) -> FileSelectState {
    FileSelectState {
        scenes: ListSelection { selected: if k == 0 { Some(0usize) } else { None } },
        prefabs: ListSelection { selected: if k == 1 { Some(0usize) } else { None } },
        assets: ListSelection { selected: if k == 2 { Some(0usize) } else { None } },
    }
}

pub open spec fn section_len(p: ProjectFiles, k: int) -> nat {
    if k == 0 {
        p.scenes@.len()
    } else if k == 1 {
        p.prefabs@.len()
    } else {
        p.assets@.len()
    }
}

/// Switches from list `from` to the first of `a`, then `b`, that has rows, clearing
/// `from`; stays otherwise.
pub open spec fn switch(s: FileSelectState, p: ProjectFiles, from: int, a: int, b: int) -> FileSelectState {
    let cleared = FileSelectState {
        scenes: if from == 0 { ListSelection { selected: None } } else { s.scenes },
        prefabs: if from == 1 { ListSelection { selected: None } } else { s.prefabs },
        assets: if from == 2 { ListSelection { selected: None } } else { s.assets },
    };
    let first = ListSelection { selected: Some(0usize) };
    let target = if section_len(p, a) > 0 { a } else { b };
    if section_len(p, a) == 0 && section_len(p, b) == 0 {
        s
    } else if target == 0 {
        FileSelectState { scenes: first, ..cleared }
    } else if target == 1 {
        FileSelectState { prefabs: first, ..cleared }
    } else {
        FileSelectState { assets: first, ..cleared }
    }
}

pub open spec fn next_section_spec(s: FileSelectState, p: ProjectFiles) -> FileSelectState {
    if s.scenes.selected is Some {
        switch(s, p, 0, 1, 2)
    } else if s.prefabs.selected is Some {
        switch(s, p, 1, 2, 0)
    } else if s.assets.selected is Some {
        switch(s, p, 2, 0, 1)
    } else {
        s
    }
}

pub open spec fn prev_section_spec(s: FileSelectState, p: ProjectFiles) -> FileSelectState {
    if s.scenes.selected is Some {
        switch(s, p, 0, 2, 1)
    } else if s.prefabs.selected is Some {
        switch(s, p, 1, 0, 2)
    } else if s.assets.selected is Some {
        switch(s, p, 2, 1, 0)
    } else {
        s
    }
}

} // verus!
