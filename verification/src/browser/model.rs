//! The two panes, and what is shown beneath them.

use crate::browser::navigator::{FileNavigator, Item};
use crate::path;
use crate::text;
use vstd::prelude::*;
use vstd::string::StringExecFns;

verus! {

/// What the panes show.
#[derive(Debug, Clone, Copy, PartialEq, Eq, Structural)]
pub enum BrowserMode {
    /// On the left a file system, on the right its snapshots.
    FilesystemSnapshots,
    /// On the left an archive, on the right where it goes.
    ArchiveBrowse,
}

/// The pane that takes the keys.
#[derive(Debug, Clone, Copy, PartialEq, Eq, Structural)]
pub enum Focus {
    Left,
    Right,
}

/// The browser's state.
#[derive(Debug)]
pub struct BrowserModel {
    pub left: FileNavigator,
    pub right: FileNavigator,
    pub focus: Focus,
    pub mode: BrowserMode,
    pub status_message: String,
    pub should_quit: bool,
}

impl BrowserModel {
    /// The pane that takes the keys.
    pub open spec fn active(self) -> FileNavigator {
        match self.focus {
            Focus::Left => self.left,
            Focus::Right => self.right,
        }
    }

    /// The pane that does not.
    pub open spec fn passive(self) -> FileNavigator {
        match self.focus {
            Focus::Left => self.right,
            Focus::Right => self.left,
        }
    }

    /// With another pane in place of the one that takes the keys.
    pub open spec fn with_active(self, nav: FileNavigator) -> Self {
        match self.focus {
            Focus::Left => BrowserModel { left: nav, ..self },
            Focus::Right => BrowserModel { right: nav, ..self },
        }
    }

    /// In both panes the selection is a line that is there.
    pub open spec fn wf(self) -> bool {
        self.left@.wf() && self.right@.wf()
    }

    /// A browser on two panes, the left one taking the keys.
    pub fn new(left: FileNavigator, right: FileNavigator, mode: BrowserMode) -> (m: Self)
        ensures
            m.left == left,
            m.right == right,
            m.focus == Focus::Left,
            m.mode == mode,
            m.status_message@.len() == 0,
            !m.should_quit,
    {
        BrowserModel {
            left,
            right,
            focus: Focus::Left,
            mode,
            status_message: String::new(),
            should_quit: false,
        }
    }

    /// The pane that takes the keys.
    pub fn active_nav(&mut self) -> (nav: &mut FileNavigator)
        ensures
            *nav == old(self).active(),
            *final(self) == old(self).with_active(*final(nav)),
    {
        match self.focus {
            Focus::Left => &mut self.left,
            Focus::Right => &mut self.right,
        }
    }

    /// Lets the other pane take the keys.
    pub fn toggle_focus(&mut self)
        ensures
            *final(self) == (BrowserModel {
                focus: if old(self).focus == Focus::Left {
                    Focus::Right
                } else {
                    Focus::Left
                },
                ..*old(self)
            }),
    {
        self.focus = match self.focus {
            Focus::Left => Focus::Right,
            Focus::Right => Focus::Left,
        };
    }

    /// The line of text beneath the panes: the message where there is one, else
    /// what is selected. `size` is the selected file's size as text.
    pub fn status_text(&self, size: &str) -> (out: String)
        ensures
            ({
                let nav = self.active()@;
                if self.status_message@.len() > 0 {
                    out@ == " "@ + self.status_message@
                } else if nav.selected < nav.lines.len() {
                    let line = nav.lines[nav.selected];
                    out@ == " "@ + line.name + " │ "@ + kind_text(line.is_dir, size@) + " │ "@
                        + line.modified
                } else {
                    out@ == " No selection"@
                }
            }),
    {
        if text::chars_of(&self.status_message).len() > 0 {
            return text::concat2(" ", &self.status_message);
        }
        let nav = match self.focus {
            Focus::Left => &self.left,
            Focus::Right => &self.right,
        };
        match nav.selected_entry() {
            Some(e) => {
                assert(e@ == nav@.lines[nav.selected as int]);
                let mut out = text::concat2(" ", &e.name);
                out.append(" │ ");
                if e.is_dir {
                    out.append("DIR");
                } else {
                    out.append(size);
                }
                out.append(" │ ");
                out.append(&e.modified);
                out
            },
            None => " No selection".to_owned(),
        }
    }
}

/// What stands for the size of a line.
pub open spec fn kind_text(is_dir: bool, size: Seq<char>) -> Seq<char> {
    if is_dir {
        "DIR"@
    } else {
        size
    }
}

/// The browser.
#[derive(Debug)]
pub struct BrowserApp {
    pub model: BrowserModel,
}

impl BrowserApp {
    /// Where the right pane begins beside a directory: at its snapshots where it
    /// has some.
    pub open spec fn beside(p: Seq<char>, versions_exist: bool) -> Seq<char> {
        if versions_exist {
            path::join(p, ".foxing_versions"@)
        } else {
            p
        }
    }

    /// Where the right pane begins beside a directory.
    pub fn right_path(p: &str, versions_exist: bool) -> (out: String)
        ensures
            out@ == Self::beside(p@, versions_exist),
    {
        if versions_exist {
            path::join_path(p, ".foxing_versions")
        } else {
            p.to_owned()
        }
    }

    /// Where the left pane begins for an archive: in its directory.
    pub fn archive_dir(archive: &str) -> (out: String)
        ensures
            out@ == (match path::parent(archive@) {
                Some(d) => d,
                None => "."@,
            }),
    {
        match path::parent_of(archive) {
            Some(d) => d,
            None => ".".to_owned(),
        }
    }

    /// A browser of a directory and its snapshots.
    pub fn new(p: &str, versions_exist: bool, left: Vec<Item>, right: Vec<Item>) -> (app: Self)
        ensures
            app.model.mode == BrowserMode::FilesystemSnapshots,
            app.model.left@.dir == p@,
            app.model.right@.dir == Self::beside(p@, versions_exist),
            super::navigator::is_listing(p@, left@, app.model.left@.lines),
            super::navigator::is_listing(
                Self::beside(p@, versions_exist),
                right@,
                app.model.right@.lines,
            ),
            app.model.left@.selected == 0 && app.model.right@.selected == 0,
            app.model.focus == Focus::Left,
            app.model.status_message@.len() == 0,
            !app.model.should_quit,
            app.model.wf(),
    {
        let beside = Self::right_path(p, versions_exist);
        BrowserApp {
            model: BrowserModel::new(
                FileNavigator::new(p, left),
                FileNavigator::new(&beside, right),
                BrowserMode::FilesystemSnapshots,
            ),
        }
    }

    /// A browser of an archive's directory and the place where it goes.
    pub fn new_archive(archive: &str, target: &str, left: Vec<Item>, right: Vec<Item>) -> (app:
        Self)
        ensures
            app.model.mode == BrowserMode::ArchiveBrowse,
            app.model.left@.dir == (match path::parent(archive@) {
                Some(d) => d,
                None => "."@,
            }),
            app.model.right@.dir == target@,
            super::navigator::is_listing(app.model.left@.dir, left@, app.model.left@.lines),
            super::navigator::is_listing(target@, right@, app.model.right@.lines),
            app.model.left@.selected == 0 && app.model.right@.selected == 0,
            app.model.focus == Focus::Left,
            app.model.status_message@.len() == 0,
            !app.model.should_quit,
            app.model.wf(),
    {
        let dir = Self::archive_dir(archive);
        BrowserApp {
            model: BrowserModel::new(
                FileNavigator::new(&dir, left),
                FileNavigator::new(target, right),
                BrowserMode::ArchiveBrowse,
            ),
        }
    }
}

/// The active side is the one in focus, the passive the other; changing the active one
/// leaves the other as it is.
pub proof fn one_side_is_active(m: BrowserModel, nav: FileNavigator)
    ensures
        m.focus == Focus::Left ==> m.active() == m.left && m.passive() == m.right,
        m.focus == Focus::Right ==> m.active() == m.right && m.passive() == m.left,
        m.with_active(nav).active() == nav,
        m.with_active(nav).passive() == m.passive(),
        m.with_active(nav).focus == m.focus,
        m.with_active(nav).mode == m.mode,
        m.with_active(nav).status_message == m.status_message,
        m.with_active(nav).should_quit == m.should_quit,
{
}

/// Beside a directory its versions are shown, where it has some.
pub proof fn versions_are_shown_beside(p: Seq<char>, size: Seq<char>)
    ensures
        BrowserApp::beside(p, false) == p,
        path::components(BrowserApp::beside(p, true)) == path::components(p).push(
            ".foxing_versions"@,
        ),
        kind_text(true, size) == seq!['D', 'I', 'R'],
        kind_text(false, size) == size,
{
    reveal_strlit(".foxing_versions");
    reveal_strlit("DIR");
    assert("DIR"@ =~= seq!['D', 'I', 'R']);
    path::name_is_one_component(p, ".foxing_versions"@);
}

} // verus!
