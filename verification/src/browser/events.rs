//! What the keys do.

use crate::browser::model::{self, BrowserModel};
use crate::browser::navigator::{FileNavigator, Place};
use crate::text;
use vstd::prelude::*;
use vstd::string::StringExecFns;

verus! {

/// How many lines a page has.
pub const PAGE: usize = 20;

/// A key.
#[derive(Debug, Clone, Copy, PartialEq, Eq, Structural)]
pub enum Key {
    Char(char),
    Up,
    Down,
    Enter,
    Backspace,
    Esc,
    Tab,
    PageUp,
    PageDown,
    Home,
    End,
    /// A function key.
    F(u8),
    Other,
}

/// What is left to do after a key.
#[derive(Debug, Clone, Copy, PartialEq, Eq, Structural)]
pub enum AfterKey {
    /// Nothing.
    Nothing,
    /// Leave the browser.
    Quit,
    /// Read the directory of the pane that takes the keys.
    ReadActive,
    /// Read the directories of both panes.
    ReadBoth,
}

/// What a key means.
#[derive(Debug, Clone, Copy, PartialEq, Eq, Structural)]
pub enum Command {
    Quit,
    Up,
    Down,
    Enter,
    Rise,
    Switch,
    PageUp,
    PageDown,
    First,
    Last,
    Restore,
    Copy,
    Export,
    Info,
    Refresh,
    Ignore,
}

/// What a key means. `ctrl` is whether the control key is held.
pub open spec fn meaning(key: Key, ctrl: bool) -> Command {
    match key {
        Key::Char(c) => if c == 'q' || c == 'Q' {
            Command::Quit
        } else if c == 'c' && ctrl {
            Command::Quit
        } else if c == 'k' {
            Command::Up
        } else if c == 'j' {
            Command::Down
        } else if c == 'r' || c == 'R' {
            Command::Restore
        } else if c == 'c' || c == 'C' {
            Command::Copy
        } else if c == 'e' || c == 'E' {
            Command::Export
        } else if c == 'i' || c == 'I' {
            Command::Info
        } else {
            Command::Ignore
        },
        Key::Up => Command::Up,
        Key::Down => Command::Down,
        Key::Enter => Command::Enter,
        Key::Backspace => Command::Rise,
        Key::Esc => Command::Rise,
        Key::Tab => Command::Switch,
        Key::PageUp => Command::PageUp,
        Key::PageDown => Command::PageDown,
        Key::Home => Command::First,
        Key::End => Command::Last,
        Key::F(n) => if n == 5 {
            Command::Refresh
        } else {
            Command::Ignore
        },
        Key::Other => Command::Ignore,
    }
}

fn command_of(key: Key, ctrl: bool) -> (c: Command)
    ensures
        c == meaning(key, ctrl),
{
    match key {
        Key::Char(c) => if c == 'q' || c == 'Q' || (c == 'c' && ctrl) {
            Command::Quit
        } else if c == 'k' {
            Command::Up
        } else if c == 'j' {
            Command::Down
        } else if c == 'r' || c == 'R' {
            Command::Restore
        } else if c == 'c' || c == 'C' {
            Command::Copy
        } else if c == 'e' || c == 'E' {
            Command::Export
        } else if c == 'i' || c == 'I' {
            Command::Info
        } else {
            Command::Ignore
        },
        Key::Up => Command::Up,
        Key::Down => Command::Down,
        Key::Enter => Command::Enter,
        Key::Backspace => Command::Rise,
        Key::Esc => Command::Rise,
        Key::Tab => Command::Switch,
        Key::PageUp => Command::PageUp,
        Key::PageDown => Command::PageDown,
        Key::Home => Command::First,
        Key::End => Command::Last,
        Key::F(n) => if n == 5 {
            Command::Refresh
        } else {
            Command::Ignore
        },
        Key::Other => Command::Ignore,
    }
}

/// Some lines up, as far as there are any.
pub open spec fn up_by(p: Place, n: nat) -> Place {
    Place {
        selected: if p.selected > n {
            p.selected - n
        } else {
            0
        },
        ..p
    }
}

/// Some lines down, as far as there are any.
pub open spec fn down_by(p: Place, n: nat) -> Place {
    Place {
        selected: if p.selected + n < p.lines.len() {
            p.selected + n
        } else if p.selected < p.lines.len() {
            p.lines.len() - 1
        } else {
            p.selected
        },
        ..p
    }
}

/// Where the pane that takes the keys is after a command.
pub open spec fn place_after(p: Place, c: Command) -> Place {
    match c {
        Command::Up => p.up(),
        Command::Down => p.down(),
        Command::Enter => p.entered(),
        Command::Rise => p.risen(),
        Command::PageUp => up_by(p, PAGE as nat),
        Command::PageDown => down_by(p, PAGE as nat),
        Command::First => Place { selected: 0, ..p },
        Command::Last => Place {
            selected: if p.lines.len() > 0 {
                p.lines.len() - 1
            } else {
                0
            },
            ..p
        },
        _ => p,
    }
}

/// The message after a command. `size` is the selected file's size as text.
pub open spec fn message_after(m: BrowserModel, c: Command, size: Seq<char>) -> Seq<char> {
    let p = m.active()@;
    match c {
        Command::Restore => "Restore: not yet implemented in TUI"@,
        Command::Copy => "Copy: not yet implemented in TUI"@,
        Command::Export => "Export: not yet implemented in TUI"@,
        Command::Info => if p.selected < p.lines.len() {
            let line = p.lines[p.selected];
            line.name + " | "@ + model::kind_text(line.is_dir, size) + " | "@ + line.modified
        } else {
            m.status_message@
        },
        Command::Refresh => "Refreshed"@,
        _ => m.status_message@,
    }
}

/// What is left to do after a command.
pub open spec fn rest_after(p: Place, c: Command) -> AfterKey {
    match c {
        Command::Quit => AfterKey::Quit,
        Command::Enter => if p.on_dir() {
            AfterKey::ReadActive
        } else {
            AfterKey::Nothing
        },
        Command::Rise => if crate::path::parent(p.dir) is Some {
            AfterKey::ReadActive
        } else {
            AfterKey::Nothing
        },
        Command::Refresh => AfterKey::ReadBoth,
        _ => AfterKey::Nothing,
    }
}

fn page_up(nav: &mut FileNavigator)
    ensures
        final(nav)@ == up_by(old(nav)@, PAGE as nat),
{
    let ghost start = nav@;
    let mut i: usize = 0;
    while i < PAGE
        invariant
            i <= PAGE,
            start.selected >= 0,
            nav@ == up_by(start, i as nat),
        decreases PAGE - i,
    {
        nav.move_up();
        i = i + 1;
    }
}

fn page_down(nav: &mut FileNavigator)
    ensures
        final(nav)@ == down_by(old(nav)@, PAGE as nat),
{
    let ghost start = nav@;
    let mut i: usize = 0;
    while i < PAGE
        invariant
            i <= PAGE,
            nav@ == down_by(start, i as nat),
        decreases PAGE - i,
    {
        nav.move_down();
        i = i + 1;
    }
}

fn info_text(nav: &FileNavigator, size: &str) -> (out: Option<String>)
    ensures
        nav@.selected < nav@.lines.len() ==> out is Some && out->0@
            == nav@.lines[nav@.selected].name + " | "@ + model::kind_text(
            nav@.lines[nav@.selected].is_dir,
            size@,
        ) + " | "@ + nav@.lines[nav@.selected].modified,
        nav@.selected >= nav@.lines.len() ==> out is None,
{
    match nav.selected_entry() {
        Some(e) => {
            assert(e@ == nav@.lines[nav.selected as int]);
            let mut out = text::concat2(&e.name, " | ");
            if e.is_dir {
                out.append("DIR");
            } else {
                out.append(size);
            }
            out.append(" | ");
            out.append(&e.modified);
            Some(out)
        },
        None => None,
    }
}

/// Takes a key. `ctrl` is whether the control key is held; `size` is the selected
/// file's size as text.
pub fn handle_key(m: &mut BrowserModel, key: Key, ctrl: bool, size: &str) -> (rest: AfterKey)
    ensures
        rest == rest_after(old(m).active()@, meaning(key, ctrl)),
        final(m).mode == old(m).mode,
        final(m).should_quit == (old(m).should_quit || meaning(key, ctrl) == Command::Quit),
        final(m).status_message@ == message_after(*old(m), meaning(key, ctrl), size@),
        meaning(key, ctrl) == Command::Switch ==> final(m).focus != old(m).focus && final(m).left
            == old(m).left && final(m).right == old(m).right,
        meaning(key, ctrl) != Command::Switch ==> final(m).focus == old(m).focus
            && final(m).passive() == old(m).passive() && final(m).active()@ == place_after(
            old(m).active()@,
            meaning(key, ctrl),
        ),
        old(m).wf() ==> final(m).wf(),
{
    let c = command_of(key, ctrl);
    match c {
        Command::Quit => {
            m.should_quit = true;
            return AfterKey::Quit;
        },
        Command::Up => {
            m.active_nav().move_up();
        },
        Command::Down => {
            m.active_nav().move_down();
        },
        Command::Enter => {
            if m.active_nav().enter() {
                return AfterKey::ReadActive;
            }
        },
        Command::Rise => {
            if m.active_nav().go_up() {
                return AfterKey::ReadActive;
            }
        },
        Command::Switch => {
            m.toggle_focus();
        },
        Command::PageUp => {
            page_up(m.active_nav());
        },
        Command::PageDown => {
            page_down(m.active_nav());
        },
        Command::First => {
            m.active_nav().selected = 0;
        },
        Command::Last => {
            let nav = m.active_nav();
            let len: usize = nav.entries.len();
            nav.selected = if len > 0 {
                len - 1
            } else {
                0
            };
        },
        Command::Restore => {
            m.status_message = "Restore: not yet implemented in TUI".to_owned();
        },
        Command::Copy => {
            m.status_message = "Copy: not yet implemented in TUI".to_owned();
        },
        Command::Export => {
            m.status_message = "Export: not yet implemented in TUI".to_owned();
        },
        Command::Info => {
            if let Some(t) = info_text(m.active_nav(), size) {
                m.status_message = t;
            }
        },
        Command::Refresh => {
            m.status_message = "Refreshed".to_owned();
            return AfterKey::ReadBoth;
        },
        Command::Ignore => {},
    }
    AfterKey::Nothing
}

/// A key leaves the browser exactly where it is one of those for it, and no other
/// key changes that.
pub proof fn only_quit_keys_quit(key: Key, ctrl: bool, p: Place)
    ensures
        rest_after(p, meaning(key, ctrl)) == AfterKey::Quit <==> key == Key::Char('q') || key
            == Key::Char('Q') || (key == Key::Char('c') && ctrl),
{
}

/// Every key has its meaning: letters do in either case but for those that move, and what
/// has none is ignored.
pub proof fn keys_have_meanings(key: Key, ctrl: bool)
    ensures
        ({
            let c = meaning(key, ctrl);
            &&& c == Command::Quit <==> key == Key::Char('q') || key == Key::Char('Q') || key
                == Key::Char('c') && ctrl
            &&& c == Command::Up <==> key == Key::Up || key == Key::Char('k')
            &&& c == Command::Down <==> key == Key::Down || key == Key::Char('j')
            &&& c == Command::Enter <==> key == Key::Enter
            &&& c == Command::Rise <==> key == Key::Backspace || key == Key::Esc
            &&& c == Command::Switch <==> key == Key::Tab
            &&& c == Command::PageUp <==> key == Key::PageUp
            &&& c == Command::PageDown <==> key == Key::PageDown
            &&& c == Command::First <==> key == Key::Home
            &&& c == Command::Last <==> key == Key::End
            &&& c == Command::Restore <==> key == Key::Char('r') || key == Key::Char('R')
            &&& c == Command::Copy <==> key == Key::Char('C') || key == Key::Char('c') && !ctrl
            &&& c == Command::Export <==> key == Key::Char('e') || key == Key::Char('E')
            &&& c == Command::Info <==> key == Key::Char('i') || key == Key::Char('I')
            &&& c == Command::Refresh <==> key == Key::F(5)
        }),
{
}

/// Moving goes as far as it is told, and stops at the first line and at the last.
pub proof fn moving_stops_at_the_ends(p: Place, n: nat)
    requires
        p.wf(),
        p.lines.len() > 0,
    ensures
        up_by(p, n).selected == if n <= p.selected {
            p.selected - n
        } else {
            0
        },
        down_by(p, n).selected == if p.selected + n <= p.lines.len() - 1 {
            p.selected + n
        } else {
            p.lines.len() - 1
        },
        up_by(p, n).lines == p.lines && up_by(p, n).dir == p.dir && up_by(p, n).title == p.title,
        down_by(p, n).lines == p.lines && down_by(p, n).dir == p.dir && down_by(p, n).title
            == p.title,
        place_after(p, Command::Up) == up_by(p, 1),
        place_after(p, Command::Down) == down_by(p, 1),
        place_after(p, Command::PageUp) == up_by(p, 20),
        place_after(p, Command::PageDown) == down_by(p, 20),
        place_after(p, Command::First) == up_by(p, p.lines.len()),
        place_after(p, Command::Last) == down_by(p, p.lines.len()),
{
}

/// Entering and rising change the place as the navigator says; nothing else but moving
/// does.
pub proof fn only_moving_changes_the_place(p: Place, c: Command)
    ensures
        place_after(p, Command::Enter) == p.entered(),
        place_after(p, Command::Rise) == p.risen(),
        c == Command::Quit || c == Command::Switch || c == Command::Restore || c == Command::Copy
            || c == Command::Export || c == Command::Info || c == Command::Refresh || c
            == Command::Ignore ==> place_after(p, c) == p,
        p.lines.len() == 0 ==> place_after(p, Command::Last).selected == 0 && place_after(
            p,
            Command::First,
        ).selected == 0,
{
}

/// A directory is read anew where one was entered or left; both are where it was asked
/// for.
pub proof fn what_changed_is_read(p: Place, c: Command)
    ensures
        ({
            let rest = rest_after(p, c);
            &&& rest == AfterKey::Quit <==> c == Command::Quit
            &&& rest == AfterKey::ReadBoth <==> c == Command::Refresh
            &&& rest == AfterKey::ReadActive <==> c == Command::Enter && p.on_dir() || c
                == Command::Rise && crate::path::parent(p.dir) is Some
        }),
{
}

/// What was done is told, and what is asked about the selected line; else the last message
/// stays.
pub proof fn messages_are_told(m: BrowserModel, c: Command, size: Seq<char>)
    ensures
        ({
            let p = m.active()@;
            let line = p.lines[p.selected];
            let told = message_after(m, c, size);
            &&& c == Command::Restore ==> told == "Restore: not yet implemented in TUI"@
            &&& c == Command::Copy ==> told == "Copy: not yet implemented in TUI"@
            &&& c == Command::Export ==> told == "Export: not yet implemented in TUI"@
            &&& c == Command::Refresh ==> told == "Refreshed"@
            &&& c == Command::Info && p.selected < p.lines.len() && line.is_dir ==> told
                == line.name + " | "@ + "DIR"@ + " | "@ + line.modified
            &&& c == Command::Info && p.selected < p.lines.len() && !line.is_dir ==> told
                == line.name + " | "@ + size + " | "@ + line.modified
            &&& c == Command::Info && p.selected >= p.lines.len() ==> told == m.status_message@
            &&& c != Command::Restore && c != Command::Copy && c != Command::Export && c
                != Command::Refresh && c != Command::Info ==> told == m.status_message@
        }),
{
}

} // verus!
