//! Walking through directories.

use crate::clock;
use crate::order;
use crate::path;
use crate::text;
use vstd::prelude::*;

verus! {

/// What is known of something in a directory.
#[derive(Debug, Clone, Copy, PartialEq, Eq, Structural)]
pub struct ItemMeta {
    pub is_dir: bool,
    pub size: u64,
    /// When it was last changed, in seconds since the epoch.
    pub modified: Option<u64>,
}

/// Something in a directory, as reading the directory gives it.
#[derive(Debug)]
pub struct Item {
    pub name: String,
    pub path: String,
    pub meta: Option<ItemMeta>,
}

/// A line of a listing: a file or a directory.
#[derive(Debug)]
pub struct Entry {
    pub name: String,
    pub path: String,
    pub is_dir: bool,
    pub size: u64,
    pub modified: String,
}

/// A line of a listing.
pub ghost struct Line {
    pub name: Seq<char>,
    pub path: Seq<char>,
    pub is_dir: bool,
    pub size: u64,
    pub modified: Seq<char>,
}

impl View for Entry {
    type V = Line;

    open spec fn view(&self) -> Line {
        Line {
            name: self.name@,
            path: self.path@,
            is_dir: self.is_dir,
            size: self.size,
            modified: self.modified@,
        }
    }
}

/// The lines that entries stand for.
pub open spec fn lines_of(entries: Seq<Entry>) -> Seq<Line> {
    Seq::new(entries.len(), |i: int| entries[i]@)
}

/// The names of lines.
pub open spec fn names(lines: Seq<Line>) -> Seq<Seq<char>> {
    Seq::new(lines.len(), |i: int| lines[i].name)
}

/// Whether a name is left out: metadata of the program's own, but not the
/// versions.
pub open spec fn is_left_out(name: Seq<char>) -> bool {
    text::starts_with(name, ".foxing"@) && !text::contains(name, "versions"@)
}

/// When something was last changed, as text; empty where it is not known.
pub open spec fn modified_text(meta: Option<ItemMeta>) -> Seq<char> {
    match meta {
        Some(m) => match m.modified {
            Some(secs) => match clock::utc_text(secs as i64, clock::listing_format()) {
                Some(t) => t,
                None => Seq::empty(),
            },
            None => Seq::empty(),
        },
        None => Seq::empty(),
    }
}

/// The line for something in a directory.
pub open spec fn line_for(item: Item) -> Line {
    Line {
        name: item.name@,
        path: item.path@,
        is_dir: item.meta matches Some(m) && m.is_dir,
        size: match item.meta {
            Some(m) => m.size,
            None => 0,
        },
        modified: modified_text(item.meta),
    }
}

/// The lines for the directories, or for the others, among the first `n` items.
pub open spec fn shown(items: Seq<Item>, n: nat, dirs: bool) -> Seq<Line>
    decreases n,
{
    if n == 0 {
        Seq::empty()
    } else {
        let before = shown(items, (n - 1) as nat, dirs);
        let line = line_for(items[n - 1]);
        if is_left_out(line.name) || line.is_dir != dirs {
            before
        } else {
            before.push(line)
        }
    }
}

/// The line that leads up, where there is an up.
pub open spec fn way_up(dir: Seq<char>) -> Seq<Line> {
    if path::parent(dir) is Some {
        seq![
            Line {
                name: ".."@,
                path: path::join(dir, ".."@),
                is_dir: true,
                size: 0,
                modified: Seq::empty(),
            },
        ]
    } else {
        Seq::empty()
    }
}

/// Whether `out` is `lines` sorted by name.
pub open spec fn is_sorted_by_name(lines: Seq<Line>, out: Seq<Line>) -> bool {
    exists|o: Seq<usize>| #[trigger]
        order::is_sorted_order(names(lines), o) && out == order::reorder(lines, o)
}

/// Whether `out` is the listing of a directory: the way up, the directories by
/// name, and the others by name.
pub open spec fn is_listing(dir: Seq<char>, items: Seq<Item>, out: Seq<Line>) -> bool {
    exists|d: Seq<Line>, f: Seq<Line>|
        {
            &&& #[trigger] is_sorted_by_name(shown(items, items.len(), true), d)
            &&& #[trigger] is_sorted_by_name(shown(items, items.len(), false), f)
            &&& out == way_up(dir) + d + f
        }
}

fn entry_for(item: Item) -> (e: Entry)
    ensures
        e@ == line_for(item),
{
    let is_dir = match item.meta {
        Some(m) => m.is_dir,
        None => false,
    };
    let size: u64 = match item.meta {
        Some(m) => m.size,
        None => 0,
    };
    let modified = match item.meta {
        Some(m) => match m.modified {
            Some(secs) => match clock::format_utc(secs as i64, "%Y-%m-%d %H:%M") {
                Some(t) => t,
                None => String::new(),
            },
            None => String::new(),
        },
        None => String::new(),
    };
    assert(modified@ =~= modified_text(item.meta));
    Entry { name: item.name, path: item.path, is_dir, size, modified }
}

fn sort_entries(v: Vec<Entry>) -> (out: Vec<Entry>)
    ensures
        is_sorted_by_name(lines_of(v@), lines_of(out@)),
{
    let mut keys: Vec<String> = Vec::new();
    let mut i: usize = 0;
    while i < v.len()
        invariant
            i <= v@.len(),
            keys@.len() == i,
            forall|j: int| 0 <= j < i ==> (#[trigger] keys@[j])@ == v@[j].name@,
        decreases v@.len() - i,
    {
        keys.push(v[i].name.clone());
        i = i + 1;
    }
    let ghost all = v@;
    assert(text::texts(keys@) =~= names(lines_of(all)));
    let out = order::arrange(v, &keys);
    proof {
        let o = choose|o: Seq<usize>| #[trigger]
            order::is_sorted_order(text::texts(keys@), o) && out@ == order::reorder(all, o);
        assert(order::is_sorted_order(names(lines_of(all)), o));
        assert(lines_of(out@) =~= order::reorder(lines_of(all), o));
    }
    out
}

/// Walks through directories: where it is, what is there, and what is selected.
#[derive(Debug)]
pub struct FileNavigator {
    pub current_dir: String,
    pub entries: Vec<Entry>,
    pub selected: usize,
    pub title: String,
}

/// A navigator, with texts for strings.
#[verifier::ext_equal]
pub ghost struct Place {
    pub dir: Seq<char>,
    pub lines: Seq<Line>,
    pub selected: int,
    pub title: Seq<char>,
}

impl View for FileNavigator {
    type V = Place;

    open spec fn view(&self) -> Place {
        Place {
            dir: self.current_dir@,
            lines: lines_of(self.entries@),
            selected: self.selected as int,
            title: self.title@,
        }
    }
}

impl Place {
    /// The selection is a line, or the first where there is none.
    pub open spec fn wf(self) -> bool {
        0 <= self.selected && (self.selected < self.lines.len() || self.selected == 0)
    }

    /// One line up, as far as there is one.
    pub open spec fn up(self) -> Place {
        Place {
            selected: if self.selected > 0 {
                self.selected - 1
            } else {
                self.selected
            },
            ..self
        }
    }

    /// One line down, as far as there is one.
    pub open spec fn down(self) -> Place {
        Place {
            selected: if self.selected + 1 < self.lines.len() {
                self.selected + 1
            } else {
                self.selected
            },
            ..self
        }
    }

    /// In another directory, with the first line selected. What is there has not
    /// been read yet.
    pub open spec fn moved(self, dir: Seq<char>) -> Place {
        Place { dir, selected: 0, ..self }
    }

    /// Whether the selected line is a directory.
    pub open spec fn on_dir(self) -> bool {
        0 <= self.selected < self.lines.len() && self.lines[self.selected].is_dir
    }

    /// Where the selected line leads, if it is a directory.
    pub open spec fn target(self) -> Seq<char> {
        let line = self.lines[self.selected];
        if line.name == ".."@ {
            match path::parent(self.dir) {
                Some(p) => p,
                None => self.dir,
            }
        } else {
            line.path
        }
    }

    /// Gone into the selected directory.
    pub open spec fn entered(self) -> Place {
        if self.on_dir() {
            self.moved(self.target())
        } else {
            self
        }
    }

    /// Gone up.
    pub open spec fn risen(self) -> Place {
        match path::parent(self.dir) {
            Some(p) => self.moved(p),
            None => self,
        }
    }

    /// With a listing, the selection kept where it can be.
    pub open spec fn listed(self, lines: Seq<Line>) -> Place {
        Place {
            lines,
            title: self.dir,
            selected: if self.selected < lines.len() {
                self.selected
            } else if lines.len() > 0 {
                lines.len() - 1
            } else {
                0
            },
            ..self
        }
    }
}

impl FileNavigator {
    /// Shows a directory with what is in it.
    pub fn new(root: &str, items: Vec<Item>) -> (nav: Self)
        ensures
            is_listing(root@, items@, nav@.lines),
            nav@ == (Place { dir: root@, lines: nav@.lines, selected: 0, title: root@ }),
            nav@.wf(),
    {
        let mut nav = FileNavigator {
            current_dir: root.to_owned(),
            entries: Vec::new(),
            selected: 0,
            title: root.to_owned(),
        };
        nav.refresh(items);
        nav
    }

    /// Shows what is in the directory now. A selection beyond the end becomes the
    /// last line.
    pub fn refresh(&mut self, items: Vec<Item>)
        ensures
            is_listing(old(self)@.dir, items@, final(self)@.lines),
            final(self)@ == old(self)@.listed(final(self)@.lines),
            final(self)@.wf(),
    {
        let ghost all = items@;
        let mut entries: Vec<Entry> = Vec::new();
        if path::parent_of(&self.current_dir).is_some() {
            entries.push(
                Entry {
                    name: "..".to_owned(),
                    path: path::join_path(&self.current_dir, ".."),
                    is_dir: true,
                    size: 0,
                    modified: String::new(),
                },
            );
        }
        assert(entries@.len() == 1 ==> entries@[0]@.modified =~= Seq::empty());
        assert(lines_of(entries@) =~= way_up(self.current_dir@));
        let mut dirs: Vec<Entry> = Vec::new();
        let mut files: Vec<Entry> = Vec::new();
        assert(lines_of(dirs@) =~= Seq::empty());
        assert(lines_of(files@) =~= Seq::empty());
        for item in it: items
            invariant
                it.seq() == all,
                lines_of(dirs@) == shown(all, it.index() as nat, true),
                lines_of(files@) == shown(all, it.index() as nat, false),
        {
            let ghost d = lines_of(dirs@);
            let ghost f = lines_of(files@);
            if !(text::has_prefix(&item.name, ".foxing") && !text::has_infix(
                &item.name,
                "versions",
            )) {
                let e = entry_for(item);
                let ghost line = e@;
                if e.is_dir {
                    dirs.push(e);
                    assert(lines_of(dirs@) =~= d.push(line));
                } else {
                    files.push(e);
                    assert(lines_of(files@) =~= f.push(line));
                }
            }
        }
        let mut dirs = sort_entries(dirs);
        let mut files = sort_entries(files);
        let ghost d = dirs@;
        let ghost f = files@;
        let ghost up = entries@;
        entries.append(&mut dirs);
        entries.append(&mut files);
        assert(lines_of(entries@) =~= lines_of(up) + lines_of(d) + lines_of(f));
        assert(is_sorted_by_name(shown(all, all.len(), true), lines_of(d)));
        assert(is_sorted_by_name(shown(all, all.len(), false), lines_of(f)));
        self.entries = entries;
        self.title = self.current_dir.clone();
        if self.selected >= self.entries.len() {
            if self.entries.len() > 0 {
                self.selected = self.entries.len() - 1;
            } else {
                self.selected = 0;
            }
        }
    }

    /// Selects the line above, if there is one.
    pub fn move_up(&mut self)
        ensures
            final(self)@ == old(self)@.up(),
            final(self).entries == old(self).entries,
            old(self)@.wf() ==> final(self)@.wf(),
    {
        if self.selected > 0 {
            self.selected = self.selected - 1;
        }
    }

    /// Selects the line below, if there is one.
    pub fn move_down(&mut self)
        ensures
            final(self)@ == old(self)@.down(),
            final(self).entries == old(self).entries,
            old(self)@.wf() ==> final(self)@.wf(),
    {
        if self.entries.len() > 0 && self.selected < self.entries.len() - 1 {
            self.selected = self.selected + 1;
        }
    }

    /// Goes into the selected directory, and says whether it did: what is there is
    /// to be read then.
    pub fn enter(&mut self) -> (moved: bool)
        ensures
            moved == old(self)@.on_dir(),
            final(self)@ == old(self)@.entered(),
            old(self)@.wf() ==> final(self)@.wf(),
    {
        if self.selected >= self.entries.len() || !self.entries[self.selected].is_dir {
            return false;
        }
        assert(self@.lines[self.selected as int] == self.entries@[self.selected as int]@);
        if text::same_text(&self.entries[self.selected].name, "..") {
            if let Some(p) = path::parent_of(&self.current_dir) {
                self.current_dir = p;
            }
        } else {
            self.current_dir = self.entries[self.selected].path.clone();
        }
        self.selected = 0;
        true
    }

    /// Goes up, and says whether it did: what is there is to be read then.
    pub fn go_up(&mut self) -> (moved: bool)
        ensures
            moved == (path::parent(old(self)@.dir) is Some),
            final(self)@ == old(self)@.risen(),
            old(self)@.wf() ==> final(self)@.wf(),
    {
        match path::parent_of(&self.current_dir) {
            Some(p) => {
                self.current_dir = p;
                self.selected = 0;
                true
            },
            None => false,
        }
    }

    /// The selected line.
    pub fn selected_entry(&self) -> (e: Option<&Entry>)
        ensures
            self.selected < self.entries@.len() ==> e == Some(&self.entries@[self.selected as int]),
            self.selected >= self.entries@.len() ==> e is None,
    {
        if self.selected < self.entries.len() {
            Some(&self.entries[self.selected])
        } else {
            None
        }
    }
}

proof fn shown_are_alike(items: Seq<Item>, n: nat, dirs: bool)
    requires
        n <= items.len(),
    ensures
        forall|i: int|
            0 <= i < shown(items, n, dirs).len() ==> (#[trigger] shown(items, n, dirs)[i]).is_dir
                == dirs,
    decreases n,
{
    if n > 0 {
        let before = shown(items, (n - 1) as nat, dirs);
        let all = shown(items, n, dirs);
        shown_are_alike(items, (n - 1) as nat, dirs);
        assert forall|i: int| 0 <= i < all.len() implies (#[trigger] all[i]).is_dir == dirs by {
            if i < before.len() {
                assert(all[i] == before[i]);
            }
        }
    }
}

/// In a listing every directory stands before every file.
pub proof fn directories_come_first(
    dir: Seq<char>,
    items: Seq<Item>,
    out: Seq<Line>,
    i: int,
    j: int,
)
    requires
        is_listing(dir, items, out),
        0 <= i < j < out.len(),
        out[j].is_dir,
    ensures
        out[i].is_dir,
{
    let all_dirs = shown(items, items.len(), true);
    let all_files = shown(items, items.len(), false);
    let (d, f) = choose|d: Seq<Line>, f: Seq<Line>|
        {
            &&& #[trigger] is_sorted_by_name(all_dirs, d)
            &&& #[trigger] is_sorted_by_name(all_files, f)
            &&& out == way_up(dir) + d + f
        };
    shown_are_alike(items, items.len(), true);
    shown_are_alike(items, items.len(), false);
    let fo = choose|o: Seq<usize>| #[trigger]
        order::is_sorted_order(names(all_files), o) && f == order::reorder(all_files, o);
    let dor = choose|o: Seq<usize>| #[trigger]
        order::is_sorted_order(names(all_dirs), o) && d == order::reorder(all_dirs, o);
    let u = way_up(dir).len();
    if j >= u + d.len() {
        let k = j - u - d.len();
        assert(out[j] == f[k]);
        assert(f[k] == all_files[fo[k] as int]);
        assert(false);
    }
    if i >= u {
        let k = i - u;
        assert(out[i] == d[k]);
        assert(d[k] == all_dirs[dor[k] as int]);
    }
}

/// An item is shown with its name and path as they are, and with what is known of it.
pub proof fn items_are_shown_as_they_are(item: Item)
    ensures
        ({
            let line = line_for(item);
            &&& line.name == item.name@
            &&& line.path == item.path@
            &&& item.meta is None ==> !line.is_dir && line.size == 0 && line.modified.len() == 0
            &&& item.meta matches Some(m) ==> {
                &&& line.is_dir == m.is_dir
                &&& line.size == m.size
                &&& m.modified is None ==> line.modified.len() == 0
                &&& m.modified matches Some(secs) ==> (match clock::utc_text(
                    secs as i64,
                    clock::listing_format(),
                ) {
                    Some(t) => line.modified == t,
                    None => line.modified.len() == 0,
                })
            }
        }),
{
}

/// The lines of one kind are those of all items of that kind, in order, but for the
/// program's own files.
pub proof fn shown_lines_are_filtered(items: Seq<Item>, n: nat, dirs: bool)
    requires
        n <= items.len(),
    ensures
        shown(items, n, dirs) == items.take(n as int).filter(
            |i: Item|
                (i.meta is Some && i.meta->0.is_dir) == dirs && (!".foxing"@.is_prefix_of(i.name@)
                    || text::contains(i.name@, "versions"@)),
        ).map_values(|i: Item| line_for(i)),
    decreases n,
{
    let keep = |i: Item|
        (i.meta is Some && i.meta->0.is_dir) == dirs && (!".foxing"@.is_prefix_of(i.name@)
            || text::contains(i.name@, "versions"@));
    let f = |i: Item| line_for(i);
    reveal(Seq::filter);
    if n > 0 {
        shown_lines_are_filtered(items, (n - 1) as nat, dirs);
        assert(items.take(n as int).drop_last() =~= items.take(n - 1));
        let before = items.take(n - 1).filter(keep);
        let last = items[n - 1];
        text::prefix_is_start(last.name@, ".foxing"@);
        assert(before.push(last).map_values(f) =~= before.map_values(f).push(line_for(last)));
    }
    assert(shown(items, n, dirs) =~= items.take(n as int).filter(keep).map_values(f));
}

/// A listing holds the way up, where there is one, and every line that is shown, once:
/// first the directories by name, then the files by name.
pub proof fn listing_is_complete(dir: Seq<char>, items: Seq<Item>, out: Seq<Line>)
    requires
        is_listing(dir, items, out),
    ensures
        ({
            let dirs = shown(items, items.len(), true);
            let files = shown(items, items.len(), false);
            let up = if path::parent(dir) is Some {
                1int
            } else {
                0
            };
            &&& out.len() == up + dirs.len() + files.len()
            &&& up == 1 ==> out[0].name == ".."@ && out[0].is_dir && out[0].path == path::join(
                dir,
                ".."@,
            ) && out[0].size == 0 && out[0].modified.len() == 0
            &&& forall|i: int, j: int|
                up <= i < j < up + dirs.len() ==> order::le(
                    (#[trigger] out[i]).name,
                    (#[trigger] out[j]).name,
                )
            &&& forall|i: int, j: int|
                up + dirs.len() <= i < j < out.len() ==> order::le(
                    (#[trigger] out[i]).name,
                    (#[trigger] out[j]).name,
                )
            &&& forall|k: int| 0 <= k < dirs.len() ==> out.contains(#[trigger] dirs[k])
            &&& forall|k: int| 0 <= k < files.len() ==> out.contains(#[trigger] files[k])
        }),
{
    let dirs = shown(items, items.len(), true);
    let files = shown(items, items.len(), false);
    let (d, f) = choose|d: Seq<Line>, f: Seq<Line>|
        {
            &&& #[trigger] is_sorted_by_name(dirs, d)
            &&& #[trigger] is_sorted_by_name(files, f)
            &&& out == way_up(dir) + d + f
        };
    sorting_keeps_all(dirs, d);
    sorting_keeps_all(files, f);
    let u = way_up(dir).len() as int;
    assert forall|i: int, j: int| u <= i < j < u + dirs.len() implies order::le(
        (#[trigger] out[i]).name,
        (#[trigger] out[j]).name,
    ) by {
        assert(out[i] == d[i - u] && out[j] == d[j - u]);
    }
    assert forall|i: int, j: int| u + dirs.len() <= i < j < out.len() implies order::le(
        (#[trigger] out[i]).name,
        (#[trigger] out[j]).name,
    ) by {
        assert(out[i] == f[i - u - d.len()] && out[j] == f[j - u - d.len()]);
    }
    assert forall|k: int| 0 <= k < dirs.len() implies out.contains(#[trigger] dirs[k]) by {
        assert(d.contains(dirs[k]));
        let m = choose|m: int| 0 <= m < d.len() && d[m] == dirs[k];
        assert(out[u + m] == dirs[k]);
    }
    assert forall|k: int| 0 <= k < files.len() implies out.contains(#[trigger] files[k]) by {
        assert(f.contains(files[k]));
        let m = choose|m: int| 0 <= m < f.len() && f[m] == files[k];
        assert(out[u + d.len() + m] == files[k]);
    }
}

proof fn sorting_keeps_all(lines: Seq<Line>, out: Seq<Line>)
    requires
        is_sorted_by_name(lines, out),
    ensures
        out.len() == lines.len(),
        forall|i: int, j: int|
            0 <= i < j < out.len() ==> order::le(
                (#[trigger] out[i]).name,
                (#[trigger] out[j]).name,
            ),
        forall|k: int| 0 <= k < lines.len() ==> out.contains(#[trigger] lines[k]),
{
    let keys = names(lines);
    let o = choose|o: Seq<usize>| #[trigger]
        order::is_sorted_order(keys, o) && out == order::reorder(lines, o);
    order::arrangement_is_sorted(keys, o);
    assert forall|i: int, j: int| 0 <= i < j < out.len() implies order::le(
        (#[trigger] out[i]).name,
        (#[trigger] out[j]).name,
    ) by {
        assert(order::le(keys[o[i] as int], keys[o[j] as int]));
    }
    assert forall|k: int| 0 <= k < lines.len() implies out.contains(#[trigger] lines[k]) by {
        order::order_is_onto(keys, o, k);
        let m = choose|m: int| 0 <= m < o.len() && (#[trigger] o[m]) == k;
        assert(out[m] == lines[k]);
    }
}

/// The selection moves by one line, and stays where there is no other.
pub proof fn selection_moves_by_one(p: Place)
    requires
        p.wf(),
    ensures
        p.selected > 0 ==> p.up().selected == p.selected - 1,
        p.selected == 0 ==> p.up() == p,
        p.selected < p.lines.len() - 1 ==> p.down().selected == p.selected + 1,
        p.selected >= p.lines.len() - 1 ==> p.down() == p,
        p.up().lines == p.lines && p.up().dir == p.dir && p.up().title == p.title,
        p.down().lines == p.lines && p.down().dir == p.dir && p.down().title == p.title,
{
}

/// Entering goes to the selected directory, or up where that is the way up; rising goes to
/// the directory above. Either starts at the first line, and only the directory changes.
pub proof fn entering_goes_there(p: Place)
    ensures
        ({
            let line = p.lines[p.selected];
            let there = 0 <= p.selected < p.lines.len() && line.is_dir;
            &&& p.on_dir() <==> there
            &&& !there ==> p.entered() == p
            &&& there && line.name != ".."@ ==> p.entered().dir == line.path
            &&& there && line.name == ".."@ && path::parent(p.dir) is Some ==> p.entered()
                == p.risen()
            &&& there && line.name == ".."@ && path::parent(p.dir) is None ==> p.entered().dir
                == p.dir
            &&& there ==> p.entered().selected == 0 && p.entered().lines == p.lines
                && p.entered().title == p.title
            &&& path::parent(p.dir) is None ==> p.risen() == p
            &&& path::parent(p.dir) matches Some(up) ==> p.risen().dir == up && p.risen().selected
                == 0 && p.risen().lines == p.lines && p.risen().title == p.title
        }),
{
}

/// A new listing keeps the selection where it can, and takes the last line where it cannot.
pub proof fn listing_keeps_selection(p: Place, lines: Seq<Line>)
    requires
        p.wf(),
    ensures
        p.listed(lines).lines == lines,
        p.listed(lines).dir == p.dir,
        p.listed(lines).title == p.dir,
        p.selected < lines.len() ==> p.listed(lines).selected == p.selected,
        p.selected >= lines.len() && lines.len() > 0 ==> p.listed(lines).selected == lines.len() - 1,
        lines.len() == 0 ==> p.listed(lines).selected == 0,
{
}

/// A navigator stands for its directory, its title, its selection and its entries, each
/// at its place.
pub proof fn entries_keep_their_places(n: FileNavigator)
    ensures
        n@.dir == n.current_dir@,
        n@.title == n.title@,
        n@.selected == n.selected,
        n@.lines.len() == n.entries@.len(),
        forall|i: int|
            0 <= i < n.entries@.len() ==> {
                let l = #[trigger] n@.lines[i];
                let e = n.entries@[i];
                l.name == e.name@ && l.path == e.path@ && l.is_dir == e.is_dir && l.size == e.size
                    && l.modified == e.modified@
            },
{
}

} // verus!
