//! What a file system can do, what lies beneath it, and in which surroundings
//! the program runs, out of what the system says of itself.

use crate::compress;
use crate::error::FxcpError;
use crate::operations::copy::{BTRFS_SUPER_MAGIC, F2FS_SUPER_MAGIC, NFS_SUPER_MAGIC};
use crate::path;
use crate::text;
use vstd::prelude::*;
use vstd::string::StringExecFns;

verus! {

/// The answer of `statx` has the limits of atomic writes.
pub const STATX_WRITE_ATOMIC: u32 = 0x0001_0000;

/// `flock`: let go.
pub const LOCK_UN: u32 = 8;

/// `flock`: do not wait.
pub const LOCK_NB: u32 = 4;

/// The longest name of a Btrfs subvolume, in bytes.
pub const MAX_SUBVOLUME_NAME: usize = 4039;

/// One thing to do with files.
#[derive(Debug)]
pub enum Operation {
    CopyFile { src: String, dst: String, src_file_size: u64, target_label: String },
    CopyRange {
        src: String,
        dst: String,
        offset: u64,
        length: u64,
        src_file_size: u64,
        target_label: String,
    },
    Truncate { dst: String, size: u64 },
    Rename { src: String, dst: String, flags: u32 },
    Fallocate { dst: String, mode: i32, offset: u64, length: u64 },
}

/// A file handle of the kernel.
#[derive(Debug, Clone, Copy)]
pub struct FileHandle {
    pub handle_bytes: u32,
    pub handle_type: i32,
    pub f_handle: [u8; 128],
}

/// Files that are removed when a job is given up.
#[derive(Debug)]
pub struct CleanupGuard {
    pub files: Vec<String>,
}

/// The paths among the first `n` that are not `p`.
pub open spec fn others(files: Seq<Seq<char>>, p: Seq<char>, n: nat) -> Seq<Seq<char>>
    decreases n,
{
    if n == 0 {
        Seq::empty()
    } else if path::same_path(files[n - 1], p) {
        others(files, p, (n - 1) as nat)
    } else {
        others(files, p, (n - 1) as nat).push(files[n - 1])
    }
}

impl CleanupGuard {
    /// A guard over some files.
    pub fn new(files: Vec<String>) -> (g: Self)
        ensures
            g.files == files,
    {
        CleanupGuard { files }
    }

    /// A guard over nothing.
    pub fn empty() -> (g: Self)
        ensures
            g.files@.len() == 0,
    {
        CleanupGuard { files: Vec::new() }
    }

    /// One file more.
    pub fn register(&mut self, p: String)
        ensures
            final(self).files@ == old(self).files@.push(p),
    {
        self.files.push(p);
    }

    /// A file is safe: it is not removed any more.
    pub fn disarm(&mut self, p: &str)
        ensures
            text::texts(final(self).files@) == others(
                text::texts(old(self).files@),
                p@,
                old(self).files@.len(),
            ),
    {
        let mut kept: Vec<String> = Vec::new();
        let ghost t = text::texts(self.files@);
        let mut i: usize = 0;
        assert(text::texts(kept@) =~= Seq::empty());
        while i < self.files.len()
            invariant
                i <= self.files@.len(),
                t == text::texts(self.files@),
                *self == *old(self),
                text::texts(kept@) == others(t, p@, i as nat),
            decreases self.files@.len() - i,
        {
            assert(t[i as int] == self.files@[i as int]@);
            let ghost before = kept@;
            if !path::same_path_exec(&self.files[i], p) {
                kept.push(self.files[i].clone());
                assert(text::texts(kept@) =~= text::texts(before).push(t[i as int]));
            }
            i = i + 1;
        }
        self.files = kept;
    }
}

/// A disarmed file is no longer on the list, under any spelling, and every other
/// file still is.
pub proof fn disarmed_file_survives(files: Seq<Seq<char>>, p: Seq<char>, n: nat)
    requires
        n <= files.len(),
    ensures
        forall|k: int|
            0 <= k < others(files, p, n).len() ==> !path::same_path(
                #[trigger] others(files, p, n)[k],
                p,
            ),
        forall|i: int|
            0 <= i < n && !path::same_path(#[trigger] files[i], p) ==> others(files, p, n).contains(
                files[i],
            ),
    decreases n,
{
    if n > 0 {
        let m = (n - 1) as nat;
        disarmed_file_survives(files, p, m);
        let before = others(files, p, m);
        let all = others(files, p, n);
        assert forall|i: int|
            0 <= i < n && !path::same_path(#[trigger] files[i], p) implies all.contains(
            files[i],
        ) by {
            if i < m {
                let k = choose|k: int| 0 <= k < before.len() && before[k] == files[i];
                assert(all[k] == files[i]);
            } else {
                assert(all[all.len() - 1] == files[i]);
            }
        }
    }
}

/// Whether the program runs in a container, and in which.
#[derive(Debug)]
pub struct ContainerInfo {
    pub in_container: bool,
    pub engine: Option<String>,
    pub rootless: bool,
}

/// A text without the `engine=`s at its beginning.
pub open spec fn without_engine(s: Seq<char>) -> Seq<char>
    decreases s.len(),
{
    if text::starts_with(s, "engine="@) && "engine="@.len() == 7 {
        without_engine(s.subrange(7, s.len() as int))
    } else {
        s
    }
}

/// A text without the quotes at its beginning.
pub open spec fn without_front_quotes(s: Seq<char>) -> Seq<char>
    decreases s.len(),
{
    if s.len() > 0 && s[0] == '"' {
        without_front_quotes(s.subrange(1, s.len() as int))
    } else {
        s
    }
}

/// A text without the quotes at its end.
pub open spec fn without_back_quotes(s: Seq<char>) -> Seq<char>
    decreases s.len(),
{
    if s.len() > 0 && s.last() == '"' {
        without_back_quotes(s.drop_last())
    } else {
        s
    }
}

/// The engine that a line of the container's environment names.
pub open spec fn engine_in(line: Seq<char>) -> Seq<char> {
    without_back_quotes(without_front_quotes(without_engine(line)))
}

/// The position of the first line from `i` on that names an engine.
pub open spec fn engine_line(lines: Seq<Seq<char>>, i: int) -> int
    decreases lines.len() - i,
{
    if 0 <= i < lines.len() && !text::starts_with(lines[i], "engine="@) {
        engine_line(lines, i + 1)
    } else {
        i
    }
}

fn engine_of(line: &str) -> (out: String)
    ensures
        out@ == engine_in(line@),
{
    let x = text::chars_of(line);
    let m = text::chars_of("engine=");
    proof {
        reveal_strlit("engine=");
    }
    let mut i: usize = 0;
    assert(x@.subrange(0, x@.len() as int) =~= x@);
    while i < x.len() && text::stands_at_exec(x.as_slice(), m.as_slice(), i)
        invariant
            i <= x@.len(),
            m@ == "engine="@,
            m@.len() == 7,
            without_engine(x@) == without_engine(x@.subrange(i as int, x@.len() as int)),
        decreases x@.len() - i,
    {
        proof {
            let rest = x@.subrange(i as int, x@.len() as int);
            assert(rest.subrange(0, 7) =~= x@.subrange(i as int, i + 7));
            assert(rest.subrange(7, rest.len() as int) =~= x@.subrange(i + 7, x@.len() as int));
        }
        i = i + 7;
    }
    proof {
        let rest = x@.subrange(i as int, x@.len() as int);
        if text::starts_with(rest, "engine="@) {
            assert(x@.subrange(i as int, i + 7) =~= rest.subrange(0, 7));
        }
        assert(without_engine(x@) == rest);
    }
    let ghost named = x@.subrange(i as int, x@.len() as int);
    while i < x.len() && x[i] == '"'
        invariant
            i <= x@.len(),
            without_front_quotes(named) == without_front_quotes(
                x@.subrange(i as int, x@.len() as int),
            ),
        decreases x@.len() - i,
    {
        assert(x@.subrange(i as int, x@.len() as int).subrange(1, x@.len() - i) =~= x@.subrange(
            i + 1,
            x@.len() as int,
        ));
        i = i + 1;
    }
    let ghost open = x@.subrange(i as int, x@.len() as int);
    assert(without_front_quotes(named) == open);
    let mut n: usize = x.len();
    while n > i && x[n - 1] == '"'
        invariant
            i <= n <= x@.len(),
            without_back_quotes(open) == without_back_quotes(x@.subrange(i as int, n as int)),
        decreases n,
    {
        assert(x@.subrange(i as int, n as int).drop_last() =~= x@.subrange(i as int, n - 1));
        n = n - 1;
    }
    text::string_of_range(x.as_slice(), i, n)
}

/// In which container the program runs, by the text of `/run/.containerenv`
/// where there is one, and by whether `/.dockerenv` is there.
pub fn detect_container(containerenv: &Option<String>, dockerenv: bool) -> (c: ContainerInfo)
    ensures
        match *containerenv {
            Some(t) => {
                let lines = text::lines(t@);
                let k = engine_line(lines, 0);
                &&& c.in_container
                &&& c.rootless == text::contains(t@, "rootless=1"@)
                &&& k < lines.len() ==> c.engine is Some && c.engine->0@ == engine_in(lines[k])
                &&& k >= lines.len() ==> c.engine is None
            },
            None => {
                &&& c.in_container == dockerenv
                &&& !c.rootless
                &&& dockerenv ==> c.engine is Some && c.engine->0@ == "docker"@
                &&& !dockerenv ==> c.engine is None
            },
        },
{
    match containerenv {
        Some(t) => {
            let lines = text::split_lines(t);
            let ghost l = text::lines(t@);
            let mut i: usize = 0;
            while i < lines.len() && !text::has_prefix(&lines[i], "engine=")
                invariant
                    i <= lines@.len(),
                    text::texts(lines@) == l,
                    engine_line(l, 0) == engine_line(l, i as int),
                decreases lines@.len() - i,
            {
                assert(l[i as int] == lines@[i as int]@);
                i = i + 1;
            }
            let engine = if i < lines.len() {
                assert(l[i as int] == lines@[i as int]@);
                Some(engine_of(&lines[i]))
            } else {
                None
            };
            ContainerInfo {
                in_container: true,
                engine,
                rootless: text::has_infix(t, "rootless=1"),
            }
        },
        None => if dockerenv {
            ContainerInfo { in_container: true, engine: Some("docker".to_owned()), rootless: false }
        } else {
            ContainerInfo { in_container: false, engine: None, rootless: false }
        },
    }
}

/// The mount that a line of the mount table describes, where `canonical` is on
/// it: mount point and source.
pub open spec fn mount_on(line: Seq<char>, canonical: Seq<char>) -> Option<(Seq<char>, Seq<char>)> {
    let f = text::words(line);
    let sep = text::find_text(f, "-"@, 0);
    if f.len() >= 10 && sep + 2 < f.len() && path::is_under(canonical, f[4]) {
        Some((f[4], f[sep + 2]))
    } else {
        None
    }
}

/// The source of the longest mount point among the first `n` lines, with the
/// length of that.
pub open spec fn deepest_source(lines: Seq<Seq<char>>, canonical: Seq<char>, n: nat) -> (
    nat,
    Seq<char>,
)
    decreases n,
{
    if n == 0 {
        (0, Seq::empty())
    } else {
        let before = deepest_source(lines, canonical, (n - 1) as nat);
        match mount_on(lines[n - 1], canonical) {
            Some(m) => if text::byte_len(m.0) > before.0 {
                (text::byte_len(m.0), m.1)
            } else {
                before
            },
            None => before,
        }
    }
}

fn read_mount(line: &str, canonical: &str) -> (res: Option<(String, String)>)
    ensures
        match mount_on(line@, canonical@) {
            Some(m) => res matches Some(r) && r.0@ == m.0 && r.1@ == m.1,
            None => res is None,
        },
{
    let f = text::split_words(line);
    let ghost w = text::words(line@);
    assert(w.len() == f@.len());
    assert forall|i: int| 0 <= i < w.len() implies w[i] == #[trigger] f@[i]@ by {
        assert(text::texts(f@)[i] == f@[i]@);
    }
    if f.len() < 10 {
        return None;
    }
    let sep: usize = text::position_of(&f, "-");
    if sep >= f.len() || f.len() - sep < 3 {
        return None;
    }
    if !path::path_starts_with(canonical, &f[4]) {
        return None;
    }
    Some((f[4].clone(), f[sep + 2].clone()))
}

/// The device that a canonical path is on, by the text of the mount table; none
/// where the mount has no device.
pub fn resolve_backing_device(canonical: &str, table: &str) -> (res: Option<String>)
    ensures
        ({
            let lines = text::lines(table@);
            let source = deepest_source(lines, canonical@, lines.len()).1;
            if source.len() == 0 || source == "none"@ || source == "overlay"@ {
                res is None
            } else {
                res is Some && res->0@ == source
            }
        }),
{
    let lines = text::split_lines(table);
    let ghost t = text::lines(table@);
    let mut best_len: usize = 0;
    let mut best = String::new();
    assert(best@ =~= Seq::empty());
    let mut i: usize = 0;
    while i < lines.len()
        invariant
            i <= lines@.len(),
            text::texts(lines@) == t,
            (best_len as nat, best@) == deepest_source(t, canonical@, i as nat),
        decreases lines@.len() - i,
    {
        assert(t[i as int] == lines@[i as int]@);
        if let Some((point, source)) = read_mount(&lines[i], canonical) {
            let len: usize = text::byte_len_of(&point);
            if len > best_len {
                best_len = len;
                best = source;
            }
        }
        i = i + 1;
    }
    if text::chars_of(&best).len() == 0 || text::same_text(&best, "none") || text::same_text(
        &best,
        "overlay",
    ) {
        None
    } else {
        Some(best)
    }
}

/// The name of a block device: that of the device a mapper name points to, or
/// its own.
pub fn resolve_sysfs_block_name(device: &str, link: &Option<String>) -> (res: Option<String>)
    ensures
        ({
            let target = if text::starts_with(device@, "/dev/mapper/"@) {
                match *link {
                    Some(l) => Some(l@),
                    None => None,
                }
            } else {
                Some(device@)
            };
            match target {
                Some(t) => match path::file_name(t) {
                    Some(n) => res is Some && res->0@ == n,
                    None => res is None,
                },
                None => res is None,
            }
        }),
{
    if text::has_prefix(device, "/dev/mapper/") {
        match link {
            Some(l) => path::file_name_of(l),
            None => None,
        }
    } else {
        path::file_name_of(device)
    }
}

/// The layers of device mapping beneath a file system.
#[derive(Debug)]
pub struct DmStackInfo {
    pub has_crypt: bool,
    pub has_integrity: bool,
    pub has_cache: bool,
    pub has_thin: bool,
    pub has_vdo: bool,
    pub has_stratis: bool,
    pub crypt_sector_size: u32,
    pub integrity_tag_size: u32,
    pub stack_depth: u8,
    pub physical_block_size: u32,
    pub optimal_io_size: u32,
    pub base_device: Option<String>,
}

impl Default for DmStackInfo {
    fn default() -> (d: Self)
        ensures
            !d.has_crypt && !d.has_integrity && !d.has_cache && !d.has_thin && !d.has_vdo
                && !d.has_stratis,
            d.crypt_sector_size == 0,
            d.integrity_tag_size == 0,
            d.stack_depth == 0,
            d.physical_block_size == 512,
            d.optimal_io_size == 0,
            d.base_device is None,
    {
        DmStackInfo {
            has_crypt: false,
            has_integrity: false,
            has_cache: false,
            has_thin: false,
            has_vdo: false,
            has_stratis: false,
            crypt_sector_size: 0,
            integrity_tag_size: 0,
            stack_depth: 0,
            physical_block_size: 512,
            optimal_io_size: 0,
            base_device: None,
        }
    }
}

/// What kind of layer a device is, by its identifier.
#[derive(Debug, Clone, Copy, PartialEq, Eq, Structural)]
pub enum Layer {
    /// Encrypted, with sectors of 4096 bytes.
    CryptLarge,
    /// Encrypted, with sectors of 512 bytes.
    CryptSmall,
    Integrity,
    Lvm,
    Vdo,
    Other,
}

/// What kind of layer a device is, by its identifier.
pub open spec fn layer_of(uuid: Seq<char>) -> Layer {
    if text::starts_with(uuid, "CRYPT-LUKS2-"@) {
        Layer::CryptLarge
    } else if text::starts_with(uuid, "CRYPT-LUKS1-"@) || text::starts_with(uuid, "CRYPT-"@) {
        Layer::CryptSmall
    } else if text::starts_with(uuid, "INTEGRITY-"@) {
        Layer::Integrity
    } else if text::starts_with(uuid, "LVM-"@) {
        Layer::Lvm
    } else if text::starts_with(uuid, "VDO-"@) {
        Layer::Vdo
    } else {
        Layer::Other
    }
}

fn layer_in(uuid: &str) -> (l: Layer)
    ensures
        l == layer_of(uuid@),
{
    if text::has_prefix(uuid, "CRYPT-LUKS2-") {
        Layer::CryptLarge
    } else if text::has_prefix(uuid, "CRYPT-LUKS1-") || text::has_prefix(uuid, "CRYPT-") {
        Layer::CryptSmall
    } else if text::has_prefix(uuid, "INTEGRITY-") {
        Layer::Integrity
    } else if text::has_prefix(uuid, "LVM-") {
        Layer::Lvm
    } else if text::has_prefix(uuid, "VDO-") {
        Layer::Vdo
    } else {
        Layer::Other
    }
}

/// Whether a device is named like part of a thin pool.
pub open spec fn is_thin_name(name: Seq<char>) -> bool {
    text::contains(text::trim(name), "tpool"@) || text::contains(text::trim(name), "thin"@)
}

impl DmStackInfo {
    /// One layer more, with this identifier and perhaps this name.
    pub open spec fn with_layer(self, uuid: Seq<char>, name: Option<Seq<char>>) -> Self {
        let l = layer_of(text::trim(uuid));
        DmStackInfo {
            stack_depth: (self.stack_depth + 1) as u8,
            has_crypt: self.has_crypt || l == Layer::CryptLarge || l == Layer::CryptSmall,
            crypt_sector_size: if l == Layer::CryptLarge {
                4096
            } else if l == Layer::CryptSmall {
                512
            } else {
                self.crypt_sector_size
            },
            has_integrity: self.has_integrity || l == Layer::Integrity,
            integrity_tag_size: if l == Layer::Integrity {
                4096
            } else {
                self.integrity_tag_size
            },
            has_thin: self.has_thin || (l == Layer::Lvm && (name matches Some(n) && is_thin_name(
                n,
            ))),
            has_vdo: self.has_vdo || l == Layer::Vdo,
            has_stratis: self.has_stratis || (name matches Some(n) && text::contains(
                text::trim(n),
                "stratis"@,
            )),
            ..self
        }
    }

    /// Takes a device with its identifier and its name, where they can be read.
    /// A device without an identifier is no layer.
    pub fn on_device(&mut self, uuid: &Option<String>, name: &Option<String>)
        requires
            old(self).stack_depth < 255,
        ensures
            *final(self) == (match *uuid {
                Some(u) => old(self).with_layer(
                    u@,
                    match *name {
                        Some(n) => Some(n@),
                        None => None,
                    },
                ),
                None => *old(self),
            }),
    {
        if let Some(u) = uuid {
            self.stack_depth = self.stack_depth + 1;
            let l = layer_in(&text::trimmed(u));
            match l {
                Layer::CryptLarge => {
                    self.has_crypt = true;
                    self.crypt_sector_size = 4096;
                },
                Layer::CryptSmall => {
                    self.has_crypt = true;
                    self.crypt_sector_size = 512;
                },
                Layer::Integrity => {
                    self.has_integrity = true;
                    self.integrity_tag_size = 4096;
                },
                Layer::Lvm => {
                    if let Some(n) = name {
                        let t = text::trimmed(n);
                        if text::has_infix(&t, "tpool") || text::has_infix(&t, "thin") {
                            self.has_thin = true;
                        }
                    }
                },
                Layer::Vdo => {
                    self.has_vdo = true;
                },
                Layer::Other => {},
            }
            if let Some(n) = name {
                if text::has_infix(&text::trimmed(n), "stratis") {
                    self.has_stratis = true;
                }
            }
        }
    }

    /// Takes the devices that a device is made of: where it is made of exactly
    /// one, that one is looked at next; otherwise the walk ends, at the device
    /// itself or at the first of several.
    pub fn on_slaves(&mut self, current: &str, slaves: &Option<Vec<String>>) -> (next: Option<String>)
        ensures
            ({
                let base = match *slaves {
                    Some(s) => if s@.len() == 0 {
                        Some(current@)
                    } else if s@.len() == 1 {
                        None
                    } else {
                        Some(s@[0]@)
                    },
                    None => Some(current@),
                };
                match base {
                    Some(b) => {
                        &&& next is None
                        &&& final(self).base_device is Some
                        &&& final(self).base_device->0@ == b
                        &&& *final(self) == (DmStackInfo {
                            base_device: final(self).base_device,
                            ..*old(self)
                        })
                    },
                    None => {
                        &&& next is Some
                        &&& next->0@ == slaves->0@[0]@
                        &&& *final(self) == *old(self)
                    },
                }
            }),
    {
        match slaves {
            Some(s) => {
                if s.len() == 1 {
                    return Some(s[0].clone());
                }
                if s.len() == 0 {
                    self.base_device = Some(current.to_owned());
                } else {
                    self.base_device = Some(s[0].clone());
                }
                None
            },
            None => {
                self.base_device = Some(current.to_owned());
                None
            },
        }
    }

    /// Takes the sizes that the base device states, where they can be read. What
    /// is no number counts as 512 and as zero.
    pub fn on_queue(&mut self, physical: &Option<String>, optimal: &Option<String>)
        ensures
            final(self).physical_block_size == (match *physical {
                Some(t) => match text::parse_number(text::trim(t@), u32::MAX as nat) {
                    Some(n) => n as u32,
                    None => 512,
                },
                None => old(self).physical_block_size,
            }),
            final(self).optimal_io_size == (match *optimal {
                Some(t) => match text::parse_number(text::trim(t@), u32::MAX as nat) {
                    Some(n) => n as u32,
                    None => 0,
                },
                None => old(self).optimal_io_size,
            }),
            *final(self) == (DmStackInfo {
                physical_block_size: final(self).physical_block_size,
                optimal_io_size: final(self).optimal_io_size,
                ..*old(self)
            }),
    {
        if let Some(t) = physical {
            self.physical_block_size = match text::parse_decimal(
                &text::trimmed(t),
                u32::MAX as u64,
            ) {
                Some(n) => n as u32,
                None => 512,
            };
        }
        if let Some(t) = optimal {
            self.optimal_io_size = match text::parse_decimal(&text::trimmed(t), u32::MAX as u64) {
                Some(n) => n as u32,
                None => 0,
            };
        }
    }
}

/// What a file system can do.
#[derive(Debug)]
pub struct Capabilities {
    pub atomic_writes: bool,
    pub atomic_min_bytes: u32,
    pub atomic_max_bytes: u32,
    pub uncached_io: bool,
    pub exchange_range: bool,
    pub reflink: bool,
    pub seek_hole: bool,
    pub btrfs_subvol: bool,
    pub btrfs_quotas: bool,
    pub f2fs_atomic_legacy: bool,
    pub is_nfs: bool,
    pub dm_stack: Option<DmStackInfo>,
    pub container: Option<ContainerInfo>,
}

impl Default for Capabilities {
    fn default() -> (c: Self)
        ensures
            !c.atomic_writes && !c.uncached_io && c.exchange_range && !c.reflink && !c.seek_hole
                && !c.btrfs_subvol && !c.btrfs_quotas && !c.f2fs_atomic_legacy && !c.is_nfs,
            c.atomic_min_bytes == 0,
            c.atomic_max_bytes == 0,
            c.dm_stack is None,
            c.container is None,
    {
        Capabilities {
            atomic_writes: false,
            atomic_min_bytes: 0,
            atomic_max_bytes: 0,
            uncached_io: false,
            exchange_range: true,
            reflink: false,
            seek_hole: false,
            btrfs_subvol: false,
            btrfs_quotas: false,
            f2fs_atomic_legacy: false,
            is_nfs: false,
            dm_stack: None,
            container: None,
        }
    }
}

/// The answer of `statx` on atomic writes.
#[derive(Debug, Clone, Copy, PartialEq, Eq, Structural)]
pub struct AtomicLimits {
    pub mask: u32,
    pub unit_min: u32,
    pub unit_max: u32,
}

/// What trying things out on a file system has shown.
#[derive(Debug, Clone, Copy, PartialEq, Eq, Structural)]
pub struct Findings {
    /// What the kernel says of atomic writes, where it says something.
    pub atomic: Option<AtomicLimits>,
    pub uncached_io: bool,
    /// The type of the file system, where it is known.
    pub magic: Option<i64>,
    /// Holes can be found by seeking.
    pub seek_hole: bool,
    /// Quota groups are on.
    pub quotas: bool,
    /// Blocks can be shared.
    pub reflink: bool,
}

impl Findings {
    /// Whether the kernel offers atomic writes.
    pub open spec fn kernel_atomic(self) -> bool {
        self.atomic matches Some(a) && a.mask & STATX_WRITE_ATOMIC != 0 && a.unit_max > 0
    }

    /// Whether the file system is F2FS, which has atomic writes of its own.
    pub open spec fn is_f2fs(self) -> bool {
        self.magic == Some(F2FS_SUPER_MAGIC)
    }
}

/// What a file system can do, by what was found. F2FS offers atomic writes in
/// its own way where the kernel does not.
pub fn probe_capabilities(
    f: &Findings,
    dm_stack: Option<DmStackInfo>,
    container: ContainerInfo,
) -> (c: Capabilities)
    ensures
        c.atomic_writes == (f.kernel_atomic() || f.is_f2fs()),
        f.kernel_atomic() ==> c.atomic_min_bytes == f.atomic->0.unit_min && c.atomic_max_bytes
            == f.atomic->0.unit_max,
        !f.kernel_atomic() && f.is_f2fs() ==> c.atomic_min_bytes == 4096 && c.atomic_max_bytes
            == u32::MAX,
        !f.kernel_atomic() && !f.is_f2fs() ==> c.atomic_min_bytes == 0 && c.atomic_max_bytes == 0,
        c.uncached_io == f.uncached_io,
        c.exchange_range,
        c.reflink == f.reflink,
        c.seek_hole == f.seek_hole,
        !c.btrfs_subvol,
        c.btrfs_quotas == f.quotas,
        c.f2fs_atomic_legacy == f.is_f2fs(),
        c.is_nfs == (f.magic == Some(NFS_SUPER_MAGIC)),
        c.dm_stack == dm_stack,
        c.container == Some(container),
{
    let mut c = Capabilities::default();
    if let Some(a) = f.atomic {
        if a.mask & STATX_WRITE_ATOMIC != 0 && a.unit_max > 0 {
            c.atomic_min_bytes = a.unit_min;
            c.atomic_max_bytes = a.unit_max;
            c.atomic_writes = true;
        }
    }
    c.uncached_io = f.uncached_io;
    if let Some(m) = f.magic {
        if m == NFS_SUPER_MAGIC {
            c.is_nfs = true;
        }
        if m == F2FS_SUPER_MAGIC {
            c.f2fs_atomic_legacy = true;
            if !c.atomic_writes {
                c.atomic_writes = true;
                c.atomic_min_bytes = 4096;
                c.atomic_max_bytes = u32::MAX;
            }
        }
    }
    c.seek_hole = f.seek_hole;
    c.btrfs_quotas = f.quotas;
    c.reflink = f.reflink;
    c.dm_stack = dm_stack;
    c.container = Some(container);
    c
}

/// The identifier of a file system as text: hexadecimal in five groups.
pub open spec fn uuid_text(id: Seq<u8>) -> Seq<char> {
    compress::hex_text(id.subrange(0, 4)) + "-"@ + compress::hex_text(id.subrange(4, 6)) + "-"@
        + compress::hex_text(id.subrange(6, 8)) + "-"@ + compress::hex_text(id.subrange(8, 10))
        + "-"@ + compress::hex_text(id.subrange(10, 16))
}

fn hex_part(id: &[u8; 16], from: usize, to: usize) -> (out: String)
    requires
        from <= to <= 16,
    ensures
        out@ == compress::hex_text(id@.subrange(from as int, to as int)),
{
    let part = vstd::slice::slice_subrange(id.as_slice(), from, to);
    compress::hex_encode(part)
}

/// The two places of which one is there where a Btrfs file system counts quotas.
pub fn probe_btrfs_quotas(id: &[u8; 16]) -> (out: (String, String))
    ensures
        out.0@ == "/sys/fs/btrfs/"@ + uuid_text(id@) + "/qgroups"@,
        out.1@ == "/sys/fs/btrfs/"@ + uuid_text(id@) + "/quota_override"@,
{
    let mut u = text::concat3(&hex_part(id, 0, 4), "-", &hex_part(id, 4, 6));
    u.append("-");
    u.append(&hex_part(id, 6, 8));
    u.append("-");
    u.append(&hex_part(id, 8, 10));
    u.append("-");
    u.append(&hex_part(id, 10, 16));
    (
        text::concat3("/sys/fs/btrfs/", &u, "/qgroups"),
        text::concat3("/sys/fs/btrfs/", &u, "/quota_override"),
    )
}

/// The position of the first zero byte from `i` on; the length where there is
/// none.
pub open spec fn first_zero(b: Seq<u8>, i: int) -> int
    decreases b.len() - i,
{
    if 0 <= i < b.len() && b[i] != 0 {
        first_zero(b, i + 1)
    } else {
        i
    }
}

fn zero_position(b: &[u8]) -> (p: usize)
    ensures
        p == first_zero(b@, 0),
        p <= b@.len(),
{
    let mut i: usize = 0;
    while i < b.len() && b[i] != 0
        invariant
            i <= b@.len(),
            first_zero(b@, 0) == first_zero(b@, i as int),
        decreases b@.len() - i,
    {
        i = i + 1;
    }
    i
}

/// The name in a buffer that ends in a zero byte, or fills it.
pub fn btrfs_resolve_inode(buffer: &[u8]) -> (name: Vec<u8>)
    ensures
        name@ == buffer@.subrange(0, first_zero(buffer@, 0)),
{
    let p: usize = zero_position(buffer);
    crate::bytes::copy_range(buffer, 0, p)
}

/// The bytes of a name for a subvolume: it has no zero byte and is not too long.
fn subvolume_name(name: &str, invalid: &str, too_long: &str) -> (res: Result<Vec<u8>, FxcpError>)
    ensures
        ({
            let b = vstd::utf8::encode_utf8(name@);
            if first_zero(b, 0) < b.len() {
                res matches Err(FxcpError::Config(m)) && m@ == invalid@
            } else if b.len() > MAX_SUBVOLUME_NAME {
                res matches Err(FxcpError::Config(m)) && m@ == too_long@
            } else {
                res is Ok && res->Ok_0@ == b
            }
        }),
{
    let b = name.as_bytes();
    if zero_position(b) < b.len() {
        return Err(FxcpError::Config(invalid.to_owned()));
    }
    if b.len() > MAX_SUBVOLUME_NAME {
        return Err(FxcpError::Config(too_long.to_owned()));
    }
    let out: Vec<u8> = crate::bytes::copy_range(b, 0, b.len());
    assert(out@ =~= b@);
    Ok(out)
}

/// The bytes of a name for a Btrfs snapshot, where it can have that name.
pub fn btrfs_create_snapshot(name: &str) -> (res: Result<Vec<u8>, FxcpError>)
    ensures
        ({
            let b = vstd::utf8::encode_utf8(name@);
            if first_zero(b, 0) < b.len() {
                res matches Err(FxcpError::Config(m)) && m@ == "Invalid snapshot name"@
            } else if b.len() > MAX_SUBVOLUME_NAME {
                res matches Err(FxcpError::Config(m)) && m@ == "Snapshot name too long"@
            } else {
                res is Ok && res->Ok_0@ == b
            }
        }),
{
    subvolume_name(name, "Invalid snapshot name", "Snapshot name too long")
}

/// The bytes of a name for a Btrfs subvolume, where it can have that name.
pub fn btrfs_create_subvol(name: &str) -> (res: Result<Vec<u8>, FxcpError>)
    ensures
        ({
            let b = vstd::utf8::encode_utf8(name@);
            if first_zero(b, 0) < b.len() {
                res matches Err(FxcpError::Config(m)) && m@ == "Invalid subvol name"@
            } else if b.len() > MAX_SUBVOLUME_NAME {
                res matches Err(FxcpError::Config(m)) && m@ == "Subvolume name too long"@
            } else {
                res is Ok && res->Ok_0@ == b
            }
        }),
{
    subvolume_name(name, "Invalid subvol name", "Subvolume name too long")
}

/// What to do about a lock on a file.
#[derive(Debug, Clone, Copy, PartialEq, Eq, Structural)]
pub enum LockAction {
    /// Let go of it.
    Unlock,
    /// Take it with these flags, without waiting.
    Lock { flags: i32 },
}

/// What to do about a lock on a file.
pub fn apply_lock(lock_type: u32) -> (a: LockAction)
    ensures
        a == (if lock_type & LOCK_UN != 0 {
            LockAction::Unlock
        } else {
            LockAction::Lock { flags: (lock_type as i32) | (LOCK_NB as i32) }
        }),
{
    if lock_type & LOCK_UN != 0 {
        LockAction::Unlock
    } else {
        LockAction::Lock { flags: (lock_type as i32) | (LOCK_NB as i32) }
    }
}

/// Disarming takes out what names the path, and nothing else, and keeps the order.
pub proof fn disarming_is_filtering(files: Seq<Seq<char>>, p: Seq<char>, n: nat)
    requires
        n <= files.len(),
    ensures
        others(files, p, n) == files.take(n as int).filter(
            |f: Seq<char>| path::components(f) != path::components(p),
        ),
    decreases n,
{
    let keep = |f: Seq<char>| path::components(f) != path::components(p);
    reveal(Seq::filter);
    if n > 0 {
        disarming_is_filtering(files, p, (n - 1) as nat);
        assert(files.take(n as int).drop_last() =~= files.take(n - 1));
    }
    assert(others(files, p, n) =~= files.take(n as int).filter(keep));
}

/// The engine is told by the first line that names one.
pub proof fn first_engine_line_counts(lines: Seq<Seq<char>>, i: int)
    requires
        0 <= i <= lines.len(),
    ensures
        ({
            let k = engine_line(lines, i);
            &&& i <= k <= lines.len()
            &&& k < lines.len() ==> "engine="@.is_prefix_of(lines[k])
            &&& forall|j: int| i <= j < k ==> !"engine="@.is_prefix_of(#[trigger] lines[j])
        }),
    decreases lines.len() - i,
{
    if i < lines.len() {
        text::prefix_is_start(lines[i], "engine="@);
        if !text::starts_with(lines[i], "engine="@) {
            first_engine_line_counts(lines, i + 1);
        }
    }
}

/// What is named behind `engine=` is the engine, with or without quotes around it.
pub proof fn engine_is_named(name: Seq<char>)
    requires
        name.len() > 0,
        name[0] != '"',
        name.last() != '"',
        !"engine="@.is_prefix_of(name),
    ensures
        engine_in("engine="@ + name) == name,
        engine_in("engine="@ + seq!['"'] + name + seq!['"']) == name,
{
    reveal_strlit("engine=");
    reveal_with_fuel(without_engine, 2);
    reveal_with_fuel(without_front_quotes, 2);
    reveal_with_fuel(without_back_quotes, 2);
    let bare = "engine="@ + name;
    text::prefix_is_start(bare, "engine="@);
    text::prefix_is_start(name, "engine="@);
    assert(bare.subrange(7, bare.len() as int) =~= name);
    let quoted = seq!['"'] + name + seq!['"'];
    let full = "engine="@ + seq!['"'] + name + seq!['"'];
    assert(full =~= "engine="@ + quoted);
    text::prefix_is_start(full, "engine="@);
    text::prefix_is_start(quoted, "engine="@);
    assert(full.subrange(7, full.len() as int) =~= quoted);
    assert(quoted[0] == '"' && "engine="@[0] == 'e');
    let open = quoted.subrange(1, quoted.len() as int);
    assert(open =~= name + seq!['"']);
    assert(open[0] == name[0]);
    assert(open.drop_last() =~= name);
}

/// A line of the mount table tells of a path where it has all its fields and its mount
/// point is above the path: that point, and the source behind the hyphen.
pub proof fn mounts_cover_paths(line: Seq<char>, canonical: Seq<char>)
    ensures
        ({
            let f = text::words(line);
            let sep = text::find_text(f, seq!['-'], 0);
            &&& mount_on(line, canonical) is Some <==> f.len() >= 10 && sep + 2 < f.len()
                && path::components(f[4]).is_prefix_of(path::components(canonical))
            &&& mount_on(line, canonical) matches Some(m) ==> m.0 == f[4] && m.1 == f[sep + 2]
        }),
{
    reveal_strlit("-");
    assert("-"@ =~= seq!['-']);
    path::under_is_longer(canonical, text::words(line)[4]);
}

/// The source is that of the mount with the longest point above the path, the first of
/// those that are as long.
pub proof fn deepest_mount_wins(lines: Seq<Seq<char>>, canonical: Seq<char>, n: nat) -> (at: int)
    requires
        n <= lines.len(),
    ensures
        ({
            let found = deepest_source(lines, canonical, n);
            &&& -1 <= at < n
            &&& at < 0 ==> found == (0nat, Seq::<char>::empty())
            &&& at >= 0 ==> (mount_on(lines[at], canonical) matches Some(m) && found.0
                == text::byte_len(m.0) && found.1 == m.1 && found.0 > 0)
            &&& forall|i: int|
                0 <= i < n ==> (#[trigger] mount_on(lines[i], canonical) matches Some(m)
                    ==> text::byte_len(m.0) <= found.0 && (i < at ==> text::byte_len(m.0)
                    < found.0))
        }),
    decreases n,
{
    if n == 0 {
        -1
    } else {
        let at = deepest_mount_wins(lines, canonical, (n - 1) as nat);
        let before = deepest_source(lines, canonical, (n - 1) as nat);
        match mount_on(lines[n - 1], canonical) {
            Some(m) => if text::byte_len(m.0) > before.0 {
                n - 1
            } else {
                at
            },
            None => at,
        }
    }
}

/// The kind of a mapped device stands at the start of its identifier.
pub proof fn identifier_tells_layer(uuid: Seq<char>)
    ensures
        ({
            let l = layer_of(uuid);
            let crypt = "CRYPT-"@.is_prefix_of(uuid);
            let large = "CRYPT-LUKS2-"@.is_prefix_of(uuid);
            &&& l == Layer::CryptLarge <==> large
            &&& l == Layer::CryptSmall <==> crypt && !large
            &&& l == Layer::Integrity <==> "INTEGRITY-"@.is_prefix_of(uuid)
            &&& l == Layer::Lvm <==> "LVM-"@.is_prefix_of(uuid)
            &&& l == Layer::Vdo <==> "VDO-"@.is_prefix_of(uuid)
        }),
{
    reveal_strlit("CRYPT-");
    reveal_strlit("CRYPT-LUKS2-");
    reveal_strlit("CRYPT-LUKS1-");
    reveal_strlit("INTEGRITY-");
    reveal_strlit("LVM-");
    reveal_strlit("VDO-");
    text::prefix_is_start(uuid, "CRYPT-"@);
    text::prefix_is_start(uuid, "CRYPT-LUKS2-"@);
    text::prefix_is_start(uuid, "CRYPT-LUKS1-"@);
    text::prefix_is_start(uuid, "INTEGRITY-"@);
    text::prefix_is_start(uuid, "LVM-"@);
    text::prefix_is_start(uuid, "VDO-"@);
    assert("CRYPT-"@[0] == 'C' && "CRYPT-LUKS2-"@[0] == 'C' && "CRYPT-LUKS1-"@[0] == 'C'
        && "INTEGRITY-"@[0] == 'I' && "LVM-"@[0] == 'L' && "VDO-"@[0] == 'V');
    assert("CRYPT-"@.is_prefix_of("CRYPT-LUKS2-"@));
    assert("CRYPT-"@.is_prefix_of("CRYPT-LUKS1-"@));
}

/// A layer adds to what is known of a stack: what was found stays found, and each kind
/// of layer sets its own marks.
pub proof fn layers_add_up(d: DmStackInfo, uuid: Seq<char>, name: Option<Seq<char>>)
    requires
        d.stack_depth < 255,
    ensures
        ({
            let l = layer_of(text::trim(uuid));
            let after = d.with_layer(uuid, name);
            let crypt = l == Layer::CryptLarge || l == Layer::CryptSmall;
            &&& after.stack_depth == d.stack_depth + 1
            &&& after.has_crypt <==> d.has_crypt || crypt
            &&& l == Layer::CryptLarge ==> after.crypt_sector_size == 4096
            &&& l == Layer::CryptSmall ==> after.crypt_sector_size == 512
            &&& !crypt ==> after.crypt_sector_size == d.crypt_sector_size
            &&& after.has_integrity <==> d.has_integrity || l == Layer::Integrity
            &&& l == Layer::Integrity ==> after.integrity_tag_size == 4096
            &&& l != Layer::Integrity ==> after.integrity_tag_size == d.integrity_tag_size
            &&& after.has_thin <==> d.has_thin || l == Layer::Lvm && name is Some && (
            text::contains(text::trim(name->0), "tpool"@) || text::contains(
                text::trim(name->0),
                "thin"@,
            ))
            &&& after.has_vdo <==> d.has_vdo || l == Layer::Vdo
            &&& after.has_stratis <==> d.has_stratis || name is Some && text::contains(
                text::trim(name->0),
                "stratis"@,
            )
            &&& after.has_cache == d.has_cache
            &&& after.physical_block_size == d.physical_block_size
            &&& after.optimal_io_size == d.optimal_io_size
            &&& after.base_device == d.base_device
        }),
{
}

/// Atomic writes are there where the kernel says so and gives them a size, and F2FS is
/// told by its magic number.
pub proof fn findings_tell_capabilities(f: Findings)
    ensures
        f.kernel_atomic() <==> (f.atomic is Some && f.atomic->0.mask & 0x0001_0000u32 != 0
            && f.atomic->0.unit_max > 0),
        f.is_f2fs() <==> f.magic is Some && f.magic->0 == 0xF2F52010,
{
}

/// An identifier is written as its thirty-two digits, with hyphens behind the eighth,
/// the twelfth, the sixteenth and the twentieth.
pub proof fn identifier_has_hyphens(id: Seq<u8>)
    requires
        id.len() == 16,
    ensures
        ({
            let t = uuid_text(id);
            let h = compress::hex_text(id);
            &&& t.len() == 36
            &&& t[8] == '-' && t[13] == '-' && t[18] == '-' && t[23] == '-'
            &&& t.subrange(0, 8) == h.subrange(0, 8)
            &&& t.subrange(9, 13) == h.subrange(8, 12)
            &&& t.subrange(14, 18) == h.subrange(12, 16)
            &&& t.subrange(19, 23) == h.subrange(16, 20)
            &&& t.subrange(24, 36) == h.subrange(20, 32)
        }),
{
    reveal_strlit("-");
    let t = uuid_text(id);
    let h = compress::hex_text(id);
    hex_of_part(id, 0, 4);
    hex_of_part(id, 4, 6);
    hex_of_part(id, 6, 8);
    hex_of_part(id, 8, 10);
    hex_of_part(id, 10, 16);
    assert(t.subrange(0, 8) =~= h.subrange(0, 8));
    assert(t.subrange(9, 13) =~= h.subrange(8, 12));
    assert(t.subrange(14, 18) =~= h.subrange(12, 16));
    assert(t.subrange(19, 23) =~= h.subrange(16, 20));
    assert(t.subrange(24, 36) =~= h.subrange(20, 32));
}

proof fn hex_of_part(id: Seq<u8>, a: int, b: int)
    requires
        0 <= a <= b <= id.len(),
    ensures
        compress::hex_text(id.subrange(a, b)) == compress::hex_text(id).subrange(2 * a, 2 * b),
{
    let part = compress::hex_text(id.subrange(a, b));
    let whole = compress::hex_text(id).subrange(2 * a, 2 * b);
    assert forall|i: int| 0 <= i < part.len() implies part[i] == whole[i] by {
        assert((2 * a + i) / 2 == a + i / 2 && (2 * a + i) % 2 == i % 2);
        assert(id.subrange(a, b)[i / 2] == id[a + i / 2]);
    }
    assert(part =~= whole);
}

/// A name in a buffer ends at its first zero.
pub proof fn name_ends_at_first_zero(b: Seq<u8>, i: int)
    requires
        0 <= i <= b.len(),
    ensures
        i <= first_zero(b, i) <= b.len(),
        first_zero(b, i) < b.len() ==> b[first_zero(b, i)] == 0,
        forall|j: int| i <= j < first_zero(b, i) ==> b[j] != 0,
    decreases b.len() - i,
{
    if i < b.len() && b[i] != 0 {
        name_ends_at_first_zero(b, i + 1);
    }
}

} // verus!
