//! Which NFS mount a path is on, and what its options say, out of the text of
//! the mount table (`/proc/self/mountinfo`); and the file handle that the server
//! knows, out of the one that the kernel keeps.

use crate::bytes;
use crate::path;
use crate::text;
use vstd::prelude::*;

verus! {

/// The port that NFS servers listen on unless told otherwise.
pub const NFS_PORT: u16 = 2049;

/// The size of the kernel's buffer for a file handle.
pub const MAX_HANDLE_SZ: usize = 128;

/// The bytes that the kernel's NFS client puts ahead of the server's handle.
pub const HANDLE_HEADER: usize = 14;

/// A mounted NFSv4.2 file system that takes compound calls directly.
#[derive(Debug)]
pub struct NfsBypassInfo {
    /// Name or address of the server.
    pub server: String,
    /// TCP port of the server.
    pub port: u16,
    /// The exported directory on the server.
    pub export_path: String,
    /// Where it is mounted.
    pub mount_point: String,
    /// Whether the mount options name version 4.2.
    pub v42_confirmed: bool,
}

/// One line of the mount table: mount point, source, options of the file system.
pub ghost struct Mount {
    pub point: Seq<char>,
    pub source: Seq<char>,
    pub options: Seq<char>,
}

/// Whether a type of file system is NFS.
pub open spec fn is_nfs_type(t: Seq<char>) -> bool {
    t == "nfs"@ || t == "nfs4"@
}

/// The NFS mount that a line of the table describes, where it describes one that
/// `canonical` is on. A line has at least ten words; the fifth is the mount
/// point, and after a lone dash come type, source and options.
pub open spec fn nfs_mount(line: Seq<char>, canonical: Seq<char>) -> Option<Mount> {
    let f = text::words(line);
    let sep = text::find_text(f, "-"@, 0);
    if f.len() >= 10 && sep + 3 <= f.len() && is_nfs_type(f[sep + 1]) && path::is_under(
        canonical,
        f[4],
    ) {
        Some(
            Mount {
                point: f[4],
                source: f[sep + 2],
                options: if sep + 3 < f.len() {
                    f[sep + 3]
                } else {
                    ""@
                },
            },
        )
    } else {
        None
    }
}

/// The NFS mount with the longest mount point among the first `n` lines, the
/// first of several of that length.
pub open spec fn best_mount(lines: Seq<Seq<char>>, canonical: Seq<char>, n: nat) -> Option<Mount>
    decreases n,
{
    if n == 0 {
        None
    } else {
        let before = best_mount(lines, canonical, (n - 1) as nat);
        match (nfs_mount(lines[n - 1], canonical), before) {
            (Some(m), Some(b)) => if text::byte_len(m.point) > text::byte_len(b.point) {
                Some(m)
            } else {
                before
            },
            (Some(m), None) => Some(m),
            (None, _) => before,
        }
    }
}

/// Whether mount options ask for Kerberos.
pub open spec fn wants_kerberos(options: Seq<char>) -> bool {
    text::contains(options, "sec=krb5"@)
}

/// Whether mount options ask for Kerberos, in any of its flavors.
pub fn requires_kerberos(options: &str) -> (yes: bool)
    ensures
        yes == wants_kerberos(options@),
{
    text::has_infix(options, "sec=krb5")
}

/// Whether mount options name NFS version 4.2.
pub open spec fn names_v42(options: Seq<char>) -> bool {
    ||| text::contains(options, "vers=4.2"@)
    ||| text::contains(options, "nfsvers=4.2"@)
    ||| text::contains(options, "vers=4,2"@)
    ||| text::contains(options, "minorversion=2"@)
}

/// Whether mount options name NFS version 4.2.
pub fn is_v42(options: &str) -> (yes: bool)
    ensures
        yes == names_v42(options@),
{
    text::has_infix(options, "vers=4.2") || text::has_infix(options, "nfsvers=4.2")
        || text::has_infix(options, "vers=4,2") || text::has_infix(options, "minorversion=2")
}

/// Splits a source `server:/export` at its first colon.
pub fn split_source(source: &str) -> (res: Option<(String, String)>)
    ensures
        match text::cut_at(source@, ':') {
            Some(t) => res matches Some(r) && r.0@ == t.0 && r.1@ == t.1,
            None => res is None,
        },
{
    text::split_once(source, ':')
}

/// The port that one option sets.
pub open spec fn port_option(option: Seq<char>) -> Option<nat> {
    match text::cut_at(option, '=') {
        Some(t) => if t.0 == "port"@ {
            text::parse_number(t.1, 65535)
        } else {
            None
        },
        None => None,
    }
}

/// The port that the first of the options from `i` on sets that sets one.
pub open spec fn port_from(options: Seq<Seq<char>>, i: int) -> nat
    decreases options.len() - i,
{
    if 0 <= i < options.len() {
        match port_option(options[i]) {
            Some(p) => p,
            None => port_from(options, i + 1),
        }
    } else {
        NFS_PORT as nat
    }
}

/// The port in comma-separated mount options, or the usual one.
pub open spec fn port_of(options: Seq<char>) -> nat {
    port_from(text::split(options, ','), 0)
}

/// The port in comma-separated mount options, or the usual one.
pub fn server_port(options: &str) -> (port: u16)
    ensures
        port == port_of(options@),
{
    let list = text::split_on(options, ',');
    let mut i: usize = 0;
    while i < list.len()
        invariant
            i <= list@.len(),
            text::texts(list@) == text::split(options@, ','),
            port_of(options@) == port_from(text::texts(list@), i as int),
        decreases list@.len() - i,
    {
        assert(text::texts(list@)[i as int] == list@[i as int]@);
        if let Some((key, value)) = text::split_once(&list[i], '=') {
            if text::same_text(&key, "port") {
                if let Some(p) = text::parse_decimal(&value, 65535) {
                    return p as u16;
                }
            }
        }
        i = i + 1;
    }
    NFS_PORT
}

/// Reads one line of the mount table.
fn read_line(line: &str, canonical: &str) -> (res: Option<(String, String, String)>)
    ensures
        match nfs_mount(line@, canonical@) {
            Some(m) => res matches Some(r) && r.0@ == m.point && r.1@ == m.source && r.2@
                == m.options,
            None => res is None,
        },
{
    let f = text::split_words(line);
    let ghost w = text::words(line@);
    assert(w.len() == f@.len());
    assert forall|i: int| 0 <= i < w.len() implies w[i] == #[trigger] f@[i]@ by {
        assert(text::texts(f@)[i] == f@[i]@);
    }
    if f.len() < 10 {
        return None;
    }
    let sep: usize = text::position_of(&f, "-");
    if sep >= f.len() || f.len() - sep < 3 {
        return None;
    }
    if !text::same_text(&f[sep + 1], "nfs") && !text::same_text(&f[sep + 1], "nfs4") {
        return None;
    }
    if !path::path_starts_with(canonical, &f[4]) {
        return None;
    }
    let options = if f.len() - sep > 3 {
        f[sep + 3].clone()
    } else {
        "".to_owned()
    };
    Some((f[4].clone(), f[sep + 2].clone(), options))
}

/// What the mount table says of a path: `None` where the path is on no NFS
/// mount, where the mount wants Kerberos, where it is not version 4.2, or where
/// its source names no server.
pub open spec fn bypass_for(canonical: Seq<char>, table: Seq<char>) -> Option<Mount> {
    let lines = text::lines(table);
    match best_mount(lines, canonical, lines.len()) {
        Some(m) => if !wants_kerberos(m.options) && names_v42(m.options) && text::cut_at(
            m.source,
            ':',
        ) is Some {
            Some(m)
        } else {
            None
        },
        None => None,
    }
}

/// Whether a canonical path is on an NFSv4.2 mount that takes compound calls,
/// by the text of the mount table. Finding the server's address is left to the
/// caller.
pub fn probe_nfs_bypass(canonical: &str, table: &str) -> (res: Option<NfsBypassInfo>)
    ensures
        match bypass_for(canonical@, table@) {
            Some(m) => {
                &&& res is Some
                &&& res->0.mount_point@ == m.point
                &&& text::cut_at(m.source, ':') == Some((res->0.server@, res->0.export_path@))
                &&& res->0.port == port_of(m.options)
                &&& res->0.v42_confirmed
            },
            None => res is None,
        },
{
    let lines = text::split_lines(table);
    let mut best: Option<(String, String, String)> = None;
    let mut i: usize = 0;
    while i < lines.len()
        invariant
            i <= lines@.len(),
            text::texts(lines@) == text::lines(table@),
            match best_mount(text::lines(table@), canonical@, i as nat) {
                Some(m) => best matches Some(b) && b.0@ == m.point && b.1@ == m.source && b.2@
                    == m.options,
                None => best is None,
            },
        decreases lines@.len() - i,
    {
        assert(text::texts(lines@)[i as int] == lines@[i as int]@);
        if let Some(found) = read_line(&lines[i], canonical) {
            let better = match &best {
                Some(b) => text::byte_len_of(&found.0) > text::byte_len_of(&b.0),
                None => true,
            };
            if better {
                best = Some(found);
            }
        }
        i = i + 1;
    }
    let (point, source, options) = match best {
        Some(b) => b,
        None => return None,
    };
    if requires_kerberos(&options) || !is_v42(&options) {
        return None;
    }
    match split_source(&source) {
        Some((server, export_path)) => Some(
            NfsBypassInfo {
                server,
                port: server_port(&options),
                export_path,
                mount_point: point,
                v42_confirmed: true,
            },
        ),
        None => None,
    }
}

/// The number of a mount: unreadable, none so far, or that of the longest mount
/// point so far and the length of it.
pub ghost enum MountId {
    Broken,
    Unseen,
    Found(nat, nat),
}

/// The mount that `canonical` is on by the first `n` lines. Lines of fewer than
/// five words do not count; a line whose first word is no number spoils all.
pub open spec fn mount_id_in(lines: Seq<Seq<char>>, canonical: Seq<char>, n: nat) -> MountId
    decreases n,
{
    if n == 0 {
        MountId::Unseen
    } else {
        let before = mount_id_in(lines, canonical, (n - 1) as nat);
        let f = text::words(lines[n - 1]);
        if before is Broken || f.len() < 5 {
            before
        } else {
            match text::parse_number(f[0], u64::MAX as nat) {
                None => MountId::Broken,
                Some(id) => {
                    let len = text::byte_len(f[4]);
                    let longer = match before {
                        MountId::Found(best, _) => len > best,
                        _ => true,
                    };
                    if path::is_under(canonical, f[4]) && longer {
                        MountId::Found(len, id)
                    } else {
                        before
                    }
                },
            }
        }
    }
}

proof fn broken_stays_broken(lines: Seq<Seq<char>>, canonical: Seq<char>, i: nat, n: nat)
    requires
        i <= n,
        mount_id_in(lines, canonical, i) is Broken,
    ensures
        mount_id_in(lines, canonical, n) is Broken,
    decreases n,
{
    if i < n {
        broken_stays_broken(lines, canonical, i, (n - 1) as nat);
    }
}

/// The number of the mount that a canonical path is on. Unlike the device
/// number it changes when the file system is unmounted and mounted again.
pub fn get_mount_id(canonical: &str, table: &str) -> (res: Option<u64>)
    ensures
        match mount_id_in(text::lines(table@), canonical@, text::lines(table@).len()) {
            MountId::Found(_, id) => res == Some(id as u64) && id <= u64::MAX,
            _ => res is None,
        },
{
    let lines = text::split_lines(table);
    let ghost t = text::lines(table@);
    let mut best: Option<(usize, u64)> = None;
    let mut i: usize = 0;
    while i < lines.len()
        invariant
            i <= lines@.len(),
            t == text::lines(table@),
            text::texts(lines@) == t,
            match mount_id_in(t, canonical@, i as nat) {
                MountId::Found(len, id) => best matches Some(b) && b.0 == len && b.1 == id,
                MountId::Unseen => best is None,
                MountId::Broken => false,
            },
        decreases lines@.len() - i,
    {
        assert(t[i as int] == lines@[i as int]@);
        let f = text::split_words(&lines[i]);
        let ghost w = text::words(t[i as int]);
        assert(w.len() == f@.len());
        assert forall|k: int| 0 <= k < w.len() implies w[k] == #[trigger] f@[k]@ by {
            assert(text::texts(f@)[k] == f@[k]@);
        }
        if f.len() >= 5 {
            let id: u64 = match text::parse_decimal(&f[0], u64::MAX) {
                Some(v) => v,
                None => {
                    proof {
                        assert(mount_id_in(t, canonical@, (i + 1) as nat) is Broken);
                        broken_stays_broken(t, canonical@, (i + 1) as nat, t.len());
                    }
                    return None;
                },
            };
            if path::path_starts_with(canonical, &f[4]) {
                let len: usize = text::byte_len_of(&f[4]);
                let longer = match best {
                    Some((b, _)) => len > b,
                    None => true,
                };
                if longer {
                    best = Some((len, id));
                }
            }
        }
        i = i + 1;
    }
    match best {
        Some((_, id)) => Some(id),
        None => None,
    }
}

/// `s` without the zeros at its end.
pub open spec fn without_zeros(s: Seq<u8>) -> Seq<u8>
    decreases s.len(),
{
    if s.len() > 0 && s.last() == 0 {
        without_zeros(s.drop_last())
    } else {
        s
    }
}

/// The handle that the server gave out, within the one that the kernel keeps. A
/// handle of type 2 or above has the server's handle behind a header and in
/// front of zeros; any other handle is taken whole, and so is one that has
/// nothing there.
pub open spec fn server_handle(raw: Seq<u8>, kind: i32) -> Seq<u8> {
    if kind >= 2 && raw.len() > HANDLE_HEADER && without_zeros(
        raw.subrange(HANDLE_HEADER as int, raw.len() as int),
    ).len() > 0 {
        without_zeros(raw.subrange(HANDLE_HEADER as int, raw.len() as int))
    } else {
        raw
    }
}

/// Takes the server's handle out of the kernel's.
pub fn wire_handle(raw: &[u8], kind: i32) -> (out: Vec<u8>)
    ensures
        out@ == server_handle(raw@, kind),
{
    if kind >= 2 && raw.len() > HANDLE_HEADER {
        let ghost region = raw@.subrange(HANDLE_HEADER as int, raw@.len() as int);
        let mut end: usize = raw.len();
        assert(region.subrange(0, end - HANDLE_HEADER) =~= region);
        while end > HANDLE_HEADER && raw[end - 1] == 0
            invariant
                HANDLE_HEADER <= end <= raw@.len(),
                region == raw@.subrange(HANDLE_HEADER as int, raw@.len() as int),
                without_zeros(region) == without_zeros(region.subrange(0, end - HANDLE_HEADER)),
            decreases end,
        {
            proof {
                let part = region.subrange(0, end - HANDLE_HEADER);
                assert(part.last() == raw@[end - 1]);
                assert(part.drop_last() =~= region.subrange(0, end - 1 - HANDLE_HEADER));
            }
            end = end - 1;
        }
        proof {
            let part = region.subrange(0, end - HANDLE_HEADER);
            if end > HANDLE_HEADER {
                assert(part.last() == raw@[end - 1]);
            }
            assert(without_zeros(region) == part);
            assert(part =~= raw@.subrange(HANDLE_HEADER as int, end as int));
        }
        if end > HANDLE_HEADER {
            return bytes::copy_range(raw, HANDLE_HEADER, end);
        }
    }
    bytes::copy_range(raw, 0, raw.len())
}

/// The handle out of the kernel's answer: `length` bytes of the buffer count.
/// `None` where the kernel claims more than the buffer holds.
pub fn resolve_nfs_handle(length: u32, kind: i32, buffer: &[u8]) -> (res: Option<Vec<u8>>)
    requires
        buffer@.len() == MAX_HANDLE_SZ,
    ensures
        length > MAX_HANDLE_SZ ==> res is None,
        length <= MAX_HANDLE_SZ ==> res is Some && res->0@ == server_handle(
            buffer@.subrange(0, length as int),
            kind,
        ),
{
    if length as usize > MAX_HANDLE_SZ {
        return None;
    }
    let raw = vstd::slice::slice_subrange(buffer, 0, length as usize);
    Some(wire_handle(raw, kind))
}

/// What `without_zeros` keeps ends in no zero and is the beginning of what it
/// was given.
pub proof fn handle_ends_in_data(s: Seq<u8>)
    ensures
        without_zeros(s).len() <= s.len(),
        without_zeros(s) == s.subrange(0, without_zeros(s).len() as int),
        without_zeros(s).len() > 0 ==> without_zeros(s).last() != 0,
        forall|i: int| without_zeros(s).len() <= i < s.len() ==> s[i] == 0,
    decreases s.len(),
{
    if s.len() > 0 && s.last() == 0 {
        let t = s.drop_last();
        handle_ends_in_data(t);
        assert(s.subrange(0, without_zeros(s).len() as int) =~= t.subrange(
            0,
            without_zeros(s).len() as int,
        ));
        assert forall|i: int| without_zeros(s).len() <= i < s.len() implies s[i] == 0 by {
            if i < t.len() {
                assert(t[i] == s[i]);
            }
        }
    } else {
        assert(s.subrange(0, s.len() as int) =~= s);
    }
}

/// A line of the mount table tells of a network mount above a path by its type, whatever
/// else is mounted: its point, its source and its options.
pub proof fn network_mounts_are_told(line: Seq<char>, canonical: Seq<char>)
    ensures
        ({
            let f = text::words(line);
            let sep = text::find_text(f, seq!['-'], 0);
            let kind = f[sep + 1];
            &&& nfs_mount(line, canonical) is Some <==> f.len() >= 10 && sep + 3 <= f.len() && (kind
                == seq!['n', 'f', 's'] || kind == seq!['n', 'f', 's', '4']) && path::components(
                f[4],
            ).is_prefix_of(path::components(canonical))
            &&& nfs_mount(line, canonical) matches Some(m) ==> m.point == f[4] && m.source == f[sep
                + 2] && (sep + 3 < f.len() ==> m.options == f[sep + 3]) && (sep + 3 >= f.len()
                ==> m.options.len() == 0)
        }),
{
    reveal_strlit("-");
    reveal_strlit("nfs");
    reveal_strlit("nfs4");
    reveal_strlit("");
    assert("-"@ =~= seq!['-']);
    assert("nfs"@ =~= seq!['n', 'f', 's']);
    assert("nfs4"@ =~= seq!['n', 'f', 's', '4']);
    path::under_is_longer(canonical, text::words(line)[4]);
}

/// Of the network mounts above a path the one with the longest point counts, and the
/// first of those.
pub proof fn deepest_network_mount_wins(
    lines: Seq<Seq<char>>,
    canonical: Seq<char>,
    n: nat,
) -> (at: int)
    requires
        n <= lines.len(),
    ensures
        ({
            let best = best_mount(lines, canonical, n);
            &&& -1 <= at < n
            &&& at < 0 <==> best is None
            &&& at >= 0 ==> best == nfs_mount(lines[at], canonical)
            &&& forall|i: int|
                0 <= i < n ==> (#[trigger] nfs_mount(lines[i], canonical) matches Some(m) ==> at
                    >= 0 && text::byte_len(m.point) <= text::byte_len(best->0.point) && (i < at
                    ==> text::byte_len(m.point) < text::byte_len(best->0.point)))
        }),
    decreases n,
{
    if n == 0 {
        -1
    } else {
        let at = deepest_network_mount_wins(lines, canonical, (n - 1) as nat);
        let before = best_mount(lines, canonical, (n - 1) as nat);
        match (nfs_mount(lines[n - 1], canonical), before) {
            (Some(m), Some(b)) => if text::byte_len(m.point) > text::byte_len(b.point) {
                n - 1
            } else {
                at
            },
            (Some(m), None) => n - 1,
            (None, _) => at,
        }
    }
}

/// A mount can be written to directly where it is of the protocol's version, asks for no
/// Kerberos and names its server; the server's port is the one given, or the standard one.
pub proof fn bypass_needs_version_and_server(canonical: Seq<char>, table: Seq<char>)
    ensures
        ({
            let lines = text::lines(table);
            let best = best_mount(lines, canonical, lines.len());
            let o = best->0.options;
            &&& bypass_for(canonical, table) is Some <==> best is Some && !text::contains(
                o,
                "sec=krb5"@,
            ) && (text::contains(o, "vers=4.2"@) || text::contains(o, "nfsvers=4.2"@)
                || text::contains(o, "vers=4,2"@) || text::contains(o, "minorversion=2"@))
                && text::cut_at(best->0.source, ':') is Some
            &&& bypass_for(canonical, table) is Some ==> bypass_for(canonical, table) == best
        }),
{
}

/// The port is that of the first option that names one as a number, else the standard
/// one.
pub proof fn first_port_counts(options: Seq<Seq<char>>, i: int, p: nat)
    requires
        0 <= i <= options.len(),
        p <= 65535,
    ensures
        (forall|j: int| i <= j < options.len() ==> port_option(#[trigger] options[j]) is None)
            ==> port_from(options, i) == 2049,
        forall|k: int|
            i <= k < options.len() && (#[trigger] port_option(options[k])) == Some(p) && (forall|
                j: int,
            |
                i <= j < k ==> port_option(#[trigger] options[j]) is None) ==> port_from(options, i)
                == p,
        port_option("port="@ + text::decimal(p)) == Some(p),
        forall|o: Seq<char>| (#[trigger] port_option(o)) is Some ==> "port="@.is_prefix_of(o),
    decreases options.len() - i,
{
    reveal_strlit("port=");
    reveal_strlit("port");
    let name = "port"@;
    let full = "port="@ + text::decimal(p);
    assert(full =~= name + seq!['='] + text::decimal(p));
    text::cut_is_at_the_first(name, text::decimal(p), '=');
    text::numbers_are_digits(p, 65535, full);
    assert forall|o: Seq<char>| (#[trigger] port_option(o)) is Some implies "port="@.is_prefix_of(
        o,
    ) by {
        text::find_char_in_bounds(o, '=', 0);
        let q = text::find_char(o, '=', 0);
        assert(o.subrange(0, q) == name);
        assert(q == 4);
        assert(o.subrange(0, 5) =~= o.subrange(0, 4).push(o[4]));
        assert("port="@ =~= name.push('='));
        assert(o.subrange(0, 5) =~= "port="@);
    }
    if i < options.len() {
        first_port_counts(options, i + 1, p);
    }
}

/// A file's mount is the one with the longest point above it, among the lines before the
/// first that cannot be read.
pub proof fn mount_is_found_by_its_point(lines: Seq<Seq<char>>, canonical: Seq<char>, n: nat) -> (
    at: int)
    requires
        n <= lines.len(),
    ensures
        ({
            let found = mount_id_in(lines, canonical, n);
            let readable = |l: Seq<char>|
                text::words(l).len() < 5 || text::parse_number(
                    text::words(l)[0],
                    0xffff_ffff_ffff_ffff,
                ) is Some;
            let above = |l: Seq<char>|
                text::words(l).len() >= 5 && path::is_under(canonical, text::words(l)[4]);
            &&& found is Broken <==> exists|i: int| 0 <= i < n && !readable(#[trigger] lines[i])
            &&& found is Unseen <==> !(found is Broken) && forall|i: int|
                0 <= i < n ==> !above(#[trigger] lines[i])
            &&& found matches MountId::Found(len, id) ==> {
                &&& 0 <= at < n
                &&& above(lines[at])
                &&& len == text::byte_len(text::words(lines[at])[4])
                &&& text::parse_number(text::words(lines[at])[0], 0xffff_ffff_ffff_ffff) == Some(id)
                &&& forall|i: int|
                    0 <= i < n && above(#[trigger] lines[i]) ==> text::byte_len(
                        text::words(lines[i])[4],
                    ) <= len && (i < at ==> text::byte_len(text::words(lines[i])[4]) < len)
            }
        }),
    decreases n,
{
    if n == 0 {
        -1
    } else {
        let at = mount_is_found_by_its_point(lines, canonical, (n - 1) as nat);
        let before = mount_id_in(lines, canonical, (n - 1) as nat);
        let found = mount_id_in(lines, canonical, n);
        let l = lines[n - 1];
        assert(0 <= n - 1 < n && lines[n - 1] == l);
        if found == before {
            at
        } else {
            n - 1
        }
    }
}

/// A handle of the kernel's that wraps the server's is unwrapped, without the zeros at its
/// end; any other is taken as it is.
pub proof fn wrapped_handle_is_unwrapped(raw: Seq<u8>, kind: i32)
    ensures
        kind < 2 || raw.len() <= 14 ==> server_handle(raw, kind) == raw,
        kind >= 2 && raw.len() > 14 && raw.last() != 0 ==> server_handle(raw, kind) == raw.subrange(
            14,
            raw.len() as int,
        ),
        kind >= 2 && raw.len() > 14 && (exists|i: int| 14 <= i < raw.len() && raw[i] != 0)
            ==> server_handle(raw, kind) == without_zeros(raw.subrange(14, raw.len() as int)),
        kind >= 2 && raw.len() > 14 && (forall|i: int| 14 <= i < raw.len() ==> raw[i] == 0)
            ==> server_handle(raw, kind) == raw,
{
    if raw.len() > 14 {
        let s = raw.subrange(14, raw.len() as int);
        handle_ends_in_data(s);
        let w = without_zeros(s);
        assert(s.last() == raw.last());
        if exists|i: int| 14 <= i < raw.len() && raw[i] != 0 {
            let i = choose|i: int| 14 <= i < raw.len() && raw[i] != 0;
            assert(s[i - 14] == raw[i]);
        }
        if w.len() > 0 {
            assert(w.last() == s[w.len() - 1]);
            assert(s[w.len() - 1] == raw[14 + w.len() - 1]);
        }
    }
}

} // verus!
