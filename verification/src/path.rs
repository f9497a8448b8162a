//! Unix paths as text: their components, prefixes, parents and names.
//!
//! Two spellings of a path are one path where their components are the same:
//! doubled and trailing slashes do not count, nor does a `.` that does not start
//! a relative path.

use crate::text;
use vstd::prelude::*;
use vstd::string::StringExecFns;

verus! {

/// Whether a part between slashes counts as a component.
pub open spec fn counts(part: Seq<char>, first: bool) -> bool {
    part.len() > 0 && (part != seq!['.'] || first)
}

/// The components among `parts`, of which the first `n` are looked at. `first`
/// is the position at which a `.` counts: 0 in a relative path.
pub open spec fn kept(parts: Seq<Seq<char>>, n: nat, first: int) -> Seq<Seq<char>>
    decreases n,
{
    if n == 0 {
        Seq::empty()
    } else {
        let rest = kept(parts, (n - 1) as nat, first);
        if counts(parts[n - 1], n - 1 == first) {
            rest.push(parts[n - 1])
        } else {
            rest
        }
    }
}

/// Whether a path starts at the root.
pub open spec fn is_absolute(s: Seq<char>) -> bool {
    s.len() > 0 && s[0] == '/'
}

/// The components of a path; the root is the component `/`.
pub open spec fn components(s: Seq<char>) -> Seq<Seq<char>> {
    let parts = text::split(s, '/');
    if is_absolute(s) {
        seq![seq!['/']] + kept(parts, parts.len(), -1)
    } else {
        kept(parts, parts.len(), 0)
    }
}

/// Whether two spellings are one path.
pub open spec fn same_path(a: Seq<char>, b: Seq<char>) -> bool {
    components(a) == components(b)
}

/// Whether `b` is `a` or a directory above it.
pub open spec fn is_under(a: Seq<char>, b: Seq<char>) -> bool {
    components(b).len() <= components(a).len() && components(a).subrange(
        0,
        components(b).len() as int,
    ) == components(b)
}

/// The components of a path.
pub fn components_of(s: &str) -> (out: Vec<String>)
    ensures
        text::texts(out@) == components(s@),
{
    let parts = text::split_on(s, '/');
    let ghost all = text::split(s@, '/');
    let chars = text::chars_of(s);
    let absolute: bool = chars.len() > 0 && chars[0] == '/';
    let mut out: Vec<String> = Vec::new();
    let ghost first: int = if absolute {
        -1
    } else {
        0
    };
    let ghost head: Seq<Seq<char>> = if absolute {
        seq![seq!['/']]
    } else {
        Seq::empty()
    };
    if absolute {
        let mut root = String::new();
        root.push('/');
        out.push(root);
        assert(out@[0]@ =~= seq!['/']);
        assert(text::texts(out@) =~= head);
    } else {
        assert(text::texts(out@) =~= head);
    }
    let mut i: usize = 0;
    assert(head + kept(all, 0, first) =~= head);
    while i < parts.len()
        invariant
            i <= parts@.len(),
            text::texts(parts@) == all,
            first == (if absolute {
                -1int
            } else {
                0
            }),
            text::texts(out@) == head + kept(all, i as nat, first),
        decreases parts@.len() - i,
    {
        let part = text::chars_of(parts[i].as_str());
        assert(part@ == all[i as int]);
        let dot: bool = part.len() == 1 && part[0] == '.';
        assert(dot == (part@ == seq!['.'])) by {
            if dot {
                assert(part@ =~= seq!['.']);
            }
        }
        let ghost before = out@;
        let ghost part_before = kept(all, i as nat, first);
        if part.len() > 0 && (!dot || (i == 0 && !absolute)) {
            out.push(parts[i].clone());
            assert(text::texts(out@) =~= text::texts(before).push(all[i as int]));
            assert(kept(all, (i + 1) as nat, first) == part_before.push(all[i as int]));
            assert(head + part_before.push(all[i as int]) =~= (head + part_before).push(
                all[i as int],
            ));
        }
        i = i + 1;
    }
    assert(all.len() == parts@.len());
    assert(absolute ==> text::texts(out@) =~= components(s@));
    assert(!absolute ==> text::texts(out@) =~= components(s@));
    out
}

/// Whether two spellings are one path.
pub fn same_path_exec(a: &str, b: &str) -> (same: bool)
    ensures
        same == same_path(a@, b@),
{
    let x = components_of(a);
    let y = components_of(b);
    if x.len() != y.len() {
        assert(components(a@).len() != components(b@).len());
        return false;
    }
    let n: usize = y.len();
    let r: bool = agree(&x, &y, n);
    proof {
        assert(text::texts(x@).subrange(0, n as int) =~= text::texts(x@));
        assert(text::texts(y@).subrange(0, n as int) =~= text::texts(y@));
    }
    r
}

/// Whether the first `n` strings of two lists are the same.
fn agree(x: &Vec<String>, y: &Vec<String>, n: usize) -> (same: bool)
    requires
        n <= x@.len(),
        n <= y@.len(),
    ensures
        same == (text::texts(x@).subrange(0, n as int) == text::texts(y@).subrange(0, n as int)),
{
    let mut i: usize = 0;
    while i < n
        invariant
            i <= n,
            n <= x@.len(),
            n <= y@.len(),
            forall|j: int| 0 <= j < i ==> x@[j]@ == y@[j]@,
        decreases n - i,
    {
        if !text::same_text(x[i].as_str(), y[i].as_str()) {
            proof {
                let a = text::texts(x@).subrange(0, n as int);
                let b = text::texts(y@).subrange(0, n as int);
                assert(a[i as int] == x@[i as int]@);
                assert(b[i as int] == y@[i as int]@);
            }
            return false;
        }
        i = i + 1;
    }
    assert(text::texts(x@).subrange(0, n as int) =~= text::texts(y@).subrange(0, n as int));
    true
}

/// Whether `b` is `a` or a directory above it.
pub fn path_starts_with(a: &str, b: &str) -> (under: bool)
    ensures
        under == is_under(a@, b@),
{
    let x = components_of(a);
    let y = components_of(b);
    if y.len() > x.len() {
        assert(components(b@).len() > components(a@).len());
        return false;
    }
    let r: bool = agree(&x, &y, y.len());
    proof {
        assert(text::texts(y@).subrange(0, y@.len() as int) =~= text::texts(y@));
    }
    r
}

/// Whether a component is a name: not the root, `.` or `..`.
pub open spec fn is_name(c: Seq<char>) -> bool {
    c != seq!['/'] && c != seq!['.'] && c != seq!['.', '.']
}

/// The name at the end of a path, where it ends in one.
pub open spec fn file_name(s: Seq<char>) -> Option<Seq<char>> {
    let c = components(s);
    if c.len() > 0 && is_name(c.last()) {
        Some(c.last())
    } else {
        None
    }
}

/// Whether a component is a name: not the root, `.` or `..`.
pub fn is_name_exec(c: &str) -> (yes: bool)
    ensures
        yes == is_name(c@),
{
    let x = text::chars_of(c);
    if x.len() == 1 {
        let yes: bool = x[0] != '/' && x[0] != '.';
        proof {
            if x@[0] == '/' {
                assert(x@ =~= seq!['/']);
            }
            if x@[0] == '.' {
                assert(x@ =~= seq!['.']);
            }
            if yes {
                assert(seq!['/'][0] == '/');
                assert(seq!['.'][0] == '.');
            }
            assert(seq!['.', '.'].len() == 2);
        }
        yes
    } else if x.len() == 2 {
        let yes: bool = !(x[0] == '.' && x[1] == '.');
        proof {
            if !yes {
                assert(x@ =~= seq!['.', '.']);
            } else {
                assert(seq!['.', '.'][0] == '.');
                assert(seq!['.', '.'][1] == '.');
            }
            assert(seq!['/'].len() == 1);
            assert(seq!['.'].len() == 1);
        }
        yes
    } else {
        assert(seq!['/'].len() == 1 && seq!['.'].len() == 1 && seq!['.', '.'].len() == 2);
        true
    }
}

/// The name at the end of a path, where it ends in one.
pub fn file_name_of(s: &str) -> (res: Option<String>)
    ensures
        match file_name(s@) {
            Some(n) => res is Some && res->0@ == n,
            None => res is None,
        },
{
    let c = components_of(s);
    if c.len() == 0 {
        assert(components(s@).len() == 0);
        return None;
    }
    let last = c[c.len() - 1].clone();
    assert(components(s@).last() == last@);
    if is_name_exec(last.as_str()) {
        Some(last)
    } else {
        None
    }
}

/// `b` relative to `a`: `b` itself where it is absolute, else `a`, a slash
/// unless `a` is empty or ends in one, and `b`.
pub open spec fn join(a: Seq<char>, b: Seq<char>) -> Seq<char> {
    if is_absolute(b) {
        b
    } else if a.len() == 0 || a.last() == '/' {
        a + b
    } else {
        a + seq!['/'] + b
    }
}

/// `b` relative to `a`.
pub fn join_path(a: &str, b: &str) -> (out: String)
    ensures
        out@ == join(a@, b@),
{
    let x = text::chars_of(a);
    let y = text::chars_of(b);
    if y.len() > 0 && y[0] == '/' {
        return b.to_owned();
    }
    if x.len() == 0 || x[x.len() - 1] == '/' {
        text::concat2(a, b)
    } else {
        let mut out = a.to_owned();
        out.push('/');
        out.append(b);
        assert(out@ =~= a@ + seq!['/'] + b@);
        out
    }
}

/// The components from the `i`th up to the `n`th as one path, without the root.
pub open spec fn rejoin(c: Seq<Seq<char>>, i: int, n: int) -> Seq<char>
    decreases n - i,
{
    if i >= n {
        Seq::empty()
    } else if i + 1 == n {
        c[i]
    } else {
        c[i] + seq!['/'] + rejoin(c, i + 1, n)
    }
}

/// The position of the last slash of `s` before position `e`; -1 where there is
/// none.
pub open spec fn slash_before(s: Seq<char>, e: int) -> int
    decreases e,
{
    if e <= 0 {
        -1
    } else if s[e - 1] == '/' {
        e - 1
    } else {
        slash_before(s, e - 1)
    }
}

/// Where the last component of `s` before position `e` ends: slashes and single
/// dots behind it do not count. The root ends behind its slash.
pub open spec fn body_end(s: Seq<char>, e: int) -> int
    decreases e,
    when 0 <= e <= s.len()
    via body_end_decreases
{
    let q = slash_before(s, e);
    if q < 0 || counts(s.subrange(q + 1, e), false) {
        e
    } else if q == 0 {
        1
    } else {
        body_end(s, q)
    }
}

#[via_fn]
proof fn body_end_decreases(s: Seq<char>, e: int) {
    slash_before_in_bounds(s, e);
}

/// The directory that holds a path: the path up to the end of its last component
/// but one, as it is written. The root and the empty path have none.
pub open spec fn parent(s: Seq<char>) -> Option<Seq<char>> {
    let e = body_end(s, s.len() as int);
    let q = slash_before(s, e);
    if e == 0 || (e == 1 && s[0] == '/') {
        None
    } else if q < 0 {
        Some(s.subrange(0, 0))
    } else if q == 0 {
        Some(s.subrange(0, 1))
    } else {
        Some(s.subrange(0, body_end(s, q)))
    }
}

fn rejoin_exec(c: &Vec<String>, from: usize, to: usize) -> (out: String)
    requires
        from <= to <= c@.len(),
    ensures
        out@ == rejoin(text::texts(c@), from as int, to as int),
    decreases to - from,
{
    if from == to {
        let out = String::new();
        assert(out@ =~= Seq::empty());
        return out;
    }
    if from + 1 == to {
        return c[from].clone();
    }
    let rest = rejoin_exec(c, from + 1, to);
    let mut out = c[from].clone();
    out.push('/');
    out.append(rest.as_str());
    assert(out@ =~= c@[from as int]@ + seq!['/'] + rest@);
    out
}

fn slash_before_exec(x: &[char], e: usize) -> (q: Option<usize>)
    requires
        e <= x@.len(),
    ensures
        match q {
            Some(i) => slash_before(x@, e as int) == i && i < e,
            None => slash_before(x@, e as int) == -1,
        },
{
    let mut i: usize = e;
    while i > 0
        invariant
            i <= e <= x@.len(),
            slash_before(x@, i as int) == slash_before(x@, e as int),
        decreases i,
    {
        if x[i - 1] == '/' {
            return Some(i - 1);
        }
        i = i - 1;
    }
    None
}

fn body_end_exec(x: &[char], e: usize) -> (end: usize)
    requires
        e <= x@.len(),
    ensures
        end == body_end(x@, e as int),
        end <= x@.len(),
    decreases e,
{
    let q: usize = match slash_before_exec(x, e) {
        None => return e,
        Some(q) => q,
    };
    let ghost part = x@.subrange(q + 1, e as int);
    let dot: bool = e - q == 2 && x[q + 1] == '.';
    assert(dot == (part == seq!['.'])) by {
        if dot {
            assert(part =~= seq!['.']);
        } else if part == seq!['.'] {
            assert(part.len() == 1 && part[0] == '.');
        }
    }
    if e - q > 1 && !dot {
        e
    } else if q == 0 {
        1
    } else {
        body_end_exec(x, q)
    }
}

/// The directory that holds a path.
pub fn parent_of(s: &str) -> (res: Option<String>)
    ensures
        match parent(s@) {
            Some(p) => res is Some && res->0@ == p,
            None => res is None,
        },
{
    let x = text::chars_of(s);
    let e: usize = body_end_exec(x.as_slice(), x.len());
    if e == 0 || (e == 1 && x[0] == '/') {
        return None;
    }
    match slash_before_exec(x.as_slice(), e) {
        None => Some(text::string_of_range(x.as_slice(), 0, 0)),
        Some(q) => {
            if q == 0 {
                Some(text::string_of_range(x.as_slice(), 0, 1))
            } else {
                let end: usize = body_end_exec(x.as_slice(), q);
                Some(text::string_of_range(x.as_slice(), 0, end))
            }
        },
    }
}

proof fn slash_before_in_bounds(s: Seq<char>, e: int)
    requires
        e <= s.len(),
    ensures
        -1 <= slash_before(s, e),
        e >= 0 ==> slash_before(s, e) < e,
        slash_before(s, e) >= 0 ==> s[slash_before(s, e)] == '/',
        forall|j: int| slash_before(s, e) < j < e ==> s[j] != '/',
    decreases e,
{
    if e > 0 && s[e - 1] != '/' {
        slash_before_in_bounds(s, e - 1);
    }
}

/// A path spelled plainly: its components, with one slash between two of them.
pub open spec fn spelled(s: Seq<char>) -> Seq<char> {
    let c = components(s);
    if is_absolute(s) {
        seq!['/'] + rejoin(c, 1, c.len() as int)
    } else {
        rejoin(c, 0, c.len() as int)
    }
}

/// Spells a path plainly.
pub fn spelled_of(s: &str) -> (out: String)
    ensures
        out@ == spelled(s@),
{
    let c = components_of(s);
    let chars = text::chars_of(s);
    if chars.len() > 0 && chars[0] == '/' {
        assert(components(s@)[0] == seq!['/'] && components(s@).len() >= 1);
        assert(components(s@).len() == c@.len());
        let rest = rejoin_exec(&c, 1, c.len());
        let mut out = String::new();
        out.push('/');
        out.append(rest.as_str());
        assert(out@ =~= seq!['/'] + rest@);
        out
    } else {
        rejoin_exec(&c, 0, c.len())
    }
}

/// The components of `a` below `b`, where `a` is under it.
pub open spec fn below(a: Seq<char>, b: Seq<char>) -> Option<Seq<Seq<char>>> {
    if is_under(a, b) {
        Some(components(a).subrange(components(b).len() as int, components(a).len() as int))
    } else {
        None
    }
}

/// Where the `k` components that end before position `e` of `s` start.
pub open spec fn tail_start(s: Seq<char>, e: int, k: int) -> int
    decreases e,
    when 0 <= e <= s.len()
    via tail_start_decreases
{
    let q = slash_before(s, e);
    if q < 0 {
        0
    } else if !counts(s.subrange(q + 1, e), false) {
        tail_start(s, q, k)
    } else if k <= 1 {
        q + 1
    } else {
        tail_start(s, q, k - 1)
    }
}

#[via_fn]
proof fn tail_start_decreases(s: Seq<char>, e: int, k: int) {
    slash_before_in_bounds(s, e);
}

/// `a` as seen from `b`, where `a` is under it: what follows in `a`, as it is
/// written, from the first component that `b` does not have to the end of the last
/// one.
pub open spec fn relative(a: Seq<char>, b: Seq<char>) -> Option<Seq<char>> {
    let e = body_end(a, a.len() as int);
    let k = components(a).len() - components(b).len();
    if !is_under(a, b) {
        None
    } else if components(b).len() == 0 {
        Some(a.subrange(0, e))
    } else if k == 0 {
        Some(Seq::empty())
    } else {
        Some(a.subrange(tail_start(a, e, k), e))
    }
}

fn tail_start_exec(x: &[char], e: usize, k: usize) -> (start: usize)
    requires
        e <= x@.len(),
    ensures
        start == tail_start(x@, e as int, k as int),
        start <= e,
    decreases e,
{
    let q: usize = match slash_before_exec(x, e) {
        None => return 0,
        Some(q) => q,
    };
    let ghost part = x@.subrange(q + 1, e as int);
    let dot: bool = e - q == 2 && x[q + 1] == '.';
    assert(dot == (part == seq!['.'])) by {
        if dot {
            assert(part =~= seq!['.']);
        } else if part == seq!['.'] {
            assert(part.len() == 1 && part[0] == '.');
        }
    }
    if e - q == 1 || dot {
        tail_start_exec(x, q, k)
    } else if k <= 1 {
        q + 1
    } else {
        tail_start_exec(x, q, k - 1)
    }
}

/// `a` as seen from `b`, where `a` is under it.
pub fn strip_prefix(a: &str, b: &str) -> (res: Option<String>)
    ensures
        match relative(a@, b@) {
            Some(r) => res is Some && res->0@ == r,
            None => res is None,
        },
{
    if !path_starts_with(a, b) {
        return None;
    }
    let n: usize = components_of(a).len();
    let m: usize = components_of(b).len();
    let x = text::chars_of(a);
    let e: usize = body_end_exec(x.as_slice(), x.len());
    if m == 0 {
        return Some(text::string_of_range(x.as_slice(), 0, e));
    }
    if n == m {
        let out = String::new();
        assert(out@ =~= Seq::empty());
        return Some(out);
    }
    let start: usize = tail_start_exec(x.as_slice(), e, n - m);
    Some(text::string_of_range(x.as_slice(), start, e))
}

/// The names among the first `n` components.
pub open spec fn names_in(c: Seq<Seq<char>>, n: nat) -> Seq<Seq<char>>
    decreases n,
{
    if n == 0 {
        Seq::empty()
    } else if is_name(c[n - 1]) {
        names_in(c, (n - 1) as nat).push(c[n - 1])
    } else {
        names_in(c, (n - 1) as nat)
    }
}

/// The names on the way from `b` down to `a`; none where `a` is not under `b`.
pub open spec fn names_below(a: Seq<char>, b: Seq<char>) -> Seq<Seq<char>> {
    match below(a, b) {
        Some(c) => names_in(c, c.len()),
        None => Seq::empty(),
    }
}

/// The names on the way from `b` down to `a`.
pub fn names_below_of(a: &str, b: &str) -> (out: Vec<String>)
    ensures
        text::texts(out@) == names_below(a@, b@),
{
    let mut out: Vec<String> = Vec::new();
    assert(text::texts(out@) =~= Seq::empty());
    if !path_starts_with(a, b) {
        return out;
    }
    let x = components_of(a);
    let y = components_of(b);
    assert(x@.len() == components(a@).len() && y@.len() == components(b@).len());
    let ghost c = components(a@).subrange(components(b@).len() as int, components(a@).len() as int);
    let mut i: usize = y.len();
    while i < x.len()
        invariant
            y@.len() <= i <= x@.len(),
            text::texts(x@) == components(a@),
            y@.len() == components(b@).len(),
            x@.len() == components(a@).len(),
            c == components(a@).subrange(
                components(b@).len() as int,
                components(a@).len() as int,
            ),
            text::texts(out@) == names_in(c, (i - y@.len()) as nat),
        decreases x@.len() - i,
    {
        assert(c[i - y@.len()] == x@[i as int]@) by {
            assert(text::texts(x@)[i as int] == x@[i as int]@);
        }
        let ghost before = out@;
        if is_name_exec(&x[i]) {
            out.push(x[i].clone());
            assert(text::texts(out@) =~= text::texts(before).push(x@[i as int]@));
        }
        i = i + 1;
    }
    out
}

/// Two spellings of one path are spelled plainly in the same way.
pub proof fn one_path_one_spelling(a: Seq<char>, b: Seq<char>)
    requires
        same_path(a, b),
    ensures
        spelled(a) == spelled(b),
{
    assert(is_absolute(a) == is_absolute(b)) by {
        absolute_by_components(a);
        absolute_by_components(b);
    }
}

/// A path is absolute where its first component is the root.
proof fn absolute_by_components(s: Seq<char>)
    ensures
        is_absolute(s) == (components(s).len() > 0 && components(s)[0] == seq!['/']),
{
    let parts = text::split(s, '/');
    if is_absolute(s) {
        assert(components(s)[0] == seq!['/']);
    } else {
        let c = components(s);
        if c.len() > 0 && c[0] == seq!['/'] {
            kept_are_parts(parts, parts.len(), 0, 0);
            let i = choose|i: int| 0 <= i < parts.len() && #[trigger] parts[i] == c[0];
            parts_hold_no_separator(s, '/', 0, i);
            assert(parts[i][0] == '/');
        }
    }
}

proof fn kept_are_parts(parts: Seq<Seq<char>>, n: nat, first: int, k: int)
    requires
        n <= parts.len(),
        0 <= k < kept(parts, n, first).len(),
    ensures
        exists|i: int| 0 <= i < n && #[trigger] parts[i] == kept(parts, n, first)[k],
    decreases n,
{
    if n > 0 {
        let before = kept(parts, (n - 1) as nat, first);
        if k < before.len() {
            kept_are_parts(parts, (n - 1) as nat, first, k);
            let i = choose|i: int| 0 <= i < n - 1 && #[trigger] parts[i] == before[k];
            assert(parts[i] == kept(parts, n, first)[k]);
        } else {
            assert(parts[n - 1] == kept(parts, n, first)[k]);
        }
    }
}

proof fn parts_hold_no_separator(s: Seq<char>, sep: char, from: int, i: int)
    requires
        0 <= from <= s.len(),
        0 <= i < text::split_from(s, sep, from).len(),
    ensures
        forall|j: int|
            0 <= j < text::split_from(s, sep, from)[i].len() ==> text::split_from(
                s,
                sep,
                from,
            )[i][j] != sep,
    decreases s.len() - from,
{
    let p = text::find_char(s, sep, from);
    text::find_char_in_bounds(s, sep, from);
    if p < s.len() {
        if i > 0 {
            parts_hold_no_separator(s, sep, p + 1, i - 1);
            assert(text::split_from(s, sep, from)[i] == text::split_from(s, sep, p + 1)[i - 1]);
        }
    }
}

/// What is split after its beginning is split as it would be alone.
proof fn split_after(p: Seq<char>, y: Seq<char>, sep: char, k: int)
    requires
        0 <= k <= y.len(),
    ensures
        text::split_from(p + y, sep, p.len() + k) == text::split_from(y, sep, k),
    decreases y.len() - k,
{
    find_after(p, y, sep, k);
    let f = text::find_char(y, sep, k);
    text::find_char_in_bounds(y, sep, k);
    if f < y.len() {
        split_after(p, y, sep, f + 1);
    }
    assert((p + y).subrange(p.len() + k, p.len() + f) =~= y.subrange(k, f));
}

proof fn find_after(p: Seq<char>, y: Seq<char>, sep: char, k: int)
    requires
        0 <= k <= y.len(),
    ensures
        text::find_char(p + y, sep, p.len() + k) == p.len() + text::find_char(y, sep, k),
    decreases y.len() - k,
{
    if k < y.len() && y[k] != sep {
        find_after(p, y, sep, k + 1);
    }
}

proof fn find_before(x: Seq<char>, y: Seq<char>, sep: char, k: int)
    requires
        0 <= k <= x.len(),
    ensures
        text::find_char(x + seq![sep] + y, sep, k) == text::find_char(x, sep, k),
    decreases x.len() - k,
{
    let w = x + seq![sep] + y;
    if k < x.len() {
        assert(w[k] == x[k]);
        if x[k] != sep {
            find_before(x, y, sep, k + 1);
        }
    } else {
        assert(w[k] == sep);
    }
}

/// Two texts with a separator between them are split one after the other.
proof fn split_joined(x: Seq<char>, y: Seq<char>, sep: char, k: int)
    requires
        0 <= k <= x.len(),
    ensures
        text::split_from(x + seq![sep] + y, sep, k) == text::split_from(x, sep, k) + text::split(
            y,
            sep,
        ),
    decreases x.len() - k,
{
    let w = x + seq![sep] + y;
    find_before(x, y, sep, k);
    text::find_char_in_bounds(x, sep, k);
    let f = text::find_char(x, sep, k);
    assert(w.subrange(k, f) =~= x.subrange(k, f));
    if f < x.len() {
        split_joined(x, y, sep, f + 1);
        assert(text::split_from(w, sep, k) =~= text::split_from(x, sep, k) + text::split(y, sep));
    } else {
        split_after(x + seq![sep], y, sep, 0);
        assert(text::split_from(w, sep, k) =~= text::split_from(x, sep, k) + text::split(y, sep));
    }
}

/// A text without a separator is not split.
proof fn split_whole(x: Seq<char>, sep: char)
    requires
        forall|j: int| 0 <= j < x.len() ==> x[j] != sep,
    ensures
        text::split(x, sep) == seq![x],
{
    text::find_char_in_bounds(x, sep, 0);
    find_none(x, sep, 0);
    assert(x.subrange(0, x.len() as int) =~= x);
}

proof fn find_none(x: Seq<char>, sep: char, k: int)
    requires
        0 <= k <= x.len(),
        forall|j: int| 0 <= j < x.len() ==> x[j] != sep,
    ensures
        text::find_char(x, sep, k) == x.len(),
    decreases x.len() - k,
{
    if k < x.len() {
        find_none(x, sep, k + 1);
    }
}

/// The components of two lists of parts are those of the one and the other.
proof fn kept_joined(p: Seq<Seq<char>>, q: Seq<Seq<char>>, m: nat, first: int)
    requires
        m <= q.len(),
    ensures
        kept(p + q, p.len() + m, first) == kept(p, p.len(), first) + kept(q, m, first - p.len()),
    decreases m,
{
    if m == 0 {
        kept_prefix(p, q, p.len(), first);
    } else {
        kept_joined(p, q, (m - 1) as nat, first);
        assert((p + q)[p.len() + m - 1] == q[m - 1]);
        assert((p.len() + m - 1) as nat == p.len() + (m - 1) as nat);
        assert(kept(p + q, p.len() + m, first) =~= kept(p, p.len(), first) + kept(
            q,
            m,
            first - p.len(),
        ));
    }
}

proof fn kept_prefix(p: Seq<Seq<char>>, q: Seq<Seq<char>>, n: nat, first: int)
    requires
        n <= p.len(),
    ensures
        kept(p + q, n, first) == kept(p, n, first),
    decreases n,
{
    if n > 0 {
        kept_prefix(p, q, (n - 1) as nat, first);
        assert((p + q)[n - 1] == p[n - 1]);
    }
}

/// Where no part is the one at which a `.` counts, it does not matter which that
/// would be.
proof fn kept_later(q: Seq<Seq<char>>, n: nat, first: int)
    requires
        first < 0,
    ensures
        kept(q, n, first) == kept(q, n, -1),
    decreases n,
{
    if n > 0 {
        kept_later(q, (n - 1) as nat, first);
    }
}

/// The parts of a path count from the start of the path that it is joined to.
proof fn joined_components(a: Seq<char>, b: Seq<char>)
    requires
        a.len() > 0,
        !is_absolute(b),
    ensures
        components(join(a, b)) == components(a) + kept(
            text::split(b, '/'),
            text::split(b, '/').len(),
            -1,
        ),
{
    let q = text::split(b, '/');
    let first: int = if is_absolute(a) {
        -1
    } else {
        0
    };
    let head: Seq<Seq<char>> = if is_absolute(a) {
        seq![seq!['/']]
    } else {
        Seq::empty()
    };
    if a.last() == '/' {
        let x = a.drop_last();
        let p = text::split(x, '/');
        assert(a =~= x + seq!['/'] + Seq::<char>::empty());
        assert(a + b =~= x + seq!['/'] + b);
        split_joined(x, b, '/', 0);
        split_joined(x, Seq::<char>::empty(), '/', 0);
        split_whole(Seq::<char>::empty(), '/');
        let nothing = seq![Seq::<char>::empty()];
        kept_joined(p, nothing, 1, first);
        assert(kept(nothing, 0, first - p.len()) =~= Seq::empty());
        assert(kept(nothing, 1, first - p.len()) =~= Seq::empty());
        kept_joined(p, q, q.len(), first);
        parts_exist(x, '/', 0);
        kept_later(q, q.len(), first - p.len());
        assert(components(a) =~= head + kept(p, p.len(), first));
        assert((a + b)[0] == a[0]);
        assert(components(a + b) =~= components(a) + kept(q, q.len(), -1));
    } else {
        let p = text::split(a, '/');
        split_joined(a, b, '/', 0);
        kept_joined(p, q, q.len(), first);
        parts_exist(a, '/', 0);
        kept_later(q, q.len(), first - p.len());
        assert((a + seq!['/'] + b)[0] == a[0]);
        assert(components(a) =~= head + kept(p, p.len(), first));
        assert(components(a + seq!['/'] + b) =~= components(a) + kept(q, q.len(), -1));
    }
}

proof fn parts_exist(s: Seq<char>, sep: char, from: int)
    requires
        0 <= from <= s.len(),
    ensures
        text::split_from(s, sep, from).len() > 0,
{
    text::find_char_in_bounds(s, sep, from);
}

/// Whether a component is one wherever it stands in a path: it is not empty, no
/// `.`, and holds no slash.
pub open spec fn is_plain(c: Seq<char>) -> bool {
    c.len() > 0 && c != seq!['.'] && forall|j: int| 0 <= j < c.len() ==> c[j] != '/'
}

/// Plain components with slashes between them are those components.
proof fn rejoined_components(c: Seq<Seq<char>>, i: int, n: int)
    requires
        0 <= i <= n <= c.len(),
        forall|j: int| i <= j < n ==> is_plain(#[trigger] c[j]),
    ensures
        !is_absolute(rejoin(c, i, n)),
        kept(text::split(rejoin(c, i, n), '/'), text::split(rejoin(c, i, n), '/').len(), -1)
            == c.subrange(i, n),
    decreases n - i,
{
    let r = rejoin(c, i, n);
    if i == n {
        split_whole(r, '/');
        assert(kept(seq![r], 0, -1) =~= Seq::empty());
        assert(kept(seq![r], 1, -1) =~= c.subrange(i, n));
    } else {
        let one = seq![c[i]];
        split_whole(c[i], '/');
        assert(kept(one, 0, -1) =~= Seq::empty());
        assert(kept(one, 1, -1) =~= one);
        assert(kept(one, 1, -1) =~= seq![c[i]]);
        if i + 1 == n {
            assert(c.subrange(i, n) =~= seq![c[i]]);
        } else {
            let rest = rejoin(c, i + 1, n);
            let q = text::split(rest, '/');
            rejoined_components(c, i + 1, n);
            split_joined(c[i], rest, '/', 0);
            kept_joined(one, q, q.len(), -1);
            kept_later(q, q.len(), -2);
            assert(r[0] == c[i][0]);
            assert(c.subrange(i, n) =~= seq![c[i]] + c.subrange(i + 1, n));
        }
    }
}

/// Every component of a path but the first is plain, and so is the first one
/// unless it is the root or a `.`.
proof fn components_are_plain(s: Seq<char>, k: int)
    requires
        0 <= k < components(s).len(),
        k > 0 || (components(s)[0] != seq!['/'] && components(s)[0] != seq!['.']),
    ensures
        is_plain(components(s)[k]),
{
    let parts = text::split(s, '/');
    let first: int = if is_absolute(s) {
        -1
    } else {
        0
    };
    let j: int = if is_absolute(s) {
        k - 1
    } else {
        k
    };
    assert(components(s)[k] == kept(parts, parts.len(), first)[j]);
    kept_counts(parts, parts.len(), first, j);
    kept_are_parts(parts, parts.len(), first, j);
    let i = choose|i: int|
        0 <= i < parts.len() && #[trigger] parts[i] == kept(parts, parts.len(), first)[j];
    parts_hold_no_separator(s, '/', 0, i);
}

proof fn kept_counts(parts: Seq<Seq<char>>, n: nat, first: int, k: int)
    requires
        n <= parts.len(),
        first <= 0,
        0 <= k < kept(parts, n, first).len(),
    ensures
        kept(parts, n, first)[k].len() > 0,
        k > 0 || first < 0 ==> kept(parts, n, first)[k] != seq!['.'],
    decreases n,
{
    if n > 0 {
        let before = kept(parts, (n - 1) as nat, first);
        if k < before.len() {
            kept_counts(parts, (n - 1) as nat, first, k);
        } else if n == 1 {
            assert(before.len() == 0);
        }
    }
}

/// Spelling a path plainly does not make it another path.
pub proof fn spelling_keeps_path(s: Seq<char>)
    ensures
        same_path(spelled(s), s),
{
    let c = components(s);
    let n = c.len() as int;
    absolute_by_components(s);
    if is_absolute(s) {
        assert forall|j: int| 1 <= j < n implies is_plain(#[trigger] c[j]) by {
            components_are_plain(s, j);
        }
        rejoined_components(c, 1, n);
        joined_components(seq!['/'], rejoin(c, 1, n));
        root_alone();
        assert(c =~= seq![seq!['/']] + c.subrange(1, n));
    } else if n > 0 {
        assert forall|j: int| 1 <= j < n implies is_plain(#[trigger] c[j]) by {
            components_are_plain(s, j);
        }
        rejoined_components(c, 1, n);
        let head = c[0];
        lone_component(s);
        if n == 1 {
            assert(c =~= seq![head]);
        } else {
            assert(spelled(s) == join(head, rejoin(c, 1, n)));
            joined_components(head, rejoin(c, 1, n));
            assert(c =~= seq![head] + c.subrange(1, n));
        }
    } else {
        split_whole(Seq::<char>::empty(), '/');
        assert(kept(seq![Seq::<char>::empty()], 0, 0) =~= Seq::empty());
        assert(kept(seq![Seq::<char>::empty()], 1, 0) =~= c);
    }
}

/// A part behind a slash is a component more, where it counts.
proof fn appended_part(x: Seq<char>, y: Seq<char>)
    requires
        x.len() > 0,
        forall|j: int| 0 <= j < y.len() ==> y[j] != '/',
    ensures
        components(x + seq!['/'] + y) == components(x) + (if counts(y, false) {
            seq![y]
        } else {
            Seq::empty()
        }),
{
    let w = x + seq!['/'] + y;
    let first: int = if is_absolute(x) {
        -1
    } else {
        0
    };
    let p = text::split(x, '/');
    let q = seq![y];
    split_joined(x, y, '/', 0);
    split_whole(y, '/');
    kept_joined(p, q, 1, first);
    parts_exist(x, '/', 0);
    assert(w[0] == x[0]);
    assert(kept(q, 0, first - p.len()) =~= Seq::empty());
    assert(kept(q, 1, first - p.len()) =~= if counts(y, false) {
        seq![y]
    } else {
        Seq::empty()
    });
    assert(components(w) =~= components(x) + kept(q, 1, first - p.len()));
}

/// The components before position `e` are those before the slash in front of the
/// last part, and that part where it counts.
proof fn last_part(s: Seq<char>, e: int)
    requires
        0 <= e <= s.len(),
        slash_before(s, e) >= 0,
    ensures
        ({
            let q = slash_before(s, e);
            let y = s.subrange(q + 1, e);
            let head = if q == 0 {
                seq![seq!['/']]
            } else {
                components(s.subrange(0, q))
            };
            components(s.subrange(0, e)) == head + (if counts(y, false) {
                seq![y]
            } else {
                Seq::empty()
            })
        }),
{
    slash_before_in_bounds(s, e);
    let q = slash_before(s, e);
    let x = s.subrange(0, q);
    let y = s.subrange(q + 1, e);
    let w = s.subrange(0, e);
    assert(w =~= x + seq!['/'] + y);
    if q > 0 {
        appended_part(x, y);
    } else {
        root_alone();
        split_whole(y, '/');
        joined_components(seq!['/'], y);
        assert(w =~= seq!['/'] + y);
        assert(kept(seq![y], 0, -1) =~= Seq::empty());
        assert(kept(seq![y], 1, -1) =~= if counts(y, false) {
            seq![y]
        } else {
            Seq::empty()
        });
    }
}

/// What stands behind the last component adds none.
proof fn body_keeps_components(s: Seq<char>, e: int)
    requires
        0 <= e <= s.len(),
    ensures
        0 <= body_end(s, e) <= e,
        e > 0 ==> body_end(s, e) > 0,
        components(s.subrange(0, body_end(s, e))) == components(s.subrange(0, e)),
        body_end(s, body_end(s, e)) == body_end(s, e),
    decreases e,
{
    slash_before_in_bounds(s, e);
    let q = slash_before(s, e);
    if q >= 0 && !counts(s.subrange(q + 1, e), false) {
        last_part(s, e);
        if q == 0 {
            root_alone();
            assert(s.subrange(0, 1) =~= seq!['/']);
            assert(seq![seq!['/']] + Seq::<Seq<char>>::empty() =~= seq![seq!['/']]);
            assert(slash_before(s, 1) == 0);
        } else {
            body_keeps_components(s, q);
            assert(components(s.subrange(0, q)) + Seq::<Seq<char>>::empty() =~= components(
                s.subrange(0, q),
            ));
        }
    }
}

/// The directory that holds a path is the path without its last component.
pub proof fn parent_drops_last(s: Seq<char>)
    requires
        parent(s) is Some,
    ensures
        components(s).len() > 0,
        components(parent(s)->0) == components(s).drop_last(),
{
    let n = s.len() as int;
    let e = body_end(s, n);
    assert(s.subrange(0, n) =~= s);
    body_keeps_components(s, n);
    slash_before_in_bounds(s, e);
    let q = slash_before(s, e);
    if q < 0 {
        let t = s.subrange(0, e);
        split_whole(t, '/');
        assert(kept(seq![t], 0, 0) =~= Seq::empty());
        assert(kept(seq![t], 1, 0) =~= seq![t]);
        assert(components(s) =~= seq![t]);
        no_components();
        assert(s.subrange(0, 0) =~= Seq::empty());
        assert(components(s).drop_last() =~= Seq::empty());
    } else {
        last_part(s, e);
        let y = s.subrange(q + 1, e);
        if q == 0 {
            root_alone();
            assert(s.subrange(0, 1) =~= seq!['/']);
            assert(components(s).drop_last() =~= seq![seq!['/']]);
        } else {
            body_keeps_components(s, q);
            assert(components(s).drop_last() =~= components(s.subrange(0, q)));
        }
    }
}

/// A path has a directory that holds it unless it is empty or the root.
pub proof fn parent_is_there(s: Seq<char>)
    ensures
        parent(s) is None <==> (components(s).len() == 0 || components(s).last() == seq!['/']),
{
    let n = s.len() as int;
    let e = body_end(s, n);
    assert(s.subrange(0, n) =~= s);
    body_keeps_components(s, n);
    slash_before_in_bounds(s, e);
    if e == 0 {
        no_components();
        assert(s.subrange(0, 0) =~= Seq::empty());
    } else if e == 1 && s[0] == '/' {
        root_alone();
        assert(s.subrange(0, 1) =~= seq!['/']);
    } else if slash_before(s, e) < 0 {
        let t = s.subrange(0, e);
        split_whole(t, '/');
        assert(kept(seq![t], 0, 0) =~= Seq::empty());
        assert(kept(seq![t], 1, 0) =~= seq![t]);
        assert(components(s).last() == t && t[0] != '/');
    } else {
        let q = slash_before(s, e);
        last_part(s, e);
        let y = s.subrange(q + 1, e);
        assert(counts(y, false)) by {
            if !counts(y, false) {
                assert(body_end(s, e) == e);
                if q > 0 {
                    body_keeps_components(s, q);
                }
            }
        }
        assert(components(s).last() == y && y[0] != '/');
    }
}

proof fn no_components()
    ensures
        components(Seq::<char>::empty()) == Seq::<Seq<char>>::empty(),
{
    let e = Seq::<char>::empty();
    split_whole(e, '/');
    assert(kept(seq![e], 0, 0) =~= Seq::empty());
    assert(kept(seq![e], 1, 0) =~= Seq::empty());
}

proof fn root_alone()
    ensures
        components(seq!['/']) == seq![seq!['/']],
{
    let e = Seq::<char>::empty();
    assert(seq!['/'] =~= e + seq!['/'] + e);
    split_joined(e, e, '/', 0);
    split_whole(e, '/');
    let parts = seq![e] + seq![e];
    assert(kept(parts, 0, -1) =~= Seq::empty());
    assert(kept(parts, 1, -1) =~= Seq::empty());
    assert(kept(parts, 2, -1) =~= Seq::empty());
}

/// The first component of a relative path is a path of one component, and does
/// not end in a slash.
proof fn lone_component(s: Seq<char>)
    requires
        !is_absolute(s),
        components(s).len() > 0,
    ensures
        components(s)[0].len() > 0,
        components(s)[0].last() != '/',
        components(components(s)[0]) == seq![components(s)[0]],
{
    let parts = text::split(s, '/');
    let h = components(s)[0];
    kept_counts(parts, parts.len(), 0, 0);
    kept_are_parts(parts, parts.len(), 0, 0);
    let i = choose|i: int|
        0 <= i < parts.len() && #[trigger] parts[i] == kept(parts, parts.len(), 0)[0];
    parts_hold_no_separator(s, '/', 0, i);
    split_whole(h, '/');
    assert(kept(seq![h], 0, 0) =~= Seq::empty());
    assert(kept(seq![h], 1, 0) =~= seq![h]);
}

/// The last components of a path, as they are written, are those components.
proof fn tail_components(s: Seq<char>, e: int, k: int)
    requires
        0 <= e <= s.len(),
        1 <= k < components(s.subrange(0, e)).len(),
    ensures
        ({
            let c = components(s.subrange(0, e));
            let start = tail_start(s, e, k);
            let t = s.subrange(start, e);
            let parts = text::split(t, '/');
            &&& 0 < start <= e
            &&& s[start - 1] == '/'
            &&& t.len() > 0
            &&& t[0] != '/'
            &&& kept(parts, parts.len(), -1) == c.subrange(c.len() - k, c.len() as int)
        }),
    decreases e,
{
    slash_before_in_bounds(s, e);
    let q = slash_before(s, e);
    let c = components(s.subrange(0, e));
    if q < 0 {
        let t = s.subrange(0, e);
        split_whole(t, '/');
        assert(kept(seq![t], 0, 0) =~= Seq::empty());
        assert(c.len() <= 1);
    } else {
        last_part(s, e);
        let y = s.subrange(q + 1, e);
        let start = tail_start(s, e, k);
        let t = s.subrange(start, e);
        split_whole(y, '/');
        assert(kept(seq![y], 0, -1) =~= Seq::empty());
        if counts(y, false) && k == 1 {
            assert(kept(seq![y], 1, -1) =~= seq![y]);
            assert(c.subrange(c.len() - 1, c.len() as int) =~= seq![y]);
            assert(t == y);
            assert(t[0] == s[q + 1]);
        } else {
            let j: int = if counts(y, false) {
                k - 1
            } else {
                k
            };
            let before = components(s.subrange(0, q));
            if q > 0 {
                tail_components(s, q, j);
                let x = s.subrange(start, q);
                let p = text::split(x, '/');
                assert(t =~= x + seq!['/'] + y);
                split_joined(x, y, '/', 0);
                kept_joined(p, seq![y], 1, -1);
                parts_exist(x, '/', 0);
                assert(kept(seq![y], 0, -1 - p.len()) =~= Seq::empty());
                assert(kept(seq![y], 1, -1 - p.len()) =~= if counts(y, false) {
                    seq![y]
                } else {
                    Seq::empty()
                });
                assert(t[0] == x[0]);
                assert(kept(text::split(t, '/'), text::split(t, '/').len(), -1) =~= c.subrange(
                    c.len() - k,
                    c.len() as int,
                ));
            } else {
                assert(c.len() <= 2);
            }
        }
    }
}

/// A path as seen from a directory above it, joined to that directory again, is
/// the path.
pub proof fn relative_joins_back(a: Seq<char>, b: Seq<char>)
    requires
        is_under(a, b),
    ensures
        relative(a, b) is Some,
        same_path(join(b, relative(a, b)->0), a),
{
    let c = components(a);
    let i = components(b).len() as int;
    let n = c.len() as int;
    let e = body_end(a, a.len() as int);
    assert(a.subrange(0, a.len() as int) =~= a);
    body_keeps_components(a, a.len() as int);
    if i == 0 {
        absolute_by_components(b);
        if b.len() > 0 {
            first_part_counts(b);
        }
        assert(Seq::<char>::empty() + a.subrange(0, e) =~= a.subrange(0, e));
        assert(b =~= Seq::empty());
    } else {
        assert(b.len() > 0) by {
            if b.len() == 0 {
                assert(b =~= Seq::empty());
                no_components();
            }
        }
        let r = relative(a, b)->0;
        if i == n {
            split_whole(r, '/');
            assert(kept(seq![r], 0, -1) =~= Seq::empty());
            assert(kept(seq![r], 1, -1) =~= Seq::empty());
        } else {
            tail_components(a, e, n - i);
        }
        joined_components(b, r);
        assert(c =~= components(b) + c.subrange(i, n));
    }
}

/// What a relative path is joined to stays above it.
pub proof fn joined_path_is_under(a: Seq<char>, b: Seq<char>)
    requires
        !is_absolute(b),
    ensures
        is_under(join(a, b), a),
{
    if a.len() > 0 {
        joined_components(a, b);
        assert(components(join(a, b)).subrange(0, components(a).len() as int) =~= components(a));
    } else {
        split_whole(a, '/');
        assert(kept(seq![a], 0, 0) =~= Seq::empty());
        assert(kept(seq![a], 1, 0) =~= Seq::empty());
        assert(components(join(a, b)).subrange(0, 0) =~= components(a));
    }
}

/// Joining a relative path puts its components behind those of the path that it is
/// joined to, unless it starts with a `.`, which then does not count.
pub proof fn joined_is_concatenated(a: Seq<char>, b: Seq<char>)
    requires
        !is_absolute(b),
        components(b).len() > 0 ==> components(b)[0] != seq!['.'],
    ensures
        components(join(a, b)) == components(a) + components(b),
{
    let q = text::split(b, '/');
    if a.len() > 0 {
        joined_components(a, b);
        dot_matters_not(b);
    } else {
        assert(a =~= Seq::empty());
        no_components();
        assert(a + b =~= b);
        assert(components(a) + components(b) =~= components(b));
    }
}

/// Where the first component of a relative path is no `.`, it would be the same
/// components behind another path.
proof fn dot_matters_not(b: Seq<char>)
    requires
        !is_absolute(b),
        components(b).len() > 0 ==> components(b)[0] != seq!['.'],
    ensures
        kept(text::split(b, '/'), text::split(b, '/').len(), -1) == components(b),
{
    let q = text::split(b, '/');
    parts_exist(b, '/', 0);
    if q[0] == seq!['.'] {
        first_kept(q, q.len());
        assert(components(b)[0] == seq!['.']);
    }
    kept_without_dot(q, q.len());
}

proof fn first_kept(q: Seq<Seq<char>>, n: nat)
    requires
        1 <= n <= q.len(),
        q[0].len() > 0,
    ensures
        kept(q, n, 0).len() > 0,
        kept(q, n, 0)[0] == q[0],
    decreases n,
{
    if n > 1 {
        first_kept(q, (n - 1) as nat);
    } else {
        assert(kept(q, 0, 0) =~= Seq::empty());
    }
}

proof fn kept_without_dot(q: Seq<Seq<char>>, n: nat)
    requires
        n <= q.len(),
        q.len() > 0 ==> q[0] != seq!['.'],
    ensures
        kept(q, n, -1) == kept(q, n, 0),
    decreases n,
{
    if n > 0 {
        kept_without_dot(q, (n - 1) as nat);
    }
}

/// A name joined to a path is one component more: that name.
pub proof fn name_is_one_component(a: Seq<char>, name: Seq<char>)
    requires
        is_plain(name),
    ensures
        components(name) == seq![name],
        components(join(a, name)) == components(a).push(name),
{
    split_whole(name, '/');
    assert(kept(seq![name], 0, 0) =~= Seq::empty());
    assert(kept(seq![name], 1, 0) =~= seq![name]);
    assert(name[0] != '/');
    joined_is_concatenated(a, name);
    assert(components(a) + seq![name] =~= components(a).push(name));
}

/// A relative path that is not empty has a component.
proof fn first_part_counts(b: Seq<char>)
    requires
        b.len() > 0,
        !is_absolute(b),
    ensures
        components(b).len() > 0,
{
    let parts = text::split(b, '/');
    text::find_char_in_bounds(b, '/', 0);
    parts_exist(b, '/', 0);
    assert(parts[0].len() > 0);
    kept_grows(parts, parts.len());
}

proof fn kept_grows(parts: Seq<Seq<char>>, n: nat)
    requires
        1 <= n <= parts.len(),
        parts[0].len() > 0,
    ensures
        kept(parts, n, 0).len() > 0,
    decreases n,
{
    if n > 1 {
        kept_grows(parts, (n - 1) as nat);
    }
}

/// A path as it stands in messages: in quotes, unusual characters escaped.
pub uninterp spec fn debug_text(s: Seq<char>) -> Seq<char>;

/// `Debug` of `std::path::Path`: the path in quotes with unusual characters
/// escaped, which depends on its text alone.
#[verifier::external_body]
pub(crate) fn debug_of(s: &str) -> (out: String)
    ensures
        out@ == debug_text(s@),
{
    format!("{:?}", std::path::Path::new(s))
}

/// The components of a path are the parts between slashes that are neither empty nor a
/// single dot; a root stands before them, and so does a dot that leads a relative path.
pub proof fn components_are_parts(s: Seq<char>)
    ensures
        ({
            let parts = text::split(s, '/');
            let names = parts.filter(|p: Seq<char>| p.len() > 0 && p != seq!['.']);
            &&& s.len() > 0 && s[0] == '/' ==> components(s) == seq![seq!['/']] + names
            &&& (s.len() == 0 || s[0] != '/') && parts[0] != seq!['.'] ==> components(s) == names
            &&& (s.len() == 0 || s[0] != '/') && parts[0] == seq!['.'] ==> components(s) == seq![
                seq!['.'],
            ] + names
        }),
{
    let parts = text::split(s, '/');
    let p = |p: Seq<char>| p.len() > 0 && p != seq!['.'];
    parts_exist(s, '/', 0);
    kept_are_filtered(parts, parts.len(), p);
    assert(parts.take(parts.len() as int) =~= parts);
    if parts[0] == seq!['.'] {
        leading_dot_is_kept(parts, parts.len());
    } else {
        kept_without_dot(parts, parts.len());
    }
}

proof fn kept_are_filtered(parts: Seq<Seq<char>>, n: nat, p: spec_fn(Seq<char>) -> bool)
    requires
        n <= parts.len(),
        forall|c: Seq<char>| #[trigger] p(c) == (c.len() > 0 && c != seq!['.']),
    ensures
        kept(parts, n, -1) == parts.take(n as int).filter(p),
    decreases n,
{
    reveal(Seq::filter);
    if n > 0 {
        kept_are_filtered(parts, (n - 1) as nat, p);
        assert(parts.take(n as int).drop_last() =~= parts.take(n - 1));
    }
    assert(kept(parts, n, -1) =~= parts.take(n as int).filter(p));
}

proof fn leading_dot_is_kept(q: Seq<Seq<char>>, n: nat)
    requires
        1 <= n <= q.len(),
        q[0] == seq!['.'],
    ensures
        kept(q, n, 0) == seq![seq!['.']] + kept(q, n, -1),
    decreases n,
{
    if n > 1 {
        leading_dot_is_kept(q, (n - 1) as nat);
        assert(kept(q, n, 0) =~= seq![seq!['.']] + kept(q, n, -1));
    } else {
        assert(kept(q, 0, 0) =~= Seq::empty());
        assert(kept(q, 0, -1) =~= Seq::empty());
        assert(kept(q, 1, -1) =~= Seq::empty());
        assert(kept(q, 1, 0) =~= seq![seq!['.']] + kept(q, 1, -1));
    }
}

/// One path is under another exactly where its components are those of the other and
/// then some; those are what is below, and there is a path from the one to the other
/// exactly then.
pub proof fn under_is_longer(a: Seq<char>, b: Seq<char>)
    ensures
        is_under(a, b) <==> components(b).is_prefix_of(components(a)),
        is_under(a, a),
        is_under(a, b) && is_under(b, a) <==> components(a) == components(b),
        below(a, b) matches Some(c) ==> components(a) == components(b) + c,
        below(a, b) is Some <==> is_under(a, b),
        relative(a, b) is Some <==> is_under(a, b),
        same_path(a, b) <==> components(a) == components(b),
{
    let x = components(a);
    let y = components(b);
    assert(x.subrange(0, x.len() as int) =~= x);
    assert(y.subrange(0, y.len() as int) =~= y);
    if is_under(a, b) {
        assert(x =~= y + x.subrange(y.len() as int, x.len() as int));
        relative_joins_back(a, b);
    }
}

/// The name of a file is the last component of its path, where that is a name.
pub proof fn name_is_the_last(a: Seq<char>, name: Seq<char>, s: Seq<char>)
    requires
        is_plain(name),
    ensures
        name != ".."@ ==> file_name(join(a, name)) == Some(name),
        name == ".."@ ==> file_name(join(a, name)) is None,
        file_name(s) matches Some(n) ==> components(s).len() > 0 && n == components(s).last()
            && is_plain(n),
        components(s).len() == 0 ==> file_name(s) is None,
{
    reveal_strlit("..");
    assert(".."@ =~= seq!['.', '.']);
    name_is_one_component(a, name);
    if file_name(s) is Some {
        let k = components(s).len() - 1;
        if k > 0 || !is_absolute(s) {
            components_are_plain(s, k);
        }
    }
    assert(name != seq!['/']) by {
        if name == seq!['/'] {
            assert(name[0] == '/');
        }
    }
}

/// Of what is below another path, the names stay, in order.
pub proof fn names_are_filtered(c: Seq<Seq<char>>, n: nat)
    requires
        n <= c.len(),
    ensures
        names_in(c, n) == c.take(n as int).filter(
            |p: Seq<char>| p != seq!['/'] && p != seq!['.'] && p != seq!['.', '.'],
        ),
    decreases n,
{
    let keep = |p: Seq<char>| p != seq!['/'] && p != seq!['.'] && p != seq!['.', '.'];
    reveal(Seq::filter);
    if n > 0 {
        names_are_filtered(c, (n - 1) as nat);
        assert(c.take(n as int).drop_last() =~= c.take(n - 1));
    }
    assert(names_in(c, n) =~= c.take(n as int).filter(keep));
}

/// Plain components with slashes between them are read back as they were.
pub proof fn rejoined_is_read_back(c: Seq<Seq<char>>, a: Seq<char>, b: Seq<char>)
    requires
        forall|j: int| 0 <= j < c.len() ==> is_plain(#[trigger] c[j]),
    ensures
        components(rejoin(c, 0, c.len() as int)) == c,
        rejoin(seq![a], 0, 1) == a,
        rejoin(seq![a, b], 0, 2) == a + seq!['/'] + b,
        rejoin(Seq::empty(), 0, 0) == Seq::<char>::empty(),
{
    rejoined_components(c, 0, c.len() as int);
    assert(c.subrange(0, c.len() as int) =~= c);
    let r = rejoin(c, 0, c.len() as int);
    let parts = text::split(r, '/');
    if c.len() > 0 {
        assert(c[0].len() > 0);
        first_of_rejoined(c);
    } else {
        split_whole(r, '/');
        assert(parts =~= seq![r]);
    }
    kept_without_dot(parts, parts.len());
    reveal_with_fuel(rejoin, 3);
}

proof fn first_of_rejoined(c: Seq<Seq<char>>)
    requires
        c.len() > 0,
        is_plain(c[0]),
    ensures
        ({
            let parts = text::split(rejoin(c, 0, c.len() as int), '/');
            parts.len() > 0 && parts[0] == c[0]
        }),
{
    if c.len() == 1 {
        split_whole(c[0], '/');
    } else {
        text::split_starts_with(c[0], rejoin(c, 1, c.len() as int), '/');
    }
}

/// Where one path is below another, the names between them are those of its further
/// components.
pub proof fn names_below_are_further(a: Seq<char>, b: Seq<char>, c: Seq<Seq<char>>)
    requires
        components(a) == components(b) + c,
    ensures
        names_below(a, b) == c.filter(
            |p: Seq<char>| p != seq!['/'] && p != seq!['.'] && p != seq!['.', '.'],
        ),
{
    let x = components(a);
    let y = components(b);
    assert(x.subrange(0, y.len() as int) =~= y);
    assert(x.subrange(y.len() as int, x.len() as int) =~= c);
    names_are_filtered(c, c.len());
    assert(c.take(c.len() as int) =~= c);
}

} // verus!
