//! Which paths to leave out: shell patterns that exclude, and patterns that
//! bring excluded paths back in.

use crate::error::FxcpError;
use crate::text;
use vstd::prelude::*;

verus! {

/// Whether a text is a shell pattern.
pub uninterp spec fn glob_valid(pattern: Seq<char>) -> bool;

/// Whether a path matches a shell pattern; no path matches a text that is none.
pub uninterp spec fn glob_matches(pattern: Seq<char>, path: Seq<char>) -> bool;

/// `glob::Pattern::new`: whether it accepts the pattern, which depends on the
/// text alone.
#[verifier::external_body]
fn pattern_compiles(pattern: &str) -> (valid: bool)
    ensures
        valid == glob_valid(pattern@),
{
    glob::Pattern::new(pattern).is_ok()
}

/// `glob::Pattern::matches_path` with the pattern compiled from its text: what
/// it says depends on the two texts alone.
#[verifier::external_body]
fn pattern_matches(pattern: &str, path: &str) -> (yes: bool)
    ensures
        yes == glob_matches(pattern@, path@),
{
    match glob::Pattern::new(pattern) {
        Ok(p) => p.matches_path(std::path::Path::new(path)),
        Err(_) => false,
    }
}

/// Whether a path matches one of the patterns.
pub open spec fn matches_any(patterns: Seq<Seq<char>>, rel: Seq<char>) -> bool {
    exists|i: int| 0 <= i < patterns.len() && #[trigger] glob_matches(patterns[i], rel)
}

/// Whether a path matches one of the patterns.
pub fn any_matches(patterns: &Vec<String>, rel: &str) -> (yes: bool)
    ensures
        yes == matches_any(text::texts(patterns@), rel@),
{
    let mut i: usize = 0;
    while i < patterns.len()
        invariant
            i <= patterns@.len(),
            forall|j: int|
                0 <= j < i ==> !(#[trigger] glob_matches(text::texts(patterns@)[j], rel@)),
        decreases patterns@.len() - i,
    {
        assert(text::texts(patterns@)[i as int] == patterns@[i as int]@);
        if pattern_matches(&patterns[i], rel) {
            assert(glob_matches(text::texts(patterns@)[i as int], rel@));
            return true;
        }
        i = i + 1;
    }
    false
}

/// The patterns among the first `n` texts.
pub open spec fn valid_patterns(texts: Seq<Seq<char>>, n: nat) -> Seq<Seq<char>>
    decreases n,
{
    if n == 0 {
        Seq::empty()
    } else if glob_valid(texts[n - 1]) {
        valid_patterns(texts, (n - 1) as nat).push(texts[n - 1])
    } else {
        valid_patterns(texts, (n - 1) as nat)
    }
}

/// The patterns among some texts; the others are dropped.
pub fn compile_patterns(list: &Vec<String>) -> (out: Vec<String>)
    ensures
        text::texts(out@) == valid_patterns(text::texts(list@), list@.len()),
{
    let mut out: Vec<String> = Vec::new();
    let ghost t = text::texts(list@);
    let mut i: usize = 0;
    assert(text::texts(out@) =~= Seq::empty());
    while i < list.len()
        invariant
            i <= list@.len(),
            t == text::texts(list@),
            text::texts(out@) == valid_patterns(t, i as nat),
        decreases list@.len() - i,
    {
        assert(t[i as int] == list@[i as int]@);
        let ghost before = out@;
        if pattern_compiles(&list[i]) {
            out.push(list[i].clone());
            assert(text::texts(out@) =~= text::texts(before).push(t[i as int]));
        }
        i = i + 1;
    }
    out
}

/// Patterns that exclude paths, and patterns that override them.
#[derive(Debug)]
pub struct FilterRules {
    pub excludes: Vec<String>,
    pub includes: Vec<String>,
}

impl FilterRules {
    /// Rules from texts; a text that is no pattern is ignored.
    pub fn new(exclude: &Vec<String>, include_list: &Vec<String>) -> (rules: Self)
        ensures
            text::texts(rules.excludes@) == valid_patterns(
                text::texts(exclude@),
                exclude@.len(),
            ),
            text::texts(rules.includes@) == valid_patterns(
                text::texts(include_list@),
                include_list@.len(),
            ),
    {
        FilterRules {
            excludes: compile_patterns(exclude),
            includes: compile_patterns(include_list),
        }
    }

    /// Whether a path is left out: it is excluded and nothing brings it back in.
    pub open spec fn skips(self, rel: Seq<char>) -> bool {
        matches_any(text::texts(self.excludes@), rel) && !matches_any(
            text::texts(self.includes@),
            rel,
        )
    }

    /// Whether a path is to be skipped.
    pub fn should_skip(&self, rel: &str) -> (skip: bool)
        ensures
            skip == self.skips(rel@),
    {
        any_matches(&self.excludes, rel) && !any_matches(&self.includes, rel)
    }
}

/// A path that an inclusion pattern matches is never skipped, and a path that no
/// exclusion pattern matches is not either.
pub proof fn inclusion_overrides_exclusion(rules: FilterRules, rel: Seq<char>)
    ensures
        matches_any(text::texts(rules.includes@), rel) ==> !rules.skips(rel),
        !matches_any(text::texts(rules.excludes@), rel) ==> !rules.skips(rel),
{
}

/// Whether a line of a pattern file holds a pattern: it is not blank and no
/// comment.
pub open spec fn is_pattern_line(line: Seq<char>) -> bool {
    let t = text::trim(line);
    t.len() > 0 && t[0] != '#'
}

/// The patterns in the first `n` lines, without the white space around them.
pub open spec fn patterns_in(lines: Seq<Seq<char>>, n: nat) -> Seq<Seq<char>>
    decreases n,
{
    if n == 0 {
        Seq::empty()
    } else if is_pattern_line(lines[n - 1]) {
        patterns_in(lines, (n - 1) as nat).push(text::trim(lines[n - 1]))
    } else {
        patterns_in(lines, (n - 1) as nat)
    }
}

/// Reads the text of a pattern file, one pattern per line. Blank lines and lines
/// that start with `#` do not count.
pub fn read_patterns(content: &str) -> (out: Vec<String>)
    ensures
        text::texts(out@) == patterns_in(text::lines(content@), text::lines(content@).len()),
{
    let lines = text::split_lines(content);
    let ghost t = text::lines(content@);
    let mut out: Vec<String> = Vec::new();
    let mut i: usize = 0;
    assert(text::texts(out@) =~= Seq::empty());
    while i < lines.len()
        invariant
            i <= lines@.len(),
            t == text::lines(content@),
            text::texts(lines@) == t,
            text::texts(out@) == patterns_in(t, i as nat),
        decreases lines@.len() - i,
    {
        assert(t[i as int] == lines@[i as int]@);
        let line = text::trimmed(&lines[i]);
        let chars = text::chars_of(&line);
        let ghost before = out@;
        if chars.len() > 0 && chars[0] != '#' {
            out.push(line);
            assert(text::texts(out@) =~= text::texts(before).push(text::trim(t[i as int])));
        }
        i = i + 1;
    }
    out
}

/// Splits positional arguments: the last is the destination, the others are
/// sources. There have to be two at least.
pub fn split_paths(paths: Vec<String>) -> (res: Result<(Vec<String>, String), FxcpError>)
    ensures
        paths@.len() < 2 ==> (res matches Err(FxcpError::Config(m)) && m@
            == "requires at least a source and destination"@),
        paths@.len() >= 2 ==> (res matches Ok(r) && r.0@ == paths@.drop_last() && r.1
            == paths@.last()),
{
    if paths.len() < 2 {
        return Err(FxcpError::Config("requires at least a source and destination".to_owned()));
    }
    let mut sources = paths;
    match sources.pop() {
        Some(destination) => {
            assert(sources@ =~= paths@.drop_last());
            Ok((sources, destination))
        },
        None => Err(FxcpError::Config("requires at least a source and destination".to_owned())),
    }
}

/// The patterns that are kept are exactly the texts that are patterns, in order.
pub proof fn patterns_are_kept(texts: Seq<Seq<char>>, n: nat)
    requires
        n <= texts.len(),
    ensures
        valid_patterns(texts, n) == texts.take(n as int).filter(|t: Seq<char>| glob_valid(t)),
    decreases n,
{
    let p = |t: Seq<char>| glob_valid(t);
    reveal(Seq::filter);
    if n > 0 {
        patterns_are_kept(texts, (n - 1) as nat);
        assert(texts.take(n as int).drop_last() =~= texts.take(n - 1));
    }
    assert(valid_patterns(texts, n) =~= texts.take(n as int).filter(p));
}

/// A path is skipped exactly where some exclusion pattern matches it and no
/// inclusion pattern does.
pub proof fn skipping_is_decided_by_matches(rules: FilterRules, rel: Seq<char>)
    ensures
        rules.skips(rel) <==> {
            &&& exists|i: int|
                0 <= i < rules.excludes@.len() && glob_matches(
                    (#[trigger] rules.excludes@[i])@,
                    rel,
                )
            &&& forall|i: int|
                0 <= i < rules.includes@.len() ==> !glob_matches(
                    (#[trigger] rules.includes@[i])@,
                    rel,
                )
        },
{
    one_matches(rules.excludes@, rel);
    one_matches(rules.includes@, rel);
}

/// A path matches a list of patterns exactly where it matches one of them.
pub proof fn one_matches(patterns: Seq<String>, rel: Seq<char>)
    ensures
        matches_any(text::texts(patterns), rel) <==> exists|i: int|
            0 <= i < patterns.len() && glob_matches((#[trigger] patterns[i])@, rel),
{
    let t = text::texts(patterns);
    if matches_any(t, rel) {
        let i = choose|i: int| 0 <= i < t.len() && #[trigger] glob_matches(t[i], rel);
        assert(t[i] == patterns[i]@);
    }
    if exists|i: int| 0 <= i < patterns.len() && glob_matches((#[trigger] patterns[i])@, rel) {
        let i = choose|i: int|
            0 <= i < patterns.len() && glob_matches((#[trigger] patterns[i])@, rel);
        assert(t[i] == patterns[i]@);
        assert(glob_matches(t[i], rel));
    }
}

/// The patterns of a file are its lines without the white space around them, but
/// for those that are then empty or start with `#`, in order.
pub proof fn pattern_lines_are_kept(lines: Seq<Seq<char>>, n: nat)
    requires
        n <= lines.len(),
    ensures
        patterns_in(lines, n) == lines.take(n as int).filter_map(
            |l: Seq<char>|
                if text::trim(l).len() == 0 || text::trim(l)[0] == '#' {
                    None
                } else {
                    Some(text::trim(l))
                },
        ),
    decreases n,
{
    let f = |l: Seq<char>|
        if text::trim(l).len() == 0 || text::trim(l)[0] == '#' {
            None
        } else {
            Some(text::trim(l))
        };
    if n > 0 {
        pattern_lines_are_kept(lines, (n - 1) as nat);
        assert(lines.take(n as int).drop_last() =~= lines.take(n - 1));
    }
    assert(patterns_in(lines, n) =~= lines.take(n as int).filter_map(f));
}

/// The last path is the destination, all before it are sources, and there is at least one of
/// each.
pub proof fn last_path_is_the_destination(
    paths: Vec<String>,
    res: Result<(Vec<String>, String), FxcpError>,
)
    requires
        call_ensures(split_paths, (paths,), res),
    ensures
        res is Ok <==> paths@.len() >= 2,
        res matches Ok(r) ==> r.0@.len() == paths@.len() - 1 && r.1 == paths@[paths@.len() - 1]
            && forall|i: int| 0 <= i < r.0@.len() ==> #[trigger] r.0@[i] == paths@[i],
        res is Err ==> res->Err_0 is Config,
{
}

/// A path is skipped exactly where one of the valid patterns excludes it and no valid one
/// includes it.
pub proof fn rules_skip_what_they_exclude(
    exclude: &Vec<String>,
    keep: &Vec<String>,
    rules: FilterRules,
    rel: &str,
    skip: bool,
)
    requires
        call_ensures(FilterRules::new, (exclude, keep), rules),
        call_ensures(FilterRules::should_skip, (&rules, rel), skip),
    ensures
        skip <==> {
            &&& exists|i: int|
                0 <= i < exclude@.len() && glob_valid((#[trigger] exclude@[i])@) && glob_matches(
                    exclude@[i]@,
                    rel@,
                )
            &&& forall|i: int|
                0 <= i < keep@.len() && glob_valid((#[trigger] keep@[i])@) ==> !glob_matches(
                    keep@[i]@,
                    rel@,
                )
        },
{
    valid_ones_match(exclude@, rules.excludes@, rel@);
    valid_ones_match(keep@, rules.includes@, rel@);
}

proof fn valid_ones_match(given: Seq<String>, kept: Seq<String>, rel: Seq<char>)
    requires
        text::texts(kept) == valid_patterns(text::texts(given), given.len()),
    ensures
        matches_any(text::texts(kept), rel) <==> exists|i: int|
            0 <= i < given.len() && glob_valid((#[trigger] given[i])@) && glob_matches(
                given[i]@,
                rel,
            ),
{
    let t = text::texts(given);
    valid_are_found(t, given.len(), rel);
    if matches_any(text::texts(kept), rel) {
        let i = choose|i: int|
            0 <= i < t.len() && glob_valid(#[trigger] t[i]) && glob_matches(t[i], rel);
        assert(given[i]@ == t[i]);
    }
    if exists|i: int|
        0 <= i < given.len() && glob_valid((#[trigger] given[i])@) && glob_matches(given[i]@, rel) {
        let i = choose|i: int|
            0 <= i < given.len() && glob_valid((#[trigger] given[i])@) && glob_matches(
                given[i]@,
                rel,
            );
        assert(t[i] == given[i]@);
    }
}

proof fn valid_are_found(t: Seq<Seq<char>>, n: nat, rel: Seq<char>)
    requires
        n <= t.len(),
    ensures
        matches_any(valid_patterns(t, n), rel) <==> exists|i: int|
            0 <= i < n && glob_valid(#[trigger] t[i]) && glob_matches(t[i], rel),
    decreases n,
{
    if n > 0 {
        valid_are_found(t, (n - 1) as nat, rel);
        let before = valid_patterns(t, (n - 1) as nat);
        let all = valid_patterns(t, n);
        if matches_any(all, rel) {
            let k = choose|k: int| 0 <= k < all.len() && #[trigger] glob_matches(all[k], rel);
            if k < before.len() {
                assert(glob_matches(before[k], rel));
            } else {
                assert(glob_valid(t[n - 1]) && glob_matches(t[n - 1], rel));
            }
        }
        if matches_any(before, rel) {
            let k = choose|k: int| 0 <= k < before.len() && #[trigger] glob_matches(before[k], rel);
            assert(glob_matches(all[k], rel));
        }
        if glob_valid(t[n - 1]) && glob_matches(t[n - 1], rel) {
            assert(all[all.len() - 1] == t[n - 1]);
            assert(glob_matches(all[all.len() - 1], rel));
        }
    }
}

} // verus!
