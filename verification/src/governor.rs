//! Holding back when the machine is under stress.

use crate::text;
use vstd::prelude::*;

verus! {

/// So many results are enough: after them the failures are counted anew.
pub const WINDOW_RESULTS: u64 = 1000;

/// A text in lower case.
pub uninterp spec fn lowercase(s: Seq<char>) -> Seq<char>;

/// `str::to_lowercase`: the text in lower case, which depends on the text alone.
#[verifier::external_body]
fn to_lowercase(s: &str) -> (out: String)
    ensures
        out@ == lowercase(s@),
{
    s.to_lowercase()
}

/// Whether a vendor, in lower case, makes virtual machines.
pub open spec fn is_virtual_vendor(v: Seq<char>) -> bool {
    text::contains(v, "qemu"@) || text::contains(v, "vmware"@) || text::contains(v, "xen"@)
        || text::contains(v, "microsoft"@) || text::contains(v, "amazon"@) || text::contains(
        v,
        "google"@,
    ) || text::contains(v, "digitalocean"@)
}

/// Whether a vendor, in lower case, makes virtual machines.
pub fn names_virtual_vendor(v: &str) -> (yes: bool)
    ensures
        yes == is_virtual_vendor(v@),
{
    text::has_infix(v, "qemu") || text::has_infix(v, "vmware") || text::has_infix(v, "xen")
        || text::has_infix(v, "microsoft") || text::has_infix(v, "amazon") || text::has_infix(
        v,
        "google",
    ) || text::has_infix(v, "digitalocean")
}

/// What a tool for detecting virtual machines has said.
#[derive(Debug)]
pub struct Detection {
    /// It has found one.
    pub success: bool,
    pub output: String,
}

/// The virtual machine that a tool has named, if it has.
pub open spec fn detected(d: Detection) -> Option<Seq<char>> {
    let t = text::trim(d.output@);
    if d.success && t != "none"@ && t.len() > 0 {
        Some(t)
    } else {
        None
    }
}

/// The virtual machine that the program runs in: what a tool says of it, what
/// the vendor's name says of it, or what the kernel says of it, in this order.
pub fn detect_hypervisor(
    tool: &Option<Detection>,
    vendor: &Option<String>,
    kernel: &Option<String>,
) -> (res: Option<String>)
    ensures
        ({
            let by_tool = match *tool {
                Some(d) => detected(d),
                None => None,
            };
            let by_vendor = match *vendor {
                Some(v) => if is_virtual_vendor(lowercase(text::trim(v@))) {
                    Some(lowercase(text::trim(v@)))
                } else {
                    None
                },
                None => None,
            };
            if by_tool is Some {
                res is Some && res->0@ == by_tool->0
            } else if by_vendor is Some {
                res is Some && res->0@ == by_vendor->0
            } else {
                match *kernel {
                    Some(k) => res is Some && res->0@ == text::trim(k@),
                    None => res is None,
                }
            }
        }),
{
    if let Some(d) = tool {
        let t = text::trimmed(&d.output);
        if d.success && !text::same_text(&t, "none") && text::chars_of(&t).len() != 0 {
            return Some(t);
        }
    }
    if let Some(v) = vendor {
        let l = to_lowercase(&text::trimmed(v));
        if names_virtual_vendor(&l) {
            return Some(l);
        }
    }
    match kernel {
        Some(k) => Some(text::trimmed(k)),
        None => None,
    }
}

/// The position of the first line from `i` on that says how long some tasks have
/// stalled.
pub open spec fn stall_line(lines: Seq<Seq<char>>, i: int) -> int
    decreases lines.len() - i,
{
    if 0 <= i < lines.len() && !text::starts_with(lines[i], "some "@) {
        stall_line(lines, i + 1)
    } else {
        i
    }
}

/// The number, as text, that stands behind the first `=` of the second word.
pub open spec fn second_value(line: Seq<char>) -> Option<Seq<char>> {
    let w = text::words(line);
    if w.len() < 2 {
        None
    } else {
        let p = text::split(w[1], '=');
        if p.len() < 2 {
            None
        } else {
            Some(p[1])
        }
    }
}

fn second_value_of(line: &str) -> (res: Option<String>)
    ensures
        match second_value(line@) {
            Some(t) => res is Some && res->0@ == t,
            None => res is None,
        },
{
    let w = text::split_words(line);
    assert(text::words(line@).len() == w@.len());
    if w.len() < 2 {
        return None;
    }
    assert(text::texts(w@)[1] == w@[1]@);
    let p = text::split_on(&w[1], '=');
    assert(text::split(w@[1]@, '=').len() == p@.len());
    if p.len() < 2 {
        return None;
    }
    assert(text::texts(p@)[1] == p@[1]@);
    Some(p[1].clone())
}

/// Which limits on pressure apply.
#[derive(Debug, Clone, Copy, PartialEq, Eq, Structural)]
pub enum Limits {
    /// The wide ones, for a single run.
    Relaxed,
    /// The given ones, widened for a virtual machine.
    Widened,
    /// The given ones.
    Given,
}

/// What to do before the next piece of work.
#[derive(Debug, Clone, Copy, PartialEq, Eq, Structural)]
pub enum Pace {
    /// Go on.
    Run,
    /// Wait for the usual time.
    Wait { ms: u64 },
    /// Hold back for so long.
    Throttle { ms: u64 },
}

/// Results and limits by which work is held back.
#[derive(Debug)]
pub struct Governor {
    pub limits: Limits,
    pub min_hydration_interval_ms: u64,
    pub min_throughput_bytes_sec: u64,
    pub copy_success_count: u64,
    pub copy_failure_count: u64,
    pub failure_window_start_ms: u64,
}

impl Governor {
    /// How many results were counted.
    pub open spec fn results(self) -> int {
        self.copy_success_count + self.copy_failure_count
    }

    /// Whether more than half of the results were failures.
    pub open spec fn is_failing(self) -> bool {
        2 * self.copy_failure_count > self.results()
    }

    /// With the counts at zero.
    pub open spec fn cleared(self) -> Self {
        Governor {
            copy_success_count: 0,
            copy_failure_count: 0,
            failure_window_start_ms: 0,
            ..self
        }
    }

    /// After its results were looked at: with enough of them counted, they are
    /// counted anew.
    pub open spec fn looked_at(self) -> Self {
        if self.results() > WINDOW_RESULTS {
            self.cleared()
        } else {
            self
        }
    }

    /// With nothing counted yet. In a single run the wide limits apply, in a
    /// virtual machine the widened ones.
    pub fn new(
        one_shot: bool,
        hypervisor: &Option<String>,
        hydration_delay_ms: u64,
        now_ms: u64,
    ) -> (g: Self)
        ensures
            g.limits == (if one_shot {
                Limits::Relaxed
            } else if hypervisor is Some {
                Limits::Widened
            } else {
                Limits::Given
            }),
            g.min_hydration_interval_ms == hydration_delay_ms,
            g.min_throughput_bytes_sec == 0,
            g.results() == 0,
            g.failure_window_start_ms == now_ms,
    {
        let limits = if one_shot {
            Limits::Relaxed
        } else if hypervisor.is_some() {
            Limits::Widened
        } else {
            Limits::Given
        };
        Governor {
            limits,
            min_hydration_interval_ms: hydration_delay_ms,
            min_throughput_bytes_sec: 0,
            copy_success_count: 0,
            copy_failure_count: 0,
            failure_window_start_ms: now_ms,
        }
    }

    /// The rate below which work is not held back.
    pub fn set_min_throughput(&mut self, bytes_per_sec: u64)
        ensures
            *final(self) == (Governor { min_throughput_bytes_sec: bytes_per_sec, ..*old(self) }),
    {
        self.min_throughput_bytes_sec = bytes_per_sec;
    }

    /// The average pressure of the last ten seconds, as the text that the kernel
    /// writes of it.
    pub fn read_psi(content: &str) -> (res: Option<String>)
        ensures
            ({
                let lines = text::lines(content@);
                let k = stall_line(lines, 0);
                if k < lines.len() {
                    match second_value(lines[k]) {
                        Some(t) => res is Some && res->0@ == t,
                        None => res is None,
                    }
                } else {
                    res is None
                }
            }),
    {
        let lines = text::split_lines(content);
        let ghost l = text::lines(content@);
        let mut i: usize = 0;
        while i < lines.len() && !text::has_prefix(&lines[i], "some ")
            invariant
                i <= lines@.len(),
                text::texts(lines@) == l,
                stall_line(l, 0) == stall_line(l, i as int),
            decreases lines@.len() - i,
        {
            assert(l[i as int] == lines@[i as int]@);
            i = i + 1;
        }
        if i < lines.len() {
            assert(l[i as int] == lines@[i as int]@);
            second_value_of(&lines[i])
        } else {
            None
        }
    }

    /// Counts a result.
    pub fn signal_copy_result(&mut self, success: bool)
        ensures
            success ==> *final(self) == (Governor {
                copy_success_count: old(self).copy_success_count.wrapping_add(1),
                ..*old(self)
            }),
            !success ==> *final(self) == (Governor {
                copy_failure_count: old(self).copy_failure_count.wrapping_add(1),
                ..*old(self)
            }),
    {
        if success {
            self.copy_success_count = self.copy_success_count.wrapping_add(1);
        } else {
            self.copy_failure_count = self.copy_failure_count.wrapping_add(1);
        }
    }

    /// The rate of failures as a fraction: failures and results; no failures of
    /// one result where nothing was counted.
    pub fn failure_rate(&self) -> (rate: (u64, u64))
        requires
            self.results() <= u64::MAX,
        ensures
            self.results() == 0 ==> rate == (0u64, 1u64),
            self.results() > 0 ==> rate.0 == self.copy_failure_count && rate.1 == self.results(),
    {
        let total: u64 = self.copy_success_count + self.copy_failure_count;
        if total == 0 {
            (0, 1)
        } else {
            (self.copy_failure_count, total)
        }
    }

    /// Counts anew.
    pub fn reset_failure_window(&mut self)
        ensures
            *final(self) == old(self).cleared(),
    {
        self.copy_success_count = 0;
        self.copy_failure_count = 0;
        self.failure_window_start_ms = 0;
    }

    /// Whether failures add to the stress, which they do when they are more than
    /// half of the results. With enough results counted, counts anew.
    pub fn current_stress_score(&mut self) -> (boosted: bool)
        requires
            old(self).results() <= u64::MAX,
        ensures
            boosted == old(self).is_failing(),
            *final(self) == old(self).looked_at(),
    {
        let (failures, total) = self.failure_rate();
        let boosted = failures > total - failures;
        if total > WINDOW_RESULTS {
            self.reset_failure_window();
        }
        boosted
    }

    /// Whether the system is under stress, by whether its score says so as it is,
    /// and with what failures add to it.
    pub fn is_system_stressed(&mut self, plain: bool, boosted: bool) -> (yes: bool)
        requires
            old(self).results() <= u64::MAX,
        ensures
            yes == (if old(self).is_failing() {
                boosted
            } else {
                plain
            }),
            *final(self) == old(self).looked_at(),
    {
        if self.current_stress_score() {
            boosted
        } else {
            plain
        }
    }

    /// What to do before the next piece of work: nothing when the system is idle;
    /// the usual wait, if there is one, when it is calm or the stress is too
    /// small to hold back for; else hold back.
    pub fn pace_hydration(&self, idle: bool, calm: bool, backoff_ms: u64) -> (p: Pace)
        ensures
            p == (if idle {
                Pace::Run
            } else if !calm && backoff_ms > 0 {
                Pace::Throttle { ms: backoff_ms }
            } else if self.min_hydration_interval_ms > 0 {
                Pace::Wait { ms: self.min_hydration_interval_ms }
            } else {
                Pace::Run
            }),
    {
        if idle {
            return Pace::Run;
        }
        if !calm && backoff_ms > 0 {
            return Pace::Throttle { ms: backoff_ms };
        }
        if self.min_hydration_interval_ms > 0 {
            Pace::Wait { ms: self.min_hydration_interval_ms }
        } else {
            Pace::Run
        }
    }
}

/// Old failures are forgotten: once more results than the window holds were
/// looked at, nothing is counted any more, and failures add no stress.
pub proof fn old_failures_are_forgotten(g: Governor)
    requires
        g.results() > WINDOW_RESULTS,
    ensures
        g.looked_at().results() == 0,
        !g.looked_at().is_failing(),
{
}

/// Looking at the results changes nothing else: as long as the window is not
/// exceeded they are kept, and the limits and rates always are.
pub proof fn looking_keeps_settings(g: Governor)
    ensures
        g.results() <= WINDOW_RESULTS ==> g.looked_at() == g,
        g.looked_at().limits == g.limits,
        g.looked_at().min_hydration_interval_ms == g.min_hydration_interval_ms,
        g.looked_at().min_throughput_bytes_sec == g.min_throughput_bytes_sec,
{
}

/// A vendor is virtual exactly where one of the known names is in its own.
pub proof fn known_vendors_are_virtual(v: Seq<char>)
    ensures
        !is_virtual_vendor(v) <==> !text::contains(v, "qemu"@) && !text::contains(v, "vmware"@)
            && !text::contains(v, "xen"@) && !text::contains(v, "microsoft"@) && !text::contains(
            v,
            "amazon"@,
        ) && !text::contains(v, "google"@) && !text::contains(v, "digitalocean"@),
{
}

/// The tool's word counts where it ran and named something.
pub proof fn tool_must_name_something(d: Detection)
    ensures
        detected(d) is Some <==> d.success && text::trim(d.output@).len() > 0 && text::trim(
            d.output@,
        ) != seq!['n', 'o', 'n', 'e'],
        detected(d) matches Some(t) ==> t == text::trim(d.output@),
{
    reveal_strlit("none");
    assert("none"@ =~= seq!['n', 'o', 'n', 'e']);
}

/// The pressure is read from the first line about some tasks: the value of its second
/// word.
pub proof fn first_stall_line_counts(lines: Seq<Seq<char>>, i: int)
    requires
        0 <= i <= lines.len(),
    ensures
        ({
            let k = stall_line(lines, i);
            &&& i <= k <= lines.len()
            &&& k < lines.len() ==> "some "@.is_prefix_of(lines[k])
            &&& forall|j: int| i <= j < k ==> !"some "@.is_prefix_of(#[trigger] lines[j])
        }),
    decreases lines.len() - i,
{
    if i < lines.len() {
        text::prefix_is_start(lines[i], "some "@);
        if !text::starts_with(lines[i], "some "@) {
            first_stall_line_counts(lines, i + 1);
        }
    }
}

/// The value of a line is what stands behind the first equals sign of its second word, up
/// to the next.
pub proof fn value_is_behind_equals_sign(w: Seq<char>, name: Seq<char>, value: Seq<char>, r: Seq<
    char,
>)
    requires
        w.len() > 0,
        forall|i: int| 0 <= i < w.len() ==> !text::is_space(w[i]),
        forall|i: int| 0 <= i < name.len() ==> !text::is_space(name[i]) && name[i] != '=',
        forall|i: int| 0 <= i < value.len() ==> !text::is_space(value[i]) && value[i] != '=',
    ensures
        second_value(w + seq![' '] + (name + seq!['='] + value + seq![' '] + r)) == Some(value),
{
    let second = name + seq!['='] + value;
    let rest = second + seq![' '] + r;
    assert(name + seq!['='] + value + seq![' '] + r =~= rest);
    text::words_go_on(w, ' ', rest);
    assert forall|i: int| 0 <= i < second.len() implies !text::is_space(second[i]) by {
        if i < name.len() {
            assert(second[i] == name[i]);
        } else if i > name.len() {
            assert(second[i] == value[i - name.len() - 1]);
        }
    }
    text::words_go_on(second, ' ', r);
    let all = text::words(w + seq![' '] + rest);
    assert(all =~= seq![w] + (seq![second] + text::words(r)));
    assert(all[1] == second);
    text::split_goes_on(name, value, '=');
    text::split_goes_on(value, value, '=');
    assert(text::split(second, '=') =~= seq![name, value]);
}

/// Copies fail too often where more than half of them do, and a full window is begun anew.
pub proof fn half_failed_is_failing(g: Governor)
    ensures
        g.is_failing() <==> g.copy_failure_count > g.copy_success_count,
        g.results() == g.copy_success_count + g.copy_failure_count,
        g.copy_success_count + g.copy_failure_count > 1000 ==> g.looked_at().copy_success_count == 0
            && g.looked_at().copy_failure_count == 0 && g.looked_at().failure_window_start_ms == 0,
        g.copy_success_count + g.copy_failure_count <= 1000 ==> g.looked_at() == g,
        g.cleared().copy_success_count == 0 && g.cleared().copy_failure_count == 0
            && g.cleared().failure_window_start_ms == 0,
        g.cleared().limits == g.limits && g.cleared().min_hydration_interval_ms
            == g.min_hydration_interval_ms && g.cleared().min_throughput_bytes_sec
            == g.min_throughput_bytes_sec,
{
}

/// Every result counts as what it was, and a system is held for stressed by the stricter
/// measure once most copies fail.
pub proof fn failures_make_stress(
    g: &mut Governor,
    success: bool,
    h: &mut Governor,
    plain: bool,
    boosted: bool,
    yes: bool,
)
    requires
        call_ensures(Governor::signal_copy_result, (g, success), ()),
        call_ensures(Governor::is_system_stressed, (h, plain, boosted), yes),
        old(g).copy_success_count < u64::MAX,
        old(g).copy_failure_count < u64::MAX,
        old(h).results() <= u64::MAX,
    ensures
        final(g).copy_success_count == old(g).copy_success_count + if success {
            1int
        } else {
            0
        },
        final(g).copy_failure_count == old(g).copy_failure_count + if success {
            0int
        } else {
            1
        },
        old(h).copy_failure_count > old(h).copy_success_count ==> yes == boosted,
        old(h).copy_failure_count <= old(h).copy_success_count ==> yes == plain,
{
}

/// An idle system runs on; a stressed one waits as long as it is told, and else the least
/// interval is kept.
pub proof fn pace_follows_stress(g: &Governor, idle: bool, calm: bool, backoff_ms: u64, p: Pace)
    requires
        call_ensures(Governor::pace_hydration, (g, idle, calm, backoff_ms), p),
    ensures
        p is Throttle <==> !idle && !calm && backoff_ms > 0,
        p is Wait <==> !idle && (calm || backoff_ms == 0) && g.min_hydration_interval_ms > 0,
        p matches Pace::Throttle { ms } ==> ms == backoff_ms,
        p matches Pace::Wait { ms } ==> ms == g.min_hydration_interval_ms,
        idle ==> p == Pace::Run,
{
}

/// The rate of failures is how many of all results they are, and none where there are none.
pub proof fn failures_are_of_all_results(g: &Governor, rate: (u64, u64))
    requires
        call_ensures(Governor::failure_rate, (g,), rate),
        g.results() <= u64::MAX,
    ensures
        rate.1 > 0,
        g.copy_failure_count == 0 ==> rate.0 == 0,
        rate.0 == g.copy_failure_count,
        g.results() > 0 ==> rate.1 == g.copy_failure_count + g.copy_success_count,
{
}

} // verus!
