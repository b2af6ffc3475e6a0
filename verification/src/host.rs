//! What machine actually ran the benchmark, sampled rather than asserted.
//!
//! "Turbo off, performance governor" is exactly the claim that someone types
//! without checking. Everything here is derived from what `/proc` and `/sys`
//! say on the box that measures, at the moment it measures, and whether a run
//! counts as a real comparison is decided by these facts.
use vstd::prelude::*;
use crate::number::{decimal, parse_u64};
use crate::text::{
    contains, copied, find_beginning, join, lines, push_string, push_text, same, split_once,
    starts_with, trim, words,
};

verus! {

/// What was read from the machine, as text. A file that could not be read is
/// missing.
pub struct HostFacts {
    /// `/proc/cpuinfo`
    pub cpuinfo: Option<String>,
    /// `/proc/meminfo`
    pub meminfo: Option<String>,
    /// `/proc/sys/kernel/osrelease`
    pub osrelease: Option<String>,
    /// The governor file of each online CPU, in their order.
    pub governors: Vec<Option<String>>,
    /// `/sys/devices/system/cpu/intel_pstate/no_turbo`
    pub no_turbo: Option<String>,
    /// `/sys/devices/system/cpu/cpufreq/boost`
    pub boost: Option<String>,
    /// The effective user id.
    pub euid: u32,
}

/// The machine that ran the benchmark.
pub struct Host {
    /// CPU model string.
    pub cpu: String,
    /// Online logical CPUs.
    pub cpu_count: usize,
    /// Kernel release.
    pub kernel: String,
    /// Total RAM in kibibytes.
    pub memory_total_kb: u64,
    /// cpufreq governor, when every online CPU agrees on one.
    pub governor: Option<String>,
    /// Turbo / boost state: `Some(true)` when it is on, `Some(false)` when the
    /// kernel reports it disabled, `None` when neither knob is present.
    pub turbo: Option<bool>,
    /// Whether the CPU reports the hypervisor flag.
    pub virtualized: bool,
    /// Root gets cgroup pinning and cgroup-scoped counters.
    pub root: bool,
    /// Derived, never typed: a run is admissible as a comparison only on bare
    /// metal, with the performance governor and turbo disabled, as root.
    pub admissible: bool,
    /// Why not, when `admissible` is false.
    pub inadmissible_reasons: Vec<String>,
    /// One-line summary of the above.
    pub note: String,
}

/// The characters of a text that may be missing.
pub open spec fn chars_or_none(text: Option<String>) -> Seq<char> {
    match text {
        Some(t) => t@,
        None => Seq::empty(),
    }
}

/// What stands behind the first colon of the first line of `text` that begins
/// with `key`, without the white space around it.
pub open spec fn value_after(text: Seq<char>, key: Seq<char>) -> Option<Seq<char>> {
    let all = crate::text::lines_of(text);
    let i = crate::text::first_beginning(all, key, 0);
    if i < all.len() {
        match crate::text::parts_at(all[i], ':') {
            Some((_, v)) => Some(crate::text::trimmed(v)),
            None => None,
        }
    } else {
        None
    }
}

/// What stands behind the first colon of the first line of `text` that begins
/// with `key`, without the white space around it.
pub fn first_line_after(text: &str, key: &str) -> (r: Option<String>)
    ensures
        crate::text::opt_view(r) == value_after(text@, key@),
{
    let all = lines(text);
    let i = find_beginning(&all, key);
    if i == all.len() {
        return None;
    }
    assert(crate::text::views(all@)[i as int] == all@[i as int]@);
    match split_once(all[i].as_str(), ':') {
        Some((_, v)) => Some(trim(v.as_str())),
        None => None,
    }
}

/// The number of `lines` that begin with `p`.
pub open spec fn count_beginning(all: Seq<Seq<char>>, p: Seq<char>) -> nat
    decreases all.len(),
{
    if all.len() == 0 {
        0
    } else {
        count_beginning(all.drop_last(), p) + (if crate::text::begins(all.last(), p) {
            1nat
        } else {
            0nat
        })
    }
}

/// The number of logical CPUs that a `/proc/cpuinfo` text lists, at least one.
pub open spec fn cpu_count_of(cpuinfo: Seq<char>) -> nat {
    let n = count_beginning(crate::text::lines_of(cpuinfo), "processor"@);
    if n == 0 {
        1
    } else {
        n
    }
}

/// The number of logical CPUs that a `/proc/cpuinfo` text lists, at least one.
pub fn cpu_count(cpuinfo: &str) -> (r: usize)
    ensures
        r == cpu_count_of(cpuinfo@),
{
    let all = lines(cpuinfo);
    let ghost s = crate::text::views(all@);
    let mut n: usize = 0;
    let mut i: usize = 0;
    assert(s.take(0) =~= Seq::empty());
    while i < all.len()
        invariant
            n <= i <= all@.len(),
            s == crate::text::views(all@),
            n == count_beginning(s.take(i as int), "processor"@),
        decreases all@.len() - i,
    {
        assert(s.take(i + 1).drop_last() =~= s.take(i as int));
        assert(s.take(i + 1).last() == all@[i as int]@);
        if starts_with(all[i].as_str(), "processor") {
            n += 1;
        }
        i += 1;
    }
    assert(s.take(s.len() as int) =~= s);
    if n == 0 {
        1
    } else {
        n
    }
}

/// Whether a line lists the CPU's flags with the hypervisor's among them.
pub open spec fn guest_line(line: Seq<char>) -> bool {
    crate::text::begins(line, "flags"@) && crate::text::holds(line, " hypervisor"@)
}

/// Whether a `/proc/cpuinfo` text is that of a guest.
pub open spec fn is_guest(cpuinfo: Seq<char>) -> bool {
    exists|i: int|
        0 <= i < crate::text::lines_of(cpuinfo).len() && guest_line(
            #[trigger] crate::text::lines_of(cpuinfo)[i],
        )
}

/// Whether a `/proc/cpuinfo` text is that of a guest.
pub fn virtualized(cpuinfo: &str) -> (r: bool)
    ensures
        r == is_guest(cpuinfo@),
{
    let all = lines(cpuinfo);
    let ghost s = crate::text::lines_of(cpuinfo@);
    let mut i: usize = 0;
    while i < all.len()
        invariant
            i <= all@.len(),
            s == crate::text::views(all@),
            s == crate::text::lines_of(cpuinfo@),
            forall|k: int| 0 <= k < i ==> !guest_line(#[trigger] s[k]),
        decreases all@.len() - i,
    {
        assert(s[i as int] == all@[i as int]@);
        if starts_with(all[i].as_str(), "flags") && contains(all[i].as_str(), " hypervisor") {
            return true;
        }
        i += 1;
    }
    false
}

/// The total memory in kibibytes that a `/proc/meminfo` text states, zero where
/// it states none.
pub open spec fn memory_of(meminfo: Seq<char>) -> nat {
    match value_after(meminfo, "MemTotal"@) {
        Some(v) => match crate::text::first_word(v) {
            Some(w) => match crate::number::unsigned_up_to(w, u64::MAX as nat) {
                Some(n) => n,
                None => 0,
            },
            None => 0,
        },
        None => 0,
    }
}

/// The total memory in kibibytes that a `/proc/meminfo` text states, zero where
/// it states none.
pub fn memory_total_kb(meminfo: &str) -> (r: u64)
    ensures
        r == memory_of(meminfo@),
{
    match first_line_after(meminfo, "MemTotal") {
        Some(v) => {
            let w = words(v.as_str());
            if w.len() == 0 {
                return 0;
            }
            assert(crate::text::views(w@)[0] == w@[0]@);
            match parse_u64(w[0].as_str()) {
                Some(n) => n,
                None => 0,
            }
        },
        None => 0,
    }
}

/// A text that may be missing, without the white space around it.
pub open spec fn trimmed_of(text: Option<String>) -> Option<Seq<char>> {
    match text {
        Some(t) => Some(crate::text::trimmed(t@)),
        None => None,
    }
}

/// A text that may be missing, without the white space around it.
pub fn read_trimmed(text: &Option<String>) -> (r: Option<String>)
    ensures
        crate::text::opt_view(r) == trimmed_of(*text),
{
    match text {
        Some(t) => Some(trim(t.as_str())),
        None => None,
    }
}

/// The governor file of the CPU `i`.
pub fn governor_file(i: usize) -> (r: String)
    ensures
        r@ == "/sys/devices/system/cpu/cpu"@ + crate::number::decimal_of(i as nat)
            + "/cpufreq/scaling_governor"@,
{
    let mut s = "/sys/devices/system/cpu/cpu".to_owned();
    s.append(decimal(i as u64).as_str());
    s.append("/cpufreq/scaling_governor");
    s
}

/// Whether every reading is there and says `g`, and there is one at least.
pub open spec fn all_say(readings: Seq<Option<String>>, g: Seq<char>) -> bool {
    &&& readings.len() > 0
    &&& forall|i: int|
        0 <= i < readings.len() ==> trimmed_of(#[trigger] readings[i]) == Some(g)
}

/// The governor that every CPU is on, or None if they differ or one cannot be
/// read. The first CPU alone would miss a machine where one core was left on
/// `powersave`.
pub fn uniform_governor(readings: &Vec<Option<String>>) -> (r: Option<String>)
    ensures
        match r {
            Some(g) => all_say(readings@, g@),
            None => forall|g: Seq<char>| !#[trigger] all_say(readings@, g),
        },
{
    if readings.len() == 0 {
        return None;
    }
    let first = match read_trimmed(&readings[0]) {
        None => {
            assert(trimmed_of(readings@[0]) is None);
            return None;
        },
        Some(g) => g,
    };
    let mut i: usize = 1;
    while i < readings.len()
        invariant
            1 <= i <= readings@.len(),
            trimmed_of(readings@[0]) == Some(first@),
            forall|k: int|
                0 <= k < i ==> trimmed_of(#[trigger] readings@[k]) == Some(first@),
        decreases readings@.len() - i,
    {
        match read_trimmed(&readings[i]) {
            None => {
                assert(trimmed_of(readings@[i as int]) is None);
                return None;
            },
            Some(g) => {
                if !same(g.as_str(), first.as_str()) {
                    proof {
                        assert forall|x: Seq<char>| !#[trigger] all_say(readings@, x) by {
                            if all_say(readings@, x) {
                                assert(trimmed_of(readings@[0]) == Some(x));
                                assert(trimmed_of(readings@[i as int]) == Some(x));
                            }
                        }
                    }
                    return None;
                }
            },
        }
        i += 1;
    }
    Some(first)
}

/// Turbo across the two kernel interfaces that expose it. `no_turbo` inverts
/// the sense: one means that turbo is off.
pub open spec fn turbo_of(no_turbo: Option<String>, boost: Option<String>) -> Option<bool> {
    match trimmed_of(no_turbo) {
        Some(v) => Some(v != "1"@),
        None => match trimmed_of(boost) {
            Some(v) => Some(v == "1"@),
            None => None,
        },
    }
}

/// Turbo across the two kernel interfaces that expose it.
pub fn turbo_enabled(no_turbo: &Option<String>, boost: &Option<String>) -> (r: Option<bool>)
    ensures
        r == turbo_of(*no_turbo, *boost),
{
    if let Some(v) = read_trimmed(no_turbo) {
        return Some(!same(v.as_str(), "1"));
    }
    if let Some(v) = read_trimmed(boost) {
        return Some(same(v.as_str(), "1"));
    }
    None
}

/// The reason that the governor gives against a run, if any.
pub open spec fn governor_reason(governor: Option<Seq<char>>) -> Seq<Seq<char>> {
    match governor {
        Some(g) => if g == "performance"@ {
            Seq::empty()
        } else {
            seq!["cpufreq governor is "@ + g + ", not performance"@]
        },
        None => seq!["cpufreq governor is not uniform or not readable"@],
    }
}

/// The reason that the turbo state gives against a run, if any.
pub open spec fn turbo_reason(turbo: Option<bool>) -> Seq<Seq<char>> {
    match turbo {
        Some(on) => if on {
            seq!["turbo/boost is enabled, so clocks are not pinned"@]
        } else {
            Seq::empty()
        },
        None => seq!["turbo/boost state is not readable"@],
    }
}

/// Why a run on such a machine is no comparison, in the reader's words.
pub open spec fn reasons_of(
    guest: bool,
    governor: Option<Seq<char>>,
    turbo: Option<bool>,
    root: bool,
) -> Seq<Seq<char>> {
    (if guest {
        seq!["runs in a VM, so frequency and neighbours are not controlled"@]
    } else {
        Seq::empty()
    }) + governor_reason(governor) + turbo_reason(turbo) + (if !root {
        seq!["not run as root, so cgroup pinning and perf counters are absent"@]
    } else {
        Seq::empty()
    })
}

/// The summary of the reasons.
pub open spec fn note_of(reasons: Seq<Seq<char>>) -> Seq<char> {
    if reasons.len() == 0 {
        "bare metal, performance governor, turbo disabled, run as root"@
    } else {
        "not admissible: "@ + crate::text::joined(reasons, "; "@)
    }
}

fn reasons(guest: bool, governor: &Option<String>, turbo: Option<bool>, root: bool) -> (r: Vec<
    String,
>)
    ensures
        crate::text::views(r@) == reasons_of(guest, crate::text::opt_view(*governor), turbo, root),
{
    let mut out: Vec<String> = Vec::new();
    let ghost g = crate::text::opt_view(*governor);
    assert(crate::text::views(out@) =~= Seq::empty());
    if guest {
        push_text(&mut out, "runs in a VM, so frequency and neighbours are not controlled");
    }
    let ghost front = crate::text::views(out@);
    match governor {
        Some(g) => {
            if !same(g.as_str(), "performance") {
                let mut s = "cpufreq governor is ".to_owned();
                s.append(g.as_str());
                s.append(", not performance");
                push_string(&mut out, s);
            }
        },
        None => {
            push_text(&mut out, "cpufreq governor is not uniform or not readable");
        },
    }
    assert(crate::text::views(out@) =~= front + governor_reason(g));
    match turbo {
        Some(on) => {
            if on {
                push_text(&mut out, "turbo/boost is enabled, so clocks are not pinned");
            }
        },
        None => {
            push_text(&mut out, "turbo/boost state is not readable");
        },
    }
    assert(crate::text::views(out@) =~= front + governor_reason(g) + turbo_reason(turbo));
    if !root {
        push_text(&mut out, "not run as root, so cgroup pinning and perf counters are absent");
    }
    assert(crate::text::views(out@) =~= reasons_of(guest, g, turbo, root));
    out
}

impl Host {
    /// The machine that the facts describe. Every field degrades to a neutral
    /// value rather than failing: a host that hides `cpufreq` still records
    /// what could be seen, and says that the rest is unknown.
    pub fn probe(facts: &HostFacts) -> (h: Host)
        ensures
            h.cpu@ == (match value_after(chars_or_none(facts.cpuinfo), "model name"@) {
                Some(v) => v,
                None => "unknown CPU"@,
            }),
            h.cpu_count == cpu_count_of(chars_or_none(facts.cpuinfo)),
            h.kernel@ == (match trimmed_of(facts.osrelease) {
                Some(v) => v,
                None => "unknown"@,
            }),
            h.memory_total_kb == memory_of(chars_or_none(facts.meminfo)),
            match h.governor {
                Some(g) => all_say(facts.governors@, g@),
                None => forall|g: Seq<char>| !#[trigger] all_say(facts.governors@, g),
            },
            h.turbo == turbo_of(facts.no_turbo, facts.boost),
            h.virtualized == is_guest(chars_or_none(facts.cpuinfo)),
            h.root == (facts.euid == 0),
            crate::text::views(h.inadmissible_reasons@) == reasons_of(
                h.virtualized,
                crate::text::opt_view(h.governor),
                h.turbo,
                h.root,
            ),
            h.admissible == (h.inadmissible_reasons@.len() == 0),
            h.admissible == (!h.virtualized && crate::text::opt_view(h.governor) == Some(
                "performance"@,
            ) && h.turbo == Some(false) && h.root),
            h.note@ == note_of(crate::text::views(h.inadmissible_reasons@)),
    {
        let cpuinfo: String = match copied(&facts.cpuinfo) {
            Some(t) => t,
            None => String::new(),
        };
        let meminfo: String = match copied(&facts.meminfo) {
            Some(t) => t,
            None => String::new(),
        };
        assert(cpuinfo@ =~= chars_or_none(facts.cpuinfo));
        assert(meminfo@ =~= chars_or_none(facts.meminfo));
        let cpu: String = match first_line_after(cpuinfo.as_str(), "model name") {
            Some(v) => v,
            None => "unknown CPU".to_owned(),
        };
        let kernel: String = match read_trimmed(&facts.osrelease) {
            Some(v) => v,
            None => "unknown".to_owned(),
        };
        let guest: bool = virtualized(cpuinfo.as_str());
        let governor = uniform_governor(&facts.governors);
        let turbo = turbo_enabled(&facts.no_turbo, &facts.boost);
        let root: bool = facts.euid == 0;
        let why = reasons(guest, &governor, turbo, root);
        proof {
            law_admissible(guest, crate::text::opt_view(governor), turbo, root);
            assert(crate::text::views(why@).len() == why@.len());
        }
        let note: String = if why.len() == 0 {
            "bare metal, performance governor, turbo disabled, run as root".to_owned()
        } else {
            let mut s = "not admissible: ".to_owned();
            s.append(join(&why, "; ").as_str());
            s
        };
        Host {
            cpu,
            cpu_count: cpu_count(cpuinfo.as_str()),
            kernel,
            memory_total_kb: memory_total_kb(meminfo.as_str()),
            governor,
            turbo,
            virtualized: guest,
            root,
            admissible: why.len() == 0,
            inadmissible_reasons: why,
            note,
        }
    }
}

/// No reason speaks against a run exactly on bare metal, with the performance
/// governor on every CPU and turbo disabled, as root.
pub proof fn law_admissible(
    guest: bool,
    governor: Option<Seq<char>>,
    turbo: Option<bool>,
    root: bool,
)
    ensures
        (reasons_of(guest, governor, turbo, root).len() == 0) <==> (!guest && governor == Some(
            "performance"@,
        ) && turbo == Some(false) && root),
{
}

/// Each reason on a line of its own, as an item of a list.
pub open spec fn itemised(reasons: Seq<Seq<char>>) -> Seq<char>
    decreases reasons.len(),
{
    if reasons.len() == 0 {
        Seq::empty()
    } else {
        itemised(reasons.drop_last()) + "  - "@ + reasons.last() + "\n"@
    }
}

/// Why a designated benchmark host may not start a run.
pub open spec fn refusal_of(reasons: Seq<Seq<char>>) -> Seq<char> {
    "ZMQ_ARENA_BENCH_HOST is set, so this machine is the designated benchmark\nhost, but it does not meet the conditions for one:\n"@
        + itemised(reasons)
        + "\nFix the host, or unset the variable to run it as an ordinary dev machine\n(results are then recorded as not admissible)."@
}

/// Admission of a run on this host. On a designated benchmark host
/// (`enforced`) a run does not start unless the host is admissible, and what is
/// wrong is itemised. A machine that is no such host always runs.
pub fn bench_gate(enforced: bool, host: &Host) -> (r: Result<(), String>)
    ensures
        match r {
            Ok(_) => !enforced || host.admissible,
            Err(e) => enforced && !host.admissible && e@ == refusal_of(
                crate::text::views(host.inadmissible_reasons@),
            ),
        },
{
    if !enforced || host.admissible {
        return Ok(());
    }
    let mut list = String::new();
    let ghost all = crate::text::views(host.inadmissible_reasons@);
    let mut i: usize = 0;
    assert(all.take(0) =~= Seq::empty());
    assert(list@ =~= itemised(all.take(0)));
    while i < host.inadmissible_reasons.len()
        invariant
            i <= all.len(),
            all == crate::text::views(host.inadmissible_reasons@),
            list@ == itemised(all.take(i as int)),
        decreases all.len() - i,
    {
        list.append("  - ");
        list.append(host.inadmissible_reasons[i].as_str());
        list.append("\n");
        assert(all.take(i + 1).drop_last() =~= all.take(i as int));
        assert(all.take(i + 1).last() == host.inadmissible_reasons@[i as int]@);
        i += 1;
    }
    assert(all.take(all.len() as int) =~= all);
    let mut s =
        "ZMQ_ARENA_BENCH_HOST is set, so this machine is the designated benchmark\nhost, but it does not meet the conditions for one:\n".to_owned();
    s.append(list.as_str());
    s.append(
        "\nFix the host, or unset the variable to run it as an ordinary dev machine\n(results are then recorded as not admissible).",
    );
    Err(s)
}

/// What a key says is what stands behind the colon of the first line that begins
/// with it, whatever white space is around it.
pub proof fn law_value_is_behind_the_colon(
    text: Seq<char>,
    key: Seq<char>,
    i: int,
    front: Seq<char>,
    gap: Seq<char>,
    value: Seq<char>,
)
    requires
        0 <= i < crate::text::lines_of(text).len(),
        crate::text::lines_of(text)[i] == front + seq![':'] + gap + value,
        !front.contains(':'),
        crate::text::begins(front, key),
        forall|j: int|
            0 <= j < i ==> !crate::text::begins(
                #[trigger] crate::text::lines_of(text)[j],
                key,
            ),
        forall|k: int| 0 <= k < gap.len() ==> crate::text::is_space(#[trigger] gap[k]),
        value.len() > 0,
        !crate::text::is_space(value[0]),
        !crate::text::is_space(value.last()),
    ensures
        value_after(text, key) == Some(value),
{
    let all = crate::text::lines_of(text);
    let line = all[i];
    let rest = gap + value;
    assert(line =~= front + seq![':'] + rest);
    assert(line.subrange(0, key.len() as int) =~= front.subrange(0, key.len() as int));
    crate::text_laws::law_first_beginning_is_first(all, key, 0, i);
    crate::text_laws::law_split_undoes_joining(front, ':', rest);
    let none = Seq::<char>::empty();
    assert(gap + value + none =~= rest);
    crate::text_laws::law_trimming_undoes_padding(gap, value, none);
}

/// A key that no line begins with says nothing.
pub proof fn law_missing_key_says_nothing(text: Seq<char>, key: Seq<char>)
    requires
        forall|j: int|
            0 <= j < crate::text::lines_of(text).len() ==> !crate::text::begins(
                #[trigger] crate::text::lines_of(text)[j],
                key,
            ),
    ensures
        value_after(text, key) is None,
{
    let all = crate::text::lines_of(text);
    crate::text_laws::law_first_beginning_is_first(all, key, 0, all.len() as int);
}

/// The memory is the number of the line for it, in kibibytes as it stands there.
pub proof fn law_memory_is_the_number(meminfo: Seq<char>, i: int, gap: Seq<char>, n: nat)
    requires
        0 <= i < crate::text::lines_of(meminfo).len(),
        crate::text::lines_of(meminfo)[i] == "MemTotal"@ + seq![':'] + gap + (
        crate::number::decimal_of(n) + " kB"@),
        forall|j: int|
            0 <= j < i ==> !crate::text::begins(
                #[trigger] crate::text::lines_of(meminfo)[j],
                "MemTotal"@,
            ),
        forall|k: int| 0 <= k < gap.len() ==> crate::text::is_space(#[trigger] gap[k]),
        n <= u64::MAX,
    ensures
        memory_of(meminfo) == n,
{
    reveal_strlit("MemTotal");
    reveal_strlit(" kB");
    let d = crate::number::decimal_of(n);
    let value = d + " kB"@;
    crate::number::lemma_decimal_digits(n);
    assert(crate::number::is_digit(d[0]));
    assert("MemTotal"@.subrange(0, 8) =~= "MemTotal"@);
    law_value_is_behind_the_colon(meminfo, "MemTotal"@, i, "MemTotal"@, gap, value);
    crate::report::law_amount_is_two_words(n);
    crate::number::law_decimal_reads_back(n);
}

/// Each line that begins with a text counts once, wherever it stands.
pub proof fn law_count_beginning_adds_up(a: Seq<Seq<char>>, b: Seq<Seq<char>>, p: Seq<char>)
    ensures
        count_beginning(a + b, p) == count_beginning(a, p) + count_beginning(b, p),
    decreases b.len(),
{
    if b.len() == 0 {
        assert(a + b =~= a);
    } else {
        law_count_beginning_adds_up(a, b.drop_last(), p);
        assert((a + b).drop_last() =~= a + b.drop_last());
    }
}

/// A machine has as many CPUs as there are lines for one: a line more of them is
/// a CPU more, any other line makes no difference, and there is one at least.
pub proof fn law_cpus_are_the_processor_lines(cpuinfo: Seq<char>, line: Seq<char>)
    requires
        !line.contains('\n'),
        line.len() > 0,
        line.last() != '\r',
    ensures
        ({
            let n = count_beginning(crate::text::lines_of(cpuinfo), "processor"@);
            let more = line + seq!['\n'] + cpuinfo;
            &&& cpu_count_of(cpuinfo) == (if n == 0 {
                1
            } else {
                n
            })
            &&& crate::text::begins(line, "processor"@) ==> cpu_count_of(more) == n + 1
            &&& !crate::text::begins(line, "processor"@) ==> cpu_count_of(more) == cpu_count_of(
                cpuinfo,
            )
        }),
{
    crate::text_laws::law_lines_are_what_is_between(line, cpuinfo);
    let rest = crate::text::lines_of(cpuinfo);
    law_count_beginning_adds_up(seq![line], rest, "processor"@);
    assert(seq![line].drop_last() =~= Seq::empty());
    assert(seq![line].last() == line);
    assert(count_beginning(Seq::empty(), "processor"@) == 0);
}

/// A machine is a guest exactly where a line of flags names the hypervisor's.
pub proof fn law_guest_has_the_flag(cpuinfo: Seq<char>, line: Seq<char>)
    requires
        !line.contains('\n'),
        line.len() > 0,
        line.last() != '\r',
    ensures
        is_guest(line + seq!['\n'] + cpuinfo) <==> is_guest(cpuinfo) || (crate::text::begins(
            line,
            "flags"@,
        ) && crate::text::holds(line, " hypervisor"@)),
        !is_guest(Seq::empty()),
{
    crate::text_laws::law_lines_are_what_is_between(line, cpuinfo);
    let rest = crate::text::lines_of(cpuinfo);
    let all = crate::text::lines_of(line + seq!['\n'] + cpuinfo);
    assert(all == seq![line] + rest);
    if is_guest(cpuinfo) {
        let i = choose|i: int| 0 <= i < rest.len() && guest_line(#[trigger] rest[i]);
        assert(all[i + 1] == rest[i]);
    }
    if guest_line(line) {
        assert(all[0] == line);
    }
    if is_guest(line + seq!['\n'] + cpuinfo) {
        let i = choose|i: int| 0 <= i < all.len() && guest_line(#[trigger] all[i]);
        if i > 0 {
            assert(rest[i - 1] == all[i]);
        }
    }
}

/// The two knobs for turbo mean the opposite: what the one calls on the other
/// calls off. The first decides alone where it is there, and without either
/// nothing is known.
pub proof fn law_turbo_knobs_are_opposite(text: String, other: Option<String>)
    ensures
        turbo_of(Some(text), other) == turbo_of(Some(text), None),
        turbo_of(Some(text), other) is Some,
        turbo_of(None, Some(text)) is Some,
        turbo_of(Some(text), other)->0 != turbo_of(None, Some(text))->0,
        crate::text::trimmed(text@) == "1"@ ==> turbo_of(Some(text), other) == Some(false),
        crate::text::trimmed(text@) != "1"@ ==> turbo_of(Some(text), other) == Some(true),
        turbo_of(None, None) is None,
{
}

/// Each thing that is wrong with a machine gives one reason, and none hides
/// another: there are as many reasons as things wrong.
pub proof fn law_every_fault_has_its_reason(
    guest: bool,
    governor: Option<Seq<char>>,
    turbo: Option<bool>,
    root: bool,
)
    ensures
        reasons_of(guest, governor, turbo, root).len() == (if guest {
            1int
        } else {
            0
        }) + (if governor == Some("performance"@) {
            0int
        } else {
            1
        }) + (if turbo == Some(false) {
            0int
        } else {
            1
        }) + (if root {
            0int
        } else {
            1
        }),
{
}

/// The list of reasons is the reasons, each on a line of its own behind a dash.
pub proof fn law_reasons_are_listed(reasons: Seq<Seq<char>>, more: Seq<char>)
    ensures
        itemised(reasons.push(more)) == itemised(reasons) + "  - "@ + more + "\n"@,
        itemised(Seq::empty()).len() == 0,
{
    assert(reasons.push(more).drop_last() =~= reasons);
}

/// The governor of a machine is one that every CPU is on: a machine with a CPU
/// that is on another one, or that cannot be read, has none, and nor has one
/// without a CPU.
pub proof fn law_governor_is_on_every_cpu(readings: Seq<Option<String>>, g: Seq<char>, i: int)
    requires
        0 <= i < readings.len(),
        all_say(readings, g),
    ensures
        readings[i] is Some,
        crate::text::trimmed(readings[i]->0@) == g,
        !all_say(readings.push(None), g),
        forall|other: String|
            crate::text::trimmed(other@) != g ==> !all_say(
                #[trigger] readings.push(Some(other)),
                g,
            ),
        !all_say(Seq::empty(), g),
{
    assert(trimmed_of(readings[i]) == Some(g));
    let a = readings.push(None);
    assert(a[a.len() - 1] is None);
    assert forall|other: String| crate::text::trimmed(other@) != g implies !all_say(
        #[trigger] readings.push(Some(other)),
        g,
    ) by {
        let b = readings.push(Some(other));
        assert(b[b.len() - 1] == Some(other));
    }
}

/// The note of a machine says that it is not admissible exactly where there is a
/// reason, and gives them all.
pub proof fn law_note_gives_the_reasons(reasons: Seq<Seq<char>>)
    requires
        reasons.len() > 0,
    ensures
        crate::text::begins(note_of(reasons), "not admissible: "@),
        crate::text::ends(note_of(reasons), crate::text::joined(reasons, "; "@)),
        note_of(Seq::empty()) == "bare metal, performance governor, turbo disabled, run as root"@,
{
    crate::text_laws::law_parts_are_found(
        "not admissible: "@,
        crate::text::joined(reasons, "; "@),
        Seq::empty(),
    );
}

/// The reasons come in a fixed order, and each says what is wrong: that the
/// machine is a guest is the first of them, and that the run is not root's the
/// last; what the governor is stands between them, and then the turbo state.
pub proof fn law_reasons_say_what_is_wrong(
    guest: bool,
    governor: Option<Seq<char>>,
    turbo: Option<bool>,
    root: bool,
)
    ensures
        ({
            let all = reasons_of(guest, governor, turbo, root);
            let first: int = if guest {
                1
            } else {
                0
            };
            let second: int = if governor == Some("performance"@) {
                first
            } else {
                first + 1
            };
            &&& guest ==> all[0] == "runs in a VM, so frequency and neighbours are not controlled"@
            &&& governor is Some && governor->0 != "performance"@ ==> all[first]
                == "cpufreq governor is "@ + governor->0 + ", not performance"@
            &&& governor is None ==> all[first] == "cpufreq governor is not uniform or not readable"@
            &&& turbo == Some(true) ==> all[second]
                == "turbo/boost is enabled, so clocks are not pinned"@
            &&& turbo is None ==> all[second] == "turbo/boost state is not readable"@
            &&& !root ==> all.last()
                == "not run as root, so cgroup pinning and perf counters are absent"@
        }),
{
}

/// A text that states no memory is taken for none.
pub proof fn law_unstated_memory_is_zero(meminfo: Seq<char>)
    requires
        forall|j: int|
            0 <= j < crate::text::lines_of(meminfo).len() ==> !crate::text::begins(
                #[trigger] crate::text::lines_of(meminfo)[j],
                "MemTotal"@,
            ),
    ensures
        memory_of(meminfo) == 0,
{
    law_missing_key_says_nothing(meminfo, "MemTotal"@);
}

/// What is read from a file is its text without the white space around it, and
/// nothing where it could not be read.
pub proof fn law_files_are_read_trimmed(text: String, a: Seq<char>, value: Seq<char>, b: Seq<char>)
    requires
        text@ == a + value + b,
        forall|i: int| 0 <= i < a.len() ==> crate::text::is_space(#[trigger] a[i]),
        forall|i: int| 0 <= i < b.len() ==> crate::text::is_space(#[trigger] b[i]),
        value.len() > 0,
        !crate::text::is_space(value[0]),
        !crate::text::is_space(value.last()),
    ensures
        trimmed_of(Some(text)) == Some(value),
        trimmed_of(None) is None,
{
    crate::text_laws::law_trimming_undoes_padding(a, value, b);
}

} // verus!
