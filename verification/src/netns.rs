//! Per-run network namespace for the `tcp_netns` transport.
//!
//! Loopback in the host namespace is shared with everything else on the
//! machine. A namespace of its own gives each run a private loopback. Both
//! peers of a cell must land in the same namespace or they cannot reach each
//! other, so there is one named namespace per run.
//!
//! It needs root and degrades without it: the cells then run on host loopback.
use vstd::prelude::*;
use crate::text::{chars_of, push_text, trim};

verus! {

/// Whether `c` is an ASCII letter or digit.
pub open spec fn is_alphanumeric(c: char) -> bool {
    ('a' <= c <= 'z') || ('A' <= c <= 'Z') || ('0' <= c <= '9')
}

/// `c`, or a hyphen where it could surprise the file system.
pub open spec fn safe_char(c: char) -> char {
    if is_alphanumeric(c) {
        c
    } else {
        '-'
    }
}

/// The name of a run's namespace.
pub open spec fn name_of(run_id: Seq<char>) -> Seq<char> {
    "zmqarena-"@ + run_id.map_values(|c: char| safe_char(c))
}

/// The name of a run's namespace. Such names are file names, so they are kept
/// to letters, digits and hyphens.
pub fn namespace_name(run_id: &str) -> (r: String)
    ensures
        r@ == name_of(run_id@),
{
    let x = chars_of(run_id);
    let mut safe = String::new();
    let mut i: usize = 0;
    let ghost all = run_id@.map_values(|c: char| safe_char(c));
    while i < x.len()
        invariant
            i <= x@.len(),
            x@ == run_id@,
            all == run_id@.map_values(|c: char| safe_char(c)),
            safe@ == all.take(i as int),
        decreases x@.len() - i,
    {
        let c: char = x[i];
        let plain: bool = ('a' <= c && c <= 'z') || ('A' <= c && c <= 'Z') || ('0' <= c && c
            <= '9');
        safe.push(if plain {
            c
        } else {
            '-'
        });
        assert(all.take(i + 1) =~= all.take(i as int).push(all[i as int]));
        i += 1;
    }
    assert(all.take(all.len() as int) =~= all);
    let mut s = "zmqarena-".to_owned();
    s.append(safe.as_str());
    s
}

/// What a run of the `ip` command came to.
pub enum IpOutcome {
    /// It could not be started, with the reason.
    NotRun(String),
    /// It succeeded.
    Success,
    /// It failed, with what it wrote to standard error.
    Failure(String),
}

/// Why a run of the `ip` command is no success.
pub open spec fn failure_of(o: IpOutcome) -> Option<Seq<char>> {
    match o {
        IpOutcome::NotRun(e) => Some("running ip: "@ + e@),
        IpOutcome::Success => None,
        IpOutcome::Failure(stderr) => Some(crate::text::trimmed(stderr@)),
    }
}

/// What an `ip` subcommand came to, with its standard error on failure, so that
/// the caller can explain why the namespace is unavailable.
pub fn ip(outcome: &IpOutcome) -> (r: Result<(), String>)
    ensures
        match r {
            Ok(_) => failure_of(*outcome) is None,
            Err(e) => failure_of(*outcome) == Some(e@),
        },
{
    match outcome {
        IpOutcome::NotRun(e) => {
            let mut s = "running ip: ".to_owned();
            s.append(e.as_str());
            Err(s)
        },
        IpOutcome::Success => Ok(()),
        IpOutcome::Failure(stderr) => Err(trim(stderr.as_str())),
    }
}

/// A named network namespace.
pub struct NetNs {
    pub name: String,
}

/// How far the setup of a namespace is.
#[derive(Clone, Copy, Debug, PartialEq, Eq, Structural)]
pub enum Setup {
    /// A leftover of a killed run is to be removed.
    Clearing,
    /// The namespace is to be added.
    Adding,
    /// Its loopback, which a fresh namespace has down, is to be brought up.
    RaisingLoopback,
    /// The loopback stayed down and the namespace is to be removed again.
    Undoing,
}

/// The arguments of the `ip` subcommand that a stage of the setup runs.
pub open spec fn setup_args_of(stage: Setup, name: Seq<char>) -> Seq<Seq<char>> {
    match stage {
        Setup::Clearing => seq!["netns"@, "del"@, name],
        Setup::Adding => seq!["netns"@, "add"@, name],
        Setup::RaisingLoopback => seq![
            "netns"@,
            "exec"@,
            name,
            "ip"@,
            "link"@,
            "set"@,
            "lo"@,
            "up"@,
        ],
        Setup::Undoing => seq!["netns"@, "del"@, name],
    }
}

/// The arguments of the `ip` subcommand that a stage of the setup runs.
pub fn setup_args(stage: Setup, name: &str) -> (r: Vec<String>)
    ensures
        crate::text::views(r@) == setup_args_of(stage, name@),
{
    let mut a: Vec<String> = Vec::new();
    push_text(&mut a, "netns");
    match stage {
        Setup::Clearing => {
            push_text(&mut a, "del");
            push_text(&mut a, name);
        },
        Setup::Adding => {
            push_text(&mut a, "add");
            push_text(&mut a, name);
        },
        Setup::RaisingLoopback => {
            push_text(&mut a, "exec");
            push_text(&mut a, name);
            push_text(&mut a, "ip");
            push_text(&mut a, "link");
            push_text(&mut a, "set");
            push_text(&mut a, "lo");
            push_text(&mut a, "up");
        },
        Setup::Undoing => {
            push_text(&mut a, "del");
            push_text(&mut a, name);
        },
    }
    assert(crate::text::views(a@) =~= setup_args_of(stage, name@));
    a
}

/// A setup under way.
pub struct Creation {
    pub name: String,
    pub stage: Setup,
    /// Why the loopback stayed down, once it did.
    pub cause: String,
}

/// What follows a stage of the setup.
pub enum Progress {
    /// The next stage is to run.
    Continue(Creation),
    /// The namespace is ready.
    Ready(NetNs),
    /// There is none, for this reason.
    Failed(String),
}

/// A setup under way, over characters.
#[verifier::ext_equal]
pub struct CreationView {
    pub name: Seq<char>,
    pub stage: Setup,
    pub cause: Seq<char>,
}

/// What follows a stage of the setup, over characters.
#[verifier::ext_equal]
pub enum ProgressView {
    Continue(CreationView),
    Ready(Seq<char>),
    Failed(Seq<char>),
}

impl View for Creation {
    type V = CreationView;

    open spec fn view(&self) -> CreationView {
        CreationView { name: self.name@, stage: self.stage, cause: self.cause@ }
    }
}

impl View for Progress {
    type V = ProgressView;

    open spec fn view(&self) -> ProgressView {
        match *self {
            Progress::Continue(c) => ProgressView::Continue(c@),
            Progress::Ready(ns) => ProgressView::Ready(ns.name@),
            Progress::Failed(e) => ProgressView::Failed(e@),
        }
    }
}

/// The begin of a setup.
pub open spec fn first_stage(name: Seq<char>) -> CreationView {
    CreationView { name, stage: Setup::Clearing, cause: Seq::empty() }
}

/// What follows a stage of the setup whose command failed for this reason, or
/// did not fail.
pub open spec fn next_stage(c: CreationView, failure: Option<Seq<char>>) -> ProgressView {
    match c.stage {
        Setup::Clearing => ProgressView::Continue(CreationView { stage: Setup::Adding, ..c }),
        Setup::Adding => match failure {
            None => ProgressView::Continue(CreationView { stage: Setup::RaisingLoopback, ..c }),
            Some(e) => ProgressView::Failed(e),
        },
        Setup::RaisingLoopback => match failure {
            None => ProgressView::Ready(c.name),
            Some(e) => ProgressView::Continue(
                CreationView { stage: Setup::Undoing, cause: e, ..c },
            ),
        },
        Setup::Undoing => ProgressView::Failed("bringing lo up: "@ + c.cause),
    }
}

impl NetNs {
    /// Begins the setup of a run's namespace: a leftover from a killed run is
    /// removed first, since it would make the addition fail.
    pub fn create(run_id: &str) -> (r: Creation)
        ensures
            r@ == first_stage(name_of(run_id@)),
    {
        Creation {
            name: namespace_name(run_id),
            stage: Setup::Clearing,
            cause: String::new(),
        }
    }

    /// Goes on with the setup, given what the current stage's command came to.
    ///
    /// Whether the leftover could be removed is of no account. A fresh
    /// namespace has its loopback down, so that a target could not bind inside
    /// it: without the loopback the namespace is removed again.
    pub fn advance(c: Creation, outcome: &IpOutcome) -> (r: Progress)
        ensures
            r@ == next_stage(c@, failure_of(*outcome)),
    {
        match c.stage {
            Setup::Clearing => Progress::Continue(
                Creation { name: c.name, stage: Setup::Adding, cause: c.cause },
            ),
            Setup::Adding => match ip(outcome) {
                Ok(_) => Progress::Continue(
                    Creation { name: c.name, stage: Setup::RaisingLoopback, cause: c.cause },
                ),
                Err(e) => Progress::Failed(e),
            },
            Setup::RaisingLoopback => match ip(outcome) {
                Ok(_) => Progress::Ready(NetNs { name: c.name }),
                Err(e) => Progress::Continue(
                    Creation { name: c.name, stage: Setup::Undoing, cause: e },
                ),
            },
            Setup::Undoing => {
                let mut s = "bringing lo up: ".to_owned();
                s.append(c.cause.as_str());
                Progress::Failed(s)
            },
        }
    }

    /// The arguments with which `ip` runs `binary` inside the namespace.
    pub fn command(&self, binary: &str) -> (r: Vec<String>)
        ensures
            crate::text::views(r@) == seq!["netns"@, "exec"@, self.name@, binary@],
    {
        let mut a: Vec<String> = Vec::new();
        push_text(&mut a, "netns");
        push_text(&mut a, "exec");
        push_text(&mut a, self.name.as_str());
        push_text(&mut a, binary);
        assert(crate::text::views(a@) =~= seq!["netns"@, "exec"@, self.name@, binary@]);
        a
    }

    /// The arguments with which `ip` removes the namespace. It is a persistent
    /// kernel object: one left behind outlives the process that made it.
    pub fn removal(&self) -> (r: Vec<String>)
        ensures
            crate::text::views(r@) == seq!["netns"@, "del"@, self.name@],
    {
        let mut a: Vec<String> = Vec::new();
        push_text(&mut a, "netns");
        push_text(&mut a, "del");
        push_text(&mut a, self.name.as_str());
        assert(crate::text::views(a@) =~= seq!["netns"@, "del"@, self.name@]);
        a
    }

    pub fn name(&self) -> (r: &str)
        ensures
            r@ == self.name@,
    {
        self.name.as_str()
    }
}

/// A namespace's name is made of ASCII letters, digits and hyphens alone,
/// whatever the run is called.
pub proof fn law_name_is_safe(run_id: Seq<char>)
    ensures
        forall|i: int|
            0 <= i < name_of(run_id).len() ==> is_alphanumeric(#[trigger] name_of(run_id)[i])
                || name_of(run_id)[i] == '-',
{
    reveal_strlit("zmqarena-");
    assert forall|i: int| 0 <= i < name_of(run_id).len() implies is_alphanumeric(
        #[trigger] name_of(run_id)[i],
    ) || name_of(run_id)[i] == '-' by {
        if i >= 9 {
            assert(name_of(run_id)[i] == safe_char(run_id[i - 9]));
        }
    }
}

/// The commands that a setup from `c` on runs, given why each of them fails, if
/// it does, and what the setup comes to.
pub open spec fn setup_from(c: CreationView, failures: spec_fn(Setup) -> Option<Seq<char>>) -> (
    Seq<Seq<Seq<char>>>,
    ProgressView,
)
    decreases
        (match c.stage {
            Setup::Clearing => 3nat,
            Setup::Adding => 2,
            Setup::RaisingLoopback => 1,
            Setup::Undoing => 0,
        }),
{
    let first = setup_args_of(c.stage, c.name);
    match next_stage(c, failures(c.stage)) {
        ProgressView::Continue(n) => {
            let (rest, end) = setup_from(n, failures);
            (seq![first] + rest, end)
        },
        end => (seq![first], end),
    }
}

/// What a whole setup does. A leftover is removed, whether or not there is one,
/// and the namespace is added. Where that fails there is none, and the reason is
/// handed on. Otherwise its loopback is brought up. Where that fails the
/// namespace is removed again, so that none is left behind, and the reason is
/// handed on; else the namespace is ready under its name.
pub proof fn law_setup(name: Seq<char>, failures: spec_fn(Setup) -> Option<Seq<char>>)
    ensures
        setup_from(first_stage(name), failures) == ({
            let del = seq!["netns"@, "del"@, name];
            let add = seq!["netns"@, "add"@, name];
            let up = seq![
                "netns"@,
                "exec"@,
                name,
                "ip"@,
                "link"@,
                "set"@,
                "lo"@,
                "up"@,
            ];
            match failures(Setup::Adding) {
                Some(e) => (seq![del, add], ProgressView::Failed(e)),
                None => match failures(Setup::RaisingLoopback) {
                    Some(e) => (
                        seq![del, add, up, del],
                        ProgressView::Failed("bringing lo up: "@ + e),
                    ),
                    None => (seq![del, add, up], ProgressView::Ready(name)),
                },
            }
        }),
{
    reveal_with_fuel(setup_from, 5);
    let (commands, end) = setup_from(first_stage(name), failures);
    let del = setup_args_of(Setup::Clearing, name);
    let add = setup_args_of(Setup::Adding, name);
    let up = setup_args_of(Setup::RaisingLoopback, name);
    match failures(Setup::Adding) {
        Some(e) => {
            assert(commands =~= seq![del, add]);
        },
        None => match failures(Setup::RaisingLoopback) {
            Some(e) => {
                assert(commands =~= seq![del, add, up, del]);
            },
            None => {
                assert(commands =~= seq![del, add, up]);
            },
        },
    }
}

/// The name of a run's namespace is that of the run behind a prefix, character by
/// character: letters and digits stay, and anything else is a hyphen.
pub proof fn law_name_is_the_runs(run_id: Seq<char>, i: int)
    requires
        0 <= i < run_id.len(),
    ensures
        name_of(run_id).len() == 9 + run_id.len(),
        crate::text::begins(name_of(run_id), "zmqarena-"@),
        name_of(run_id)[9 + i] == run_id[i] <==> run_id[i] == '-' || ('a' <= run_id[i] <= 'z') || (
        'A' <= run_id[i] <= 'Z') || ('0' <= run_id[i] <= '9'),
        name_of(run_id)[9 + i] == run_id[i] || name_of(run_id)[9 + i] == '-',
{
    reveal_strlit("zmqarena-");
    let name = name_of(run_id);
    assert(name[9 + i] == safe_char(run_id[i]));
    assert(name.subrange(0, 9) =~= "zmqarena-"@);
}

/// A command that could not be started and one that failed both fail, with the
/// reason that there is; one that succeeded does not.
pub proof fn law_failures_have_a_reason(o: IpOutcome)
    ensures
        failure_of(o) is None <==> o is Success,
        o matches IpOutcome::Failure(e) ==> failure_of(o) == Some(crate::text::trimmed(e@)),
        o matches IpOutcome::NotRun(e) ==> crate::text::ends(failure_of(o)->0, e@),
{
    if o is NotRun {
        let e = o->NotRun_0@;
        let s = failure_of(o)->0;
        assert(s.subrange(s.len() - e.len(), s.len() as int) =~= e);
    }
}

/// A setup over characters is the setup: its name, how far it is, and the cause
/// that it holds; and what follows a stage is that too.
pub proof fn law_view_keeps_the_setup(c: Creation, p: Progress)
    ensures
        c@.name == c.name@,
        c@.stage == c.stage,
        c@.cause == c.cause@,
        match p {
            Progress::Continue(n) => p@ == ProgressView::Continue(n@),
            Progress::Ready(ns) => p@ == ProgressView::Ready(ns.name@),
            Progress::Failed(e) => p@ == ProgressView::Failed(e@),
        },
{
}

} // verus!
