//! cgroup v2 provisioning for target process isolation.
//!
//! Each target process runs inside its own leaf cgroup under the unified
//! hierarchy. The limits are written to the controller interface files directly,
//! so that they are set before the target's first instruction.
//!
//! Hierarchy: `/sys/fs/cgroup/zmq-arena/<run>/<cell>`. Controllers are enabled
//! down the ancestor chain via `cgroup.subtree_control`; the leaf holds the
//! process and its limits. Only leaves carry tasks, intermediate nodes only
//! delegate controllers.
//!
//! Enabling is best effort per level and idempotent. What is to be done to the
//! file system is returned as a list of steps.
use vstd::prelude::*;
use crate::config::Isolation;
use crate::number::decimal;
use crate::paths::{component_ends, join};
use crate::telemetry::trimmed_number;
use crate::text::{chars_of, or_text, same, string_of};

verus! {

/// The root of the unified hierarchy.
pub open spec fn cgroup_root() -> Seq<char> {
    "/sys/fs/cgroup"@
}

/// What delegates the controllers that the arena needs.
pub open spec fn subtree_enable() -> Seq<char> {
    "+cpuset +memory"@
}

/// One change to the file system.
pub enum Step {
    /// Create a directory unless it exists; a failure ends the provisioning.
    Mkdir(String),
    /// Write a text to a file; a failure ends the provisioning.
    Write(String, String),
    /// Write a text to a file; a failure is of no account.
    TryWrite(String, String),
}

/// One change to the file system, over characters.
pub enum StepView {
    Mkdir(Seq<char>),
    Write(Seq<char>, Seq<char>),
    TryWrite(Seq<char>, Seq<char>),
}

impl View for Step {
    type V = StepView;

    open spec fn view(&self) -> StepView {
        match *self {
            Step::Mkdir(d) => StepView::Mkdir(d@),
            Step::Write(f, t) => StepView::Write(f@, t@),
            Step::TryWrite(f, t) => StepView::TryWrite(f@, t@),
        }
    }
}

/// A list of steps over characters.
pub open spec fn steps_view(steps: Seq<Step>) -> Seq<StepView> {
    steps.map_values(|s: Step| s@)
}

fn push_step(steps: &mut Vec<Step>, s: Step)
    ensures
        steps_view(final(steps)@) == steps_view(old(steps)@).push(s@),
{
    let ghost before = steps@;
    steps.push(s);
    assert(steps_view(steps@) =~= steps_view(before).push(s@));
}

/// A leaf cgroup and the limits of the process in it.
pub struct Cgroup {
    pub path: String,
    pub isolation: Isolation,
}

/// The leaf path of a named cell.
pub open spec fn leaf_path(run_id: Seq<char>, cell_id: Seq<char>) -> Seq<char> {
    crate::paths::joined(
        crate::paths::joined(crate::paths::joined(cgroup_root(), "zmq-arena"@), run_id),
        cell_id,
    )
}

/// Whether the path leads strictly below the root of the hierarchy: it is
/// absolute, its first three components are the root's, and it has more.
pub open spec fn below_root(p: Seq<char>) -> bool {
    &&& p.len() > 0 && p[0] == '/'
    &&& components(p).len() > 3
    &&& components(p).take(3) == components(cgroup_root())
}

/// The components of a path.
pub open spec fn components(p: Seq<char>) -> Seq<Seq<char>> {
    let ends = crate::paths::ends_of(p);
    Seq::new(ends.len(), |k: int| component(p, ends[k]))
}

/// The component of `p` that ends at `e`.
pub open spec fn component(p: Seq<char>, e: int) -> Seq<char> {
    p.subrange(component_start(p, e), e)
}

/// The begin of the component of `p` that ends at `e`: behind the separator
/// before it.
pub open spec fn component_start(p: Seq<char>, e: int) -> int
    decreases e,
{
    if e <= 0 || e > p.len() || p[e - 1] == '/' {
        e
    } else {
        component_start(p, e - 1)
    }
}

/// The step that enables the controllers below the ancestor `dir`.
pub open spec fn enable_step(dir: Seq<char>) -> StepView {
    StepView::TryWrite(
        crate::paths::joined(dir, "cgroup.subtree_control"@),
        subtree_enable(),
    )
}

/// The steps on the ancestors of the leaf `p` whose components end at
/// `ends[2..n]`, from the root down: each one but the root is created, and each
/// one enables the controllers.
pub open spec fn ancestor_steps(p: Seq<char>, ends: Seq<int>, n: int) -> Seq<StepView>
    decreases n,
{
    if n <= 2 {
        Seq::empty()
    } else {
        let dir = p.take(ends[n - 1]);
        ancestor_steps(p, ends, n - 1) + (if n - 1 == 2 {
            seq![enable_step(dir)]
        } else {
            seq![StepView::Mkdir(dir), enable_step(dir)]
        })
    }
}

/// The steps that create the leaf `p` and enable `cpuset` and `memory` on every
/// ancestor between the root and the leaf's parent.
pub open spec fn create_steps(p: Seq<char>) -> Seq<StepView> {
    let ends = crate::paths::ends_of(p);
    ancestor_steps(p, ends, ends.len() - 1).push(StepView::Mkdir(p))
}

fn component_of(p: &Vec<char>, e: usize) -> (r: String)
    requires
        e <= p@.len(),
    ensures
        r@ == component(p@, e as int),
{
    let mut i: usize = e;
    while i > 0 && p[i - 1] != '/'
        invariant
            i <= e <= p@.len(),
            component_start(p@, e as int) == component_start(p@, i as int),
        decreases i,
    {
        i -= 1;
    }
    string_of(p, i, e)
}

impl Cgroup {
    /// The leaf of a named cell, e.g. `/sys/fs/cgroup/zmq-arena/<run>/<cell>`.
    pub fn new(run_id: &str, cell_id: &str, isolation: Isolation) -> (r: Cgroup)
        ensures
            r.path@ == leaf_path(run_id@, cell_id@),
            r.isolation == isolation,
    {
        let arena = join("/sys/fs/cgroup", "zmq-arena");
        let run = join(arena.as_str(), run_id);
        Cgroup { path: join(run.as_str(), cell_id), isolation }
    }

    /// Whether the leaf lies below the root of the hierarchy. A run or cell
    /// name that is itself an absolute path leads elsewhere.
    pub fn is_below_root(&self) -> (r: bool)
        ensures
            r == below_root(self.path@),
    {
        let p = chars_of(self.path.as_str());
        if p.len() == 0 || p[0] != '/' {
            return false;
        }
        let ends = component_ends(&p);
        let ghost e = crate::paths::ends_of(p@);
        assert(crate::paths::positions(ends@) == e);
        if ends.len() <= 3 {
            return false;
        }
        proof {
            lemma_root();
            assert(e[0] == ends@[0] && e[1] == ends@[1] && e[2] == ends@[2]);
        }
        let a = component_of(&p, ends[0]);
        let b = component_of(&p, ends[1]);
        let c = component_of(&p, ends[2]);
        let r: bool = same(a.as_str(), "sys") && same(b.as_str(), "fs") && same(
            c.as_str(),
            "cgroup",
        );
        proof {
            let found = components(p@).take(3);
            assert(found =~= seq![a@, b@, c@]);
            if r {
                assert(found =~= components(cgroup_root()));
            } else if found == components(cgroup_root()) {
                assert(found[0] == "sys"@ && found[1] == "fs"@ && found[2] == "cgroup"@);
            }
        }
        r
    }

    /// The steps that create the leaf and enable `cpuset` and `memory` on every
    /// ancestor, so that the leaf can use them.
    pub fn create(&self) -> (r: Vec<Step>)
        requires
            below_root(self.path@),
        ensures
            steps_view(r@) == create_steps(self.path@),
    {
        let p = chars_of(self.path.as_str());
        let ends = component_ends(&p);
        let ghost e = crate::paths::ends_of(p@);
        let mut steps: Vec<Step> = Vec::new();
        let mut k: usize = 2;
        assert(steps_view(steps@) =~= ancestor_steps(p@, e, 2));
        while k < ends.len() - 1
            invariant
                2 <= k <= ends@.len() - 1,
                crate::paths::positions(ends@) == e,
                forall|i: int| 0 <= i < ends@.len() ==> 0 < #[trigger] ends@[i] <= p@.len(),
                steps_view(steps@) == ancestor_steps(p@, e, k as int),
            decreases ends@.len() - k,
        {
            let ghost before = steps_view(steps@);
            let dir = string_of(&p, 0, ends[k]);
            assert(e[k as int] == ends@[k as int]);
            assert(dir@ =~= p@.take(e[k as int]));
            let file = join(dir.as_str(), "cgroup.subtree_control");
            if k != 2 {
                push_step(&mut steps, Step::Mkdir(dir));
            }
            push_step(&mut steps, Step::TryWrite(file, "+cpuset +memory".to_owned()));
            assert(steps_view(steps@) =~= ancestor_steps(p@, e, k + 1));
            k += 1;
        }
        push_step(&mut steps, Step::Mkdir(self.path.clone()));
        assert(steps_view(steps@) =~= create_steps(self.path@));
        steps
    }

    /// The steps that write the resource limits into the leaf's controller
    /// interface files. `cpuset.mems` must be set for the cpuset controller to
    /// admit tasks.
    pub fn apply_limits(&self) -> (r: Vec<Step>)
        ensures
            steps_view(r@) == limit_steps(self.path@, self.isolation),
            steps_view(r@) == seq![
                StepView::Write(
                    crate::paths::joined(self.path@, "cpuset.cpus"@),
                    self.isolation.cpuset_cpus@,
                ),
                StepView::Write(
                    crate::paths::joined(self.path@, "cpuset.mems"@),
                    crate::text::text_or(self.isolation.cpuset_mems, "0"@),
                ),
                StepView::Write(
                    crate::paths::joined(self.path@, "memory.max"@),
                    crate::number::decimal_of(self.isolation.memory_max_bytes as nat),
                ),
            ],
    {
        let mut steps: Vec<Step> = Vec::new();
        let dir = self.path.as_str();
        push_step(
            &mut steps,
            Step::Write(join(dir, "cpuset.cpus"), self.isolation.cpuset_cpus.clone()),
        );
        push_step(
            &mut steps,
            Step::Write(join(dir, "cpuset.mems"), or_text(&self.isolation.cpuset_mems, "0")),
        );
        push_step(
            &mut steps,
            Step::Write(join(dir, "memory.max"), decimal(self.isolation.memory_max_bytes)),
        );
        assert(steps_view(steps@) =~= seq![
            StepView::Write(
                crate::paths::joined(self.path@, "cpuset.cpus"@),
                self.isolation.cpuset_cpus@,
            ),
            StepView::Write(
                crate::paths::joined(self.path@, "cpuset.mems"@),
                crate::text::text_or(self.isolation.cpuset_mems, "0"@),
            ),
            StepView::Write(
                crate::paths::joined(self.path@, "memory.max"@),
                crate::number::decimal_of(self.isolation.memory_max_bytes as nat),
            ),
        ]);
        steps
    }

    /// The step that moves a running process, and its future threads, into this
    /// cgroup: its PID is written to `cgroup.procs`.
    pub fn attach(&self, pid: u32) -> (r: Step)
        ensures
            r@ == StepView::Write(
                crate::paths::joined(self.path@, "cgroup.procs"@),
                crate::number::decimal_of(pid as nat),
            ),
    {
        Step::Write(join(self.path.as_str(), "cgroup.procs"), decimal(pid as u64))
    }

    /// The file with the high-water mark of the leaf's memory: `memory.peak`
    /// where the kernel has it, else `memory.current`.
    pub fn memory_file(&self, peak_exists: bool) -> (r: String)
        ensures
            r@ == crate::paths::joined(
                self.path@,
                if peak_exists {
                    "memory.peak"@
                } else {
                    "memory.current"@
                },
            ),
    {
        if peak_exists {
            join(self.path.as_str(), "memory.peak")
        } else {
            join(self.path.as_str(), "memory.current")
        }
    }

    /// High-water memory from what that file holds, zero where it holds no
    /// number. None where it could not be read.
    pub fn peak_memory_bytes(raw: &Option<String>) -> (r: Option<u64>)
        ensures
            match r {
                Some(n) => *raw is Some && n == (match crate::telemetry::number_in(*raw) {
                    Some(v) => v,
                    None => 0,
                }),
                None => *raw is None,
            },
    {
        if raw.is_none() {
            return None;
        }
        match trimmed_number(raw) {
            Some(n) => Some(n),
            None => Some(0),
        }
    }
}

proof fn lemma_root()
    ensures
        components(cgroup_root()) == seq!["sys"@, "fs"@, "cgroup"@],
{
    reveal_strlit("/sys/fs/cgroup");
    reveal_strlit("sys");
    reveal_strlit("fs");
    reveal_strlit("cgroup");
    lemma_root_ends();
    let r = cgroup_root();
    reveal_with_fuel(component_start, 8);
    assert(component_start(r, 4) == 1);
    assert(component_start(r, 7) == 5);
    assert(component_start(r, 14) == 8);
    assert(r.subrange(1, 4) =~= "sys"@);
    assert(r.subrange(5, 7) =~= "fs"@);
    assert(r.subrange(8, 14) =~= "cgroup"@);
    assert(components(r) =~= seq!["sys"@, "fs"@, "cgroup"@]);
}

/// Whether a name is one component: not empty, without a separator, and no
/// lone dot.
pub open spec fn plain(name: Seq<char>) -> bool {
    name.len() > 0 && !name.contains('/') && name != seq!['.']
}

proof fn lemma_ends_below(base: Seq<char>, part: Seq<char>, i: int)
    requires
        plain(part),
        0 <= i <= base.len(),
    ensures
        crate::paths::ends_from(base + seq!['/'] + part, i) == crate::paths::ends_from(
            base,
            i,
        ).push((base + seq!['/'] + part).len() as int),
    decreases base.len() - i,
{
    let p = base + seq!['/'] + part;
    let n = base.len() as int;
    if i == n {
        assert(p[n] == '/');
        assert forall|k: int| n + 1 <= k < p.len() implies p[k] != '/' by {
            assert(p[k] == part[k - n - 1]);
        }
        crate::text::lemma_find_char_is(p, '/', n + 1, p.len() as int);
        assert(p.subrange(n + 1, p.len() as int) =~= part);
        assert(p[n + 1] != '/');
        assert(crate::paths::ends_from(p, p.len() as int) =~= Seq::<int>::empty());
        assert(crate::paths::ends_from(p, n + 1) =~= seq![p.len() as int]);
        assert(crate::paths::ends_from(base, n) =~= Seq::<int>::empty());
        assert(crate::paths::ends_from(p, n) =~= crate::paths::ends_from(base, n).push(
            p.len() as int,
        ));
    } else if base[i] == '/' {
        assert(p[i] == '/');
        lemma_ends_below(base, part, i + 1);
    } else {
        assert(p[i] == base[i]);
        crate::text::lemma_find_char(base, '/', i);
        let j = crate::text::find_char(base, '/', i);
        assert forall|k: int| i <= k < j implies p[k] != '/' by {
            assert(p[k] == base[k]);
        }
        assert(p[j] == '/');
        crate::text::lemma_find_char_is(p, '/', i, j);
        assert(p.subrange(i, j) =~= base.subrange(i, j));
        assert(j != i);
        lemma_ends_below(base, part, j);
        assert(crate::paths::ends_from(p, i) =~= crate::paths::ends_from(base, i).push(
            p.len() as int,
        ));
    }
}

proof fn lemma_start_in_prefix(p: Seq<char>, n: int, e: int)
    requires
        0 <= e <= n <= p.len(),
    ensures
        component_start(p, e) == component_start(p.take(n), e),
        0 <= component_start(p, e) <= e,
    decreases e,
{
    if e > 0 && p[e - 1] != '/' {
        lemma_start_in_prefix(p, n, e - 1);
    }
}

proof fn lemma_ends_in_range(p: Seq<char>, i: int)
    requires
        0 <= i <= p.len(),
    ensures
        forall|k: int|
            0 <= k < crate::paths::ends_from(p, i).len() ==> 0
                <= #[trigger] crate::paths::ends_from(p, i)[k] <= p.len(),
    decreases p.len() - i,
{
    if i < p.len() {
        if p[i] == '/' {
            lemma_ends_in_range(p, i + 1);
            assert(crate::paths::ends_from(p, i) == crate::paths::ends_from(p, i + 1));
        } else {
            crate::text::lemma_find_char(p, '/', i);
            let j = crate::text::find_char(p, '/', i);
            let rest = crate::paths::ends_from(p, j);
            assert(j != i);
            lemma_ends_in_range(p, j);
            assert forall|k: int| 0 <= k < crate::paths::ends_from(p, i).len() implies 0
                <= #[trigger] crate::paths::ends_from(p, i)[k] <= p.len() by {
                if p.subrange(i, j) != seq!['.'] {
                    assert(crate::paths::ends_from(p, i) == seq![j] + rest);
                    if k > 0 {
                        assert(crate::paths::ends_from(p, i)[k] == rest[k - 1]);
                    }
                } else {
                    assert(crate::paths::ends_from(p, i)[k] == rest[k]);
                }
            }
        }
    } else {
        assert(crate::paths::ends_from(p, i).len() == 0);
    }
}

proof fn lemma_below(base: Seq<char>, part: Seq<char>)
    requires
        plain(part),
        base.len() > 0,
        base.last() != '/',
    ensures
        crate::paths::joined(base, part) == base + seq!['/'] + part,
        crate::paths::joined(base, part).last() != '/',
        crate::paths::ends_of(crate::paths::joined(base, part)) == crate::paths::ends_of(base).push(
            crate::paths::joined(base, part).len() as int,
        ),
        crate::paths::joined(base, part).take(base.len() as int) == base,
        forall|k: int|
            0 <= k < components(base).len() ==> components(
                crate::paths::joined(base, part),
            )[k] == components(base)[k],
{
    reveal_strlit("/");
    assert(part[0] != '/');
    assert("/"@ =~= seq!['/']);
    let p = base + seq!['/'] + part;
    assert(crate::paths::joined(base, part) =~= p);
    assert(p.last() == part.last());
    assert(part.contains(part.last()));
    lemma_ends_below(base, part, 0);
    lemma_ends_in_range(base, 0);
    assert(p.take(base.len() as int) =~= base);
    assert forall|k: int| 0 <= k < components(base).len() implies components(p)[k] == components(
        base,
    )[k] by {
        let e = crate::paths::ends_of(base)[k];
        lemma_start_in_prefix(p, base.len() as int, e);
        assert(p.subrange(component_start(p, e), e) =~= base.subrange(
            component_start(base, e),
            e,
        ));
    }
}

/// With plain names the leaf stands two levels below the arena's own node, and
/// its creation walks that chain from the root down: every node but the root is
/// created before the controllers are enabled in it, and the leaf itself comes
/// last and enables nothing.
pub proof fn law_leaf_of_plain_names(run_id: Seq<char>, cell_id: Seq<char>)
    requires
        plain(run_id),
        plain(cell_id),
    ensures
        leaf_path(run_id, cell_id) == "/sys/fs/cgroup/zmq-arena"@ + seq!['/'] + run_id + seq!['/']
            + cell_id,
        below_root(leaf_path(run_id, cell_id)),
        create_steps(leaf_path(run_id, cell_id)) == ({
            let arena = "/sys/fs/cgroup/zmq-arena"@;
            let run = arena + seq!['/'] + run_id;
            seq![
                enable_step(cgroup_root()),
                StepView::Mkdir(arena),
                enable_step(arena),
                StepView::Mkdir(run),
                enable_step(run),
                StepView::Mkdir(leaf_path(run_id, cell_id)),
            ]
        }),
{
    reveal_strlit("/sys/fs/cgroup");
    reveal_strlit("zmq-arena");
    reveal_strlit("/sys/fs/cgroup/zmq-arena");
    let root = cgroup_root();
    let arena = crate::paths::joined(root, "zmq-arena"@);
    let run = crate::paths::joined(arena, run_id);
    let leaf = crate::paths::joined(run, cell_id);
    lemma_root();
    assert("zmq-arena"@.len() == 9);
    assert(!"zmq-arena"@.contains('/'));
    lemma_below(root, "zmq-arena"@);
    assert(arena =~= "/sys/fs/cgroup/zmq-arena"@);
    lemma_below(arena, run_id);
    lemma_below(run, cell_id);
    let ends = crate::paths::ends_of(leaf);
    assert(components(root).len() == 3);
    assert(crate::paths::ends_of(root).len() == 3);
    assert(components(arena).len() == 4);
    assert(components(run).len() == 5);
    assert(components(leaf).take(3) =~= components(root)) by {
        assert forall|k: int| 0 <= k < 3 implies components(leaf)[k] == components(root)[k] by {
            assert(components(arena)[k] == components(root)[k]);
            assert(components(run)[k] == components(arena)[k]);
            assert(components(leaf)[k] == components(run)[k]);
        }
    }
    assert(ends.len() == 6);
    assert(crate::paths::ends_of(root)[2] == root.len()) by {
        lemma_root_ends();
    }
    assert(ends[2] == root.len());
    assert(ends[3] == arena.len());
    assert(ends[4] == run.len());
    assert(leaf.take(run.len() as int) == run);
    assert(leaf.take(arena.len() as int) =~= run.take(arena.len() as int));
    assert(leaf.take(root.len() as int) =~= arena.take(root.len() as int)) by {
        assert(leaf.take(root.len() as int) =~= leaf.take(arena.len() as int).take(
            root.len() as int,
        ));
    }
    reveal_with_fuel(ancestor_steps, 4);
    let steps = create_steps(leaf);
    assert(ancestor_steps(leaf, ends, 2) =~= Seq::empty());
    assert(steps =~= seq![
        enable_step(root),
        StepView::Mkdir(arena),
        enable_step(arena),
        StepView::Mkdir(run),
        enable_step(run),
        StepView::Mkdir(leaf),
    ]);
}

proof fn lemma_root_ends()
    ensures
        crate::paths::ends_of(cgroup_root()) == seq![4int, 7int, 14int],
{
    reveal_strlit("/sys/fs/cgroup");
    let r = cgroup_root();
    crate::text::lemma_find_char_is(r, '/', 1, 4);
    crate::text::lemma_find_char_is(r, '/', 5, 7);
    crate::text::lemma_find_char_is(r, '/', 8, 14);
    assert(r.subrange(1, 4).len() == 3);
    assert(r.subrange(5, 7).len() == 2);
    assert(r.subrange(8, 14).len() == 6);
    assert(crate::paths::ends_from(r, 14) =~= Seq::<int>::empty());
    assert(crate::paths::ends_from(r, 8) =~= seq![14int]);
    assert(crate::paths::ends_from(r, 7) =~= seq![14int]);
    assert(crate::paths::ends_from(r, 5) =~= seq![7int, 14int]);
    assert(crate::paths::ends_from(r, 4) =~= seq![7int, 14int]);
    assert(crate::paths::ends_from(r, 1) =~= seq![4int, 7int, 14int]);
    assert(crate::paths::ends_of(r) =~= seq![4int, 7int, 14int]);
}

/// A node's controllers are enabled by naming the two that the arena needs in the
/// file for it, and a failure there is of no account.
pub proof fn law_enabling_names_the_controllers(dir: Seq<char>)
    requires
        dir.len() > 0,
        dir.last() != '/',
    ensures
        enable_step(dir) == StepView::TryWrite(
            dir + "/cgroup.subtree_control"@,
            "+cpuset +memory"@,
        ),
{
    reveal_strlit("cgroup.subtree_control");
    reveal_strlit("/cgroup.subtree_control");
    reveal_strlit("/");
    assert(crate::paths::joined(dir, "cgroup.subtree_control"@) =~= dir
        + "/cgroup.subtree_control"@);
}

/// Nothing outside the hierarchy is touched: a path counts as below its root only
/// where its first three components are the root's and there are more.
pub proof fn law_below_root_is_strict(p: Seq<char>)
    requires
        below_root(p),
    ensures
        p[0] == '/',
        components(p).len() >= 4,
        components(p)[0] == "sys"@,
        components(p)[1] == "fs"@,
        components(p)[2] == "cgroup"@,
{
    lemma_root();
    let t = components(p).take(3);
    assert(t[0] == components(p)[0] && t[1] == components(p)[1] && t[2] == components(p)[2]);
}

/// A list of steps over characters says what the steps do, one by one.
pub proof fn law_view_keeps_the_steps(steps: Seq<Step>, i: int)
    requires
        0 <= i < steps.len(),
    ensures
        steps_view(steps).len() == steps.len(),
        match steps[i] {
            Step::Mkdir(d) => steps_view(steps)[i] == StepView::Mkdir(d@),
            Step::Write(f, t) => steps_view(steps)[i] == StepView::Write(f@, t@),
            Step::TryWrite(f, t) => steps_view(steps)[i] == StepView::TryWrite(f@, t@),
        },
{
}

/// The steps that limit a process in the leaf `path`.
pub open spec fn limit_steps(path: Seq<char>, isolation: Isolation) -> Seq<StepView> {
    seq![
        StepView::Write(crate::paths::joined(path, "cpuset.cpus"@), isolation.cpuset_cpus@),
        StepView::Write(
            crate::paths::joined(path, "cpuset.mems"@),
            crate::text::text_or(isolation.cpuset_mems, "0"@),
        ),
        StepView::Write(
            crate::paths::joined(path, "memory.max"@),
            crate::number::decimal_of(isolation.memory_max_bytes as nat),
        ),
    ]
}

/// Every limit goes to the file of its own controller, in the leaf: the CPUs, the
/// memory nodes, which are the first one where none are given, and the bytes of
/// memory, as a number. A limit that cannot be written ends the provisioning.
pub proof fn law_limits_go_to_their_files(path: Seq<char>, isolation: Isolation, i: int)
    requires
        path.len() > 0,
        path.last() != '/',
        0 <= i < limit_steps(path, isolation).len(),
    ensures
        limit_steps(path, isolation).len() == 3,
        limit_steps(path, isolation)[i] matches StepView::Write(file, text) && {
            &&& file == path + "/cpuset.cpus"@ || file == path + "/cpuset.mems"@ || file == path
                + "/memory.max"@
            &&& file == path + "/cpuset.cpus"@ ==> text == isolation.cpuset_cpus@
            &&& file == path + "/cpuset.mems"@ ==> text == (match isolation.cpuset_mems {
                Some(m) => m@,
                None => "0"@,
            })
            &&& file == path + "/memory.max"@ ==> crate::number::unsigned_of(text) == Some(
                isolation.memory_max_bytes as nat,
            )
        },
        forall|j: int, k: int|
            0 <= j < k < 3 ==> limit_steps(path, isolation)[j]->Write_0 != limit_steps(
                path,
                isolation,
            )[k]->Write_0,
{
    lemma_file_in(path, "cpuset.cpus"@, "/cpuset.cpus"@);
    lemma_file_in(path, "cpuset.mems"@, "/cpuset.mems"@);
    lemma_file_in(path, "memory.max"@, "/memory.max"@);
    lemma_limit_files(path);
    crate::number::law_decimal_reads_back(isolation.memory_max_bytes as nat);
}

proof fn lemma_file_in(path: Seq<char>, name: Seq<char>, rest: Seq<char>)
    requires
        path.len() > 0,
        path.last() != '/',
        (name == "cpuset.cpus"@ && rest == "/cpuset.cpus"@) || (name == "cpuset.mems"@ && rest
            == "/cpuset.mems"@) || (name == "memory.max"@ && rest == "/memory.max"@),
    ensures
        crate::paths::joined(path, name) == path + rest,
{
    reveal_strlit("cpuset.cpus");
    reveal_strlit("cpuset.mems");
    reveal_strlit("memory.max");
    reveal_strlit("/cpuset.cpus");
    reveal_strlit("/cpuset.mems");
    reveal_strlit("/memory.max");
    reveal_strlit("/");
    assert(rest =~= seq!['/'] + name);
    assert("/"@ =~= seq!['/']);
    assert(name[0] != '/');
    assert(path + "/"@ + name =~= path + rest);
}

proof fn lemma_limit_files(path: Seq<char>)
    ensures
        path + "/cpuset.cpus"@ != path + "/cpuset.mems"@,
        path + "/cpuset.cpus"@ != path + "/memory.max"@,
        path + "/cpuset.mems"@ != path + "/memory.max"@,
{
    reveal_strlit("/cpuset.cpus");
    reveal_strlit("/cpuset.mems");
    reveal_strlit("/memory.max");
    let n = path.len() as int;
    let a = path + "/cpuset.cpus"@;
    let b = path + "/cpuset.mems"@;
    let c = path + "/memory.max"@;
    assert(a[n + 8] == 'c' && b[n + 8] == 'm');
    assert(a[n + 1] == 'c' && b[n + 1] == 'c' && c[n + 1] == 'm');
}

} // verus!
