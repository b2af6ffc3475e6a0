//! What holds of the script of every cell: which process has which role, what it
//! is told, and in which order things are done and observed.
use vstd::prelude::*;
use crate::config::{Kind, MatrixEntry, Transport};
use crate::script::{Action, ActionView, Budget, Leaf, Output, Site, SpawnView};
use crate::target::{Engine, Role, Work};

verus! {

proof fn lemma_roles_differ()
    ensures
        "pub"@ != "sub"@,
        "pub"@.len() == 3 && "pub"@[0] == 'p',
        "sub"@.len() == 3 && "sub"@[0] == 's',
{
    reveal_strlit("pub");
    reveal_strlit("sub");
    assert("pub"@[0] == 'p');
    assert("sub"@[0] == 's');
}

proof fn lemma_front(entry: MatrixEntry, role: Seq<char>, endpoint: Seq<char>)
    ensures
        crate::cell::target_args_of(entry, role, endpoint).len() >= 14,
        forall|i: int|
            0 <= i < 14 ==> #[trigger] crate::cell::target_args_of(entry, role, endpoint)[i]
                == crate::cell::common_args(entry, role, endpoint)[i],
{
}

/// The role that a process is started in, by its arguments.
pub open spec fn role_in(p: SpawnView) -> Option<Seq<char>> {
    crate::target::value_of(p.args, "--role"@)
}

proof fn lemma_role_in(p: SpawnView)
    requires
        p.args.len() >= 2,
        p.args[0] == "--role"@,
    ensures
        role_in(p) == Some(p.args[1]),
{
    assert(crate::target::first_equal(p.args, "--role"@, 0) == 0);
}

proof fn lemma_multipeer_starts(entry: MatrixEntry, cell_id: Seq<char>, site: Site)
    requires
        crate::script::is_multipeer(entry.kind),
    ensures
        ({
            let s = crate::script::cell_script_of(entry, cell_id, site);
            let endpoint = crate::script::endpoint_of(entry, cell_id, site);
            let starts = if entry.kind == Kind::FanIn {
                crate::script::consumer_binds_starts(entry, endpoint)
            } else {
                crate::script::producer_binds_starts(entry, endpoint)
            };
            let n = starts.len() as int;
            &&& n == crate::script::workers_of(entry) + 2
            &&& s.len() == n + 11
            &&& forall|i: int| 3 <= i < 3 + n ==> #[trigger] s[i] == starts[i - 3]
            &&& s[0] == ActionView::MakeLeaf(Leaf::Pub, cell_id + "-pub"@)
            &&& s[1] == ActionView::MakeLeaf(Leaf::Sub, cell_id + "-sub"@)
            &&& s[2] == ActionView::UsageBefore
            &&& s[n + 3] == ActionView::Sleep(150)
            &&& s[n + 4] == ActionView::OpenProbe
            &&& s[n + 5] == ActionView::AwaitMeasured(Budget::WindowPlus(15))
            &&& s[n + 6] == ActionView::ReadOutput
            &&& s[n + 7] == ActionView::ReadProbe
            &&& s[n + 8] == ActionView::KillOthers
            &&& s[n + 9] == ActionView::UsageAfter
            &&& s[n + 10] == ActionView::LeafMemory(Leaf::Sub)
        }),
{
}

/// Whether a process of a cell is told its role, and put in the leaf of that
/// role: the measured one that of the client where round trips are measured and
/// else that of the consumer, and the one that is started first, and no other,
/// that of the side which binds.
pub open spec fn is_cast(kind: Kind, p: SpawnView, first: bool) -> bool {
    &&& role_in(p) == Some("pub"@) || role_in(p) == Some("sub"@)
    &&& p.measured ==> role_in(p) == Some(
        if kind == Kind::Latency {
            "pub"@
        } else {
            "sub"@
        },
    )
    &&& kind == Kind::Latency && !p.measured ==> role_in(p) == Some("sub"@)
    &&& kind == Kind::Throughput && !p.measured ==> role_in(p) == Some("pub"@)
    &&& first <==> role_in(p) == Some(
        if kind == Kind::PubSub || kind == Kind::FanOut {
            "pub"@
        } else {
            "sub"@
        },
    )
    &&& p.leaf == (if role_in(p) == Some("pub"@) {
        Leaf::Pub
    } else {
        Leaf::Sub
    })
    &&& (p.stdout == Output::Piped) <==> p.measured
    &&& p.measured ==> !p.quiet
}

/// In the script of every cell the measured process is told the role whose work
/// is read from its output: the client of a latency cell, the consumer of every
/// other. The process that is started first, and that one alone, is told the role
/// that binds.
pub proof fn law_processes_have_their_roles(
    entry: MatrixEntry,
    cell_id: Seq<char>,
    site: Site,
) -> (w: int)
    ensures
        ({
            let s = crate::script::cell_script_of(entry, cell_id, site);
            &&& 0 <= w < s.len()
            &&& s[w] is Start
            &&& forall|i: int|
                0 <= i < s.len() && #[trigger] s[i] is Start ==> w <= i && is_cast(
                    entry.kind,
                    s[i]->Start_0,
                    i == w,
                )
        }),
{
    let s = crate::script::cell_script_of(entry, cell_id, site);
    let endpoint = crate::script::endpoint_of(entry, cell_id, site);
    lemma_roles_differ();
    lemma_front(entry, "pub"@, endpoint);
    lemma_front(entry, "sub"@, endpoint);
    if entry.kind == Kind::Throughput {
        lemma_role_in(s[4]->Start_0);
        lemma_role_in(s[8]->Start_0);
        assert forall|i: int| 0 <= i < s.len() && #[trigger] s[i] is Start implies 4 <= i
            && is_cast(entry.kind, s[i]->Start_0, i == 4) by {
            assert(i == 4 || i == 8);
        }
        4
    } else if entry.kind == Kind::Latency {
        lemma_role_in(s[4]->Start_0);
        lemma_role_in(s[6]->Start_0);
        assert forall|i: int| 0 <= i < s.len() && #[trigger] s[i] is Start implies 4 <= i
            && is_cast(entry.kind, s[i]->Start_0, i == 4) by {
            assert(i == 4 || i == 6);
        }
        4
    } else {
        lemma_multipeer_roles(entry, cell_id, site);
        3
    }
}

proof fn lemma_multipeer_roles(entry: MatrixEntry, cell_id: Seq<char>, site: Site)
    requires
        crate::script::is_multipeer(entry.kind),
    ensures
        ({
            let s = crate::script::cell_script_of(entry, cell_id, site);
            &&& 3 < s.len()
            &&& s[3] is Start
            &&& forall|i: int|
                0 <= i < s.len() && #[trigger] s[i] is Start ==> 3 <= i && is_cast(
                    entry.kind,
                    s[i]->Start_0,
                    i == 3,
                )
        }),
{
    let s = crate::script::cell_script_of(entry, cell_id, site);
    let endpoint = crate::script::endpoint_of(entry, cell_id, site);
    lemma_roles_differ();
    lemma_front(entry, "pub"@, endpoint);
    lemma_front(entry, "sub"@, endpoint);
    lemma_multipeer_starts(entry, cell_id, site);
    let fan_in = entry.kind == Kind::FanIn;
    let starts = if fan_in {
        crate::script::consumer_binds_starts(entry, endpoint)
    } else {
        crate::script::producer_binds_starts(entry, endpoint)
    };
    assert forall|i: int| 0 <= i < s.len() && #[trigger] s[i] is Start implies 3 <= i && is_cast(
        entry.kind,
        s[i]->Start_0,
        i == 3,
    ) by {
        assert(3 <= i < 3 + starts.len());
        assert(s[i] == starts[i - 3]);
        lemma_role_in(s[i]->Start_0);
    }
    assert(s[3] == starts[0]);
}

/// Whether a work's result is what a cell's record is made from: the round
/// trips, the block that is received, or the messages that are counted.
pub open spec fn is_observed(w: Work) -> bool {
    w is RoundTrips || w is ReceiveAll || w is Measure || w is Count
}

/// The roles of the script are those of the targets: whatever the engine, the
/// role that the measured process is told has the work that is observed, the
/// other role has not, and the role of the process that is started first is the
/// one that binds.
pub proof fn law_script_and_targets_agree(
    entry: MatrixEntry,
    cell_id: Seq<char>,
    site: Site,
    engine: Engine,
    total: int,
    i: int,
)
    requires
        0 <= i < crate::script::cell_script_of(entry, cell_id, site).len(),
        crate::script::cell_script_of(entry, cell_id, site)[i] is Start,
    ensures
        ({
            let s = crate::script::cell_script_of(entry, cell_id, site);
            let p = s[i]->Start_0;
            let role = if role_in(p) == Some("pub"@) {
                Role::Pub
            } else {
                Role::Sub
            };
            let work = crate::target::work_of(engine, entry.kind, role, total, entry.peers);
            &&& p.measured ==> is_observed(work)
            &&& entry.kind == Kind::Latency ==> (p.measured <==> work is RoundTrips) && (
            !p.measured <==> work is Echo)
            &&& is_observed(work) ==> role != (if entry.kind == Kind::Latency {
                Role::Sub
            } else {
                Role::Pub
            })
            &&& (role == crate::target::binding_role(entry.kind)) <==> forall|j: int|
                0 <= j < s.len() && #[trigger] s[j] is Start ==> i <= j
        }),
{
    let s = crate::script::cell_script_of(entry, cell_id, site);
    let w = law_processes_have_their_roles(entry, cell_id, site);
    lemma_roles_differ();
    assert(s[w] is Start);
    assert(is_cast(entry.kind, s[i]->Start_0, i == w));
    if i != w {
        assert(!(i <= w));
    }
}

proof fn lemma_first_equal(args: Seq<Seq<char>>, flag: Seq<char>, i: int, j: int)
    requires
        0 <= i <= j < args.len(),
        args[j] == flag,
        forall|k: int| i <= k < j ==> args[k] != flag,
    ensures
        crate::target::first_equal(args, flag, i) == j,
    decreases j - i,
{
    if i < j {
        lemma_first_equal(args, flag, i + 1, j);
    }
}

/// Whether a text cannot be taken for a flag.
pub open spec fn is_plain_value(s: Seq<char>) -> bool {
    s.len() > 0 && s[0] != '-'
}

proof fn lemma_decimal_is_plain(n: nat)
    ensures
        is_plain_value(crate::number::decimal_of(n)),
{
    crate::number::lemma_decimal_digits(n);
    assert(crate::number::is_digit(crate::number::decimal_of(n)[0]));
}

proof fn lemma_tokens_are_plain(entry: MatrixEntry)
    ensures
        is_plain_value(crate::config::kind_token(entry.kind)),
        is_plain_value(crate::config::transport_token(entry.transport)),
{
    reveal_strlit("throughput");
    reveal_strlit("latency");
    reveal_strlit("pubsub");
    reveal_strlit("fanout");
    reveal_strlit("fanin");
    reveal_strlit("tcp");
    reveal_strlit("ipc");
    reveal_strlit("inproc");
}

proof fn lemma_flags()
    ensures
        "--role"@.len() == 6 && "--role"@[0] == '-' && "--role"@[2] == 'r',
        "--kind"@.len() == 6 && "--kind"@[0] == '-' && "--kind"@[2] == 'k',
        "--transport"@.len() == 11 && "--transport"@[0] == '-',
        "--endpoint"@.len() == 10 && "--endpoint"@[0] == '-' && "--endpoint"@[2] == 'e',
        "--payload-bytes"@.len() == 15 && "--payload-bytes"@[0] == '-',
        "--messages"@.len() == 10 && "--messages"@[0] == '-' && "--messages"@[2] == 'm',
        "--warmup"@.len() == 8 && "--warmup"@[0] == '-',
        "--peers"@.len() == 7 && "--peers"@[0] == '-',
        "--variant"@.len() == 9 && "--variant"@[0] == '-',
{
    reveal_strlit("--role");
    reveal_strlit("--kind");
    reveal_strlit("--transport");
    reveal_strlit("--endpoint");
    reveal_strlit("--payload-bytes");
    reveal_strlit("--messages");
    reveal_strlit("--warmup");
    reveal_strlit("--peers");
    reveal_strlit("--variant");
}

/// The number that stands behind a flag.
pub open spec fn number_behind(args: Seq<Seq<char>>, flag: Seq<char>) -> Option<nat> {
    match crate::target::value_of(args, flag) {
        Some(v) => crate::number::unsigned_of(v),
        None => None,
    }
}

/// A target that looks a flag up reads what its entry says: its role, kind,
/// transport and endpoint, how many bytes and messages, how much warmup, and the
/// peers and the variant where the entry has them. More arguments behind these
/// make no difference.
pub proof fn law_target_reads_its_entry(
    entry: MatrixEntry,
    role: Seq<char>,
    endpoint: Seq<char>,
    more: Seq<Seq<char>>,
)
    requires
        is_plain_value(role),
        is_plain_value(endpoint),
    ensures
        ({
            let args = crate::cell::target_args_of(entry, role, endpoint) + more;
            &&& crate::target::value_of(args, "--role"@) == Some(role)
            &&& crate::target::value_of(args, "--kind"@) matches Some(k)
            &&& crate::target::kind_named(k) == Some(entry.kind)
            &&& crate::target::value_of(args, "--transport"@) == Some(
                match entry.transport {
                    Transport::TcpNetns => "tcp"@,
                    Transport::Ipc => "ipc"@,
                    Transport::Inproc => "inproc"@,
                },
            )
            &&& crate::target::value_of(args, "--endpoint"@) == Some(endpoint)
            &&& number_behind(args, "--payload-bytes"@) == Some(entry.payload_bytes as nat)
            &&& number_behind(args, "--messages"@) == Some(entry.messages as nat)
            &&& number_behind(args, "--warmup"@) == Some(entry.warmup_messages as nat)
            &&& entry.peers matches Some(p) ==> number_behind(args, "--peers"@) == Some(p as nat)
            &&& entry.target.variant matches Some(v) ==> crate::target::value_of(
                args,
                "--variant"@,
            ) == Some(v@)
        }),
{
    let args = crate::cell::target_args_of(entry, role, endpoint) + more;
    lemma_front(entry, role, endpoint);
    lemma_flags();
    lemma_tokens_are_plain(entry);
    lemma_decimal_is_plain(entry.payload_bytes as nat);
    lemma_decimal_is_plain(entry.messages as nat);
    lemma_decimal_is_plain(entry.warmup_messages as nat);
    crate::number::law_decimal_reads_back(entry.payload_bytes as nat);
    crate::number::law_decimal_reads_back(entry.messages as nat);
    crate::number::law_decimal_reads_back(entry.warmup_messages as nat);
    crate::target::law_kind_token_reads_back(entry.kind);
    let front = crate::cell::common_args(entry, role, endpoint);
    assert(forall|i: int| 0 <= i < 14 ==> args[i] == front[i]);
    lemma_first_equal(args, "--role"@, 0, 0);
    lemma_first_equal(args, "--kind"@, 0, 2);
    lemma_first_equal(args, "--transport"@, 0, 4);
    lemma_first_equal(args, "--endpoint"@, 0, 6);
    lemma_first_equal(args, "--payload-bytes"@, 0, 8);
    lemma_first_equal(args, "--messages"@, 0, 10);
    lemma_first_equal(args, "--warmup"@, 0, 12);
    let peers = crate::cell::peers_args(entry);
    let variant = crate::cell::variant_args(entry);
    let n = 14 + peers.len() as int;
    if entry.peers is Some {
        lemma_decimal_is_plain(entry.peers->0 as nat);
        crate::number::law_decimal_reads_back(entry.peers->0 as nat);
        assert(args[14] == peers[0] && args[15] == peers[1]);
        lemma_first_equal(args, "--peers"@, 0, 14);
    }
    if entry.target.variant is Some {
        assert(args[n] == variant[0] && args[n + 1] == variant[1]);
        lemma_first_equal(args, "--variant"@, 0, n);
    }
}

proof fn lemma_knob_args(list: Seq<Seq<char>>, j: int)
    requires
        0 <= j < list.len(),
    ensures
        crate::cell::knob_args(list).len() == 2 * list.len(),
        crate::cell::knob_args(list)[2 * j] == "--knob"@,
        crate::cell::knob_args(list)[2 * j + 1] == list[j],
    decreases list.len(),
{
    let rest = list.drop_last();
    if rest.len() > 0 {
        if j < rest.len() {
            lemma_knob_args(rest, j);
        } else {
            lemma_knob_args(rest, 0);
        }
    } else {
        assert(crate::cell::knob_args(rest).len() == 0);
    }
    assert(crate::cell::knob_args(list) == crate::cell::knob_args(rest) + seq![
        "--knob"@,
        list.last(),
    ]);
}

/// Every knob of an entry is handed on, at the end of the arguments and in its
/// order, behind a flag of its own; and a target that splits the setting at the
/// first `=` has the key, where it holds none, and the value.
pub proof fn law_knobs_are_handed_on(
    entry: MatrixEntry,
    role: Seq<char>,
    endpoint: Seq<char>,
    j: int,
)
    requires
        0 <= j < entry.target.knobs.entries@.len(),
    ensures
        ({
            let args = crate::cell::target_args_of(entry, role, endpoint);
            let knobs = entry.target.knobs.entries@;
            let at = args.len() - 2 * knobs.len() + 2 * j;
            &&& at >= 14
            &&& args[at] == "--knob"@
            &&& !knobs[j].0@.contains('=') ==> crate::text::parts_at(args[at + 1], '=') == Some(
                (knobs[j].0@, knobs[j].1@),
            )
        }),
{
    let args = crate::cell::target_args_of(entry, role, endpoint);
    let knobs = entry.target.knobs.entries@;
    let list = crate::cell::settings_of(knobs);
    lemma_knob_args(list, j);
    let tail = crate::cell::knob_args(list);
    let at = args.len() - tail.len() + 2 * j;
    assert(list[j] == knobs[j].0@ + "="@ + knobs[j].1@);
    assert(args[at] == tail[2 * j]);
    assert(args[at + 1] == tail[2 * j + 1]);
    if !knobs[j].0@.contains('=') {
        reveal_strlit("=");
        let k = knobs[j].0@;
        let s = list[j];
        assert forall|i: int| 0 <= i < k.len() implies s[i] != '=' by {
            assert(s[i] == k[i]);
            assert(k.contains(k[i]));
        }
        crate::text::lemma_find_char_is(s, '=', 0, k.len() as int);
        assert(s.take(k.len() as int) =~= k);
        assert(s.skip(k.len() as int + 1) =~= knobs[j].1@);
    }
}

/// The processes of a multi-peer cell are told the window, last of all, and the
/// one that binds, and that one alone, is told so just before.
pub proof fn law_peers_are_told_the_window(
    entry: MatrixEntry,
    cell_id: Seq<char>,
    site: Site,
    i: int,
)
    requires
        crate::script::is_multipeer(entry.kind),
        0 <= i < crate::script::cell_script_of(entry, cell_id, site).len(),
        crate::script::cell_script_of(entry, cell_id, site)[i] is Start,
    ensures
        ({
            let p = crate::script::cell_script_of(entry, cell_id, site)[i]->Start_0;
            let told = crate::cell::target_args_of(
                entry,
                role_in(p)->0,
                crate::script::endpoint_of(entry, cell_id, site),
            );
            let window = match entry.duration_secs {
                Some(d) => d@,
                None => "2"@,
            };
            let binds = role_in(p) == Some(
                if entry.kind == Kind::FanIn {
                    "sub"@
                } else {
                    "pub"@
                },
            );
            &&& p.args[p.args.len() - 2] == "--duration-secs"@
            &&& p.args[p.args.len() - 1] == window
            &&& p.args.take(told.len() as int) == told
            &&& binds ==> p.args.len() == told.len() + 3 && p.args[told.len() as int] == "--bind"@
            &&& !binds ==> p.args.len() == told.len() + 2
        }),
{
    let s = crate::script::cell_script_of(entry, cell_id, site);
    let endpoint = crate::script::endpoint_of(entry, cell_id, site);
    let window = crate::script::window_of(entry);
    lemma_roles_differ();
    lemma_front(entry, "pub"@, endpoint);
    lemma_front(entry, "sub"@, endpoint);
    lemma_multipeer_starts(entry, cell_id, site);
    let starts = if entry.kind == Kind::FanIn {
        crate::script::consumer_binds_starts(entry, endpoint)
    } else {
        crate::script::producer_binds_starts(entry, endpoint)
    };
    assert(3 <= i < 3 + starts.len());
    let p = s[i]->Start_0;
    assert(s[i] == starts[i - 3]);
    lemma_role_in(p);
    let told = crate::cell::target_args_of(entry, role_in(p)->0, endpoint);
    assert(p.args.take(told.len() as int) =~= told);
}

/// Every process of a cell is told its endpoint and its kind.
pub proof fn law_processes_share_the_endpoint(
    entry: MatrixEntry,
    cell_id: Seq<char>,
    site: Site,
    i: int,
)
    requires
        0 <= i < crate::script::cell_script_of(entry, cell_id, site).len(),
        crate::script::cell_script_of(entry, cell_id, site)[i] is Start,
    ensures
        ({
            let p = crate::script::cell_script_of(entry, cell_id, site)[i]->Start_0;
            &&& crate::target::value_of(p.args, "--endpoint"@) == Some(
                crate::script::endpoint_of(entry, cell_id, site),
            )
            &&& crate::target::value_of(p.args, "--kind"@) matches Some(k)
            &&& crate::target::kind_named(k) == Some(entry.kind)
        }),
{
    let s = crate::script::cell_script_of(entry, cell_id, site);
    let endpoint = crate::script::endpoint_of(entry, cell_id, site);
    reveal_strlit("ipc://");
    reveal_strlit("tcp://127.0.0.1:");
    lemma_roles_differ();
    lemma_front(entry, "pub"@, endpoint);
    lemma_front(entry, "sub"@, endpoint);
    let p = s[i]->Start_0;
    let w = law_processes_have_their_roles(entry, cell_id, site);
    assert(is_cast(entry.kind, p, i == w));
    let role = role_in(p)->0;
    let told = crate::cell::target_args_of(entry, role, endpoint);
    if crate::script::is_multipeer(entry.kind) {
        law_peers_are_told_the_window(entry, cell_id, site, i);
        let more = p.args.skip(told.len() as int);
        assert(p.args =~= told + more);
        law_target_reads_its_entry(entry, role, endpoint, more);
    } else {
        lemma_role_in(p);
        assert(p.args =~= told + Seq::<Seq<char>>::empty());
        law_target_reads_its_entry(entry, role, endpoint, Seq::empty());
    }
}

/// What is observed of a cell covers all of it: both leaves are provisioned and
/// the usage is noted before any process is started, and the usage is noted again
/// when the measured process was waited for and the others are gone. The output
/// and the probe are read after the wait, and the memory that is read last is
/// that of the measured process's leaf.
pub proof fn law_observation_covers_the_run(
    entry: MatrixEntry,
    cell_id: Seq<char>,
    site: Site,
) -> (w: (int, int, int, int))
    ensures
        ({
            let s = crate::script::cell_script_of(entry, cell_id, site);
            let (before, wait, gone, after) = w;
            let leaf = if entry.kind == Kind::Latency {
                Leaf::Pub
            } else {
                Leaf::Sub
            };
            &&& 0 <= before < wait < gone < after < s.len()
            &&& s[before] == ActionView::UsageBefore
            &&& s[wait] is AwaitMeasured
            &&& s[gone] == (if entry.kind == Kind::Throughput {
                ActionView::AwaitOthers(5)
            } else {
                ActionView::KillOthers
            })
            &&& s[after] == ActionView::UsageAfter
            &&& s.last() == ActionView::LeafMemory(leaf)
            &&& forall|i: int|
                0 <= i < s.len() ==> {
                    &&& #[trigger] s[i] is Start ==> before < i < wait
                    &&& s[i] is Start && s[i]->Start_0.measured ==> s[i]->Start_0.leaf == leaf
                    &&& s[i] is AwaitMeasured ==> i == wait
                    &&& s[i] == ActionView::ReadOutput || s[i] == ActionView::ReadProbe ==> wait
                        < i < after
                    &&& s[i] == ActionView::OpenProbe ==> before < i < wait && s[i - 1] is Sleep
                }
            &&& exists|i: int| 0 <= i < s.len() && #[trigger] s[i] == ActionView::ReadOutput
            &&& exists|i: int| 0 <= i < s.len() && #[trigger] s[i] == ActionView::ReadProbe
            &&& exists|i: int|
                0 <= i < before && #[trigger] s[i] == ActionView::MakeLeaf(
                    Leaf::Sub,
                    cell_id + "-sub"@,
                )
            &&& exists|i: int|
                0 <= i < before && #[trigger] s[i] == ActionView::MakeLeaf(
                    Leaf::Pub,
                    cell_id + "-pub"@,
                )
        }),
{
    let s = crate::script::cell_script_of(entry, cell_id, site);
    let endpoint = crate::script::endpoint_of(entry, cell_id, site);
    match entry.kind {
        Kind::Throughput => {
            assert(s[12] == ActionView::ReadOutput);
            assert(s[11] == ActionView::ReadProbe);
            assert(s[1] == ActionView::MakeLeaf(Leaf::Sub, cell_id + "-sub"@));
            assert(s[2] == ActionView::MakeLeaf(Leaf::Pub, cell_id + "-pub"@));
            (3, 9, 13, 15)
        },
        Kind::Latency => {
            assert(s[11] == ActionView::ReadOutput);
            assert(s[10] == ActionView::ReadProbe);
            assert(s[1] == ActionView::MakeLeaf(Leaf::Sub, cell_id + "-sub"@));
            assert(s[2] == ActionView::MakeLeaf(Leaf::Pub, cell_id + "-pub"@));
            (3, 9, 12, 14)
        },
        _ => {
            lemma_multipeer_starts(entry, cell_id, site);
            let starts = if entry.kind == Kind::FanIn {
                crate::script::consumer_binds_starts(entry, endpoint)
            } else {
                crate::script::producer_binds_starts(entry, endpoint)
            };
            let n = starts.len() as int;
            assert(s[n + 6] == ActionView::ReadOutput);
            assert(s[n + 7] == ActionView::ReadProbe);
            assert(s[1] == ActionView::MakeLeaf(Leaf::Sub, cell_id + "-sub"@));
            assert(s[0] == ActionView::MakeLeaf(Leaf::Pub, cell_id + "-pub"@));
            assert forall|i: int| 3 <= i < 3 + n implies (#[trigger] s[i] is Start || s[i] is Sleep)
                && (s[i] is Start && s[i]->Start_0.measured ==> s[i]->Start_0.leaf == Leaf::Sub) by {
                assert(s[i] == starts[i - 3]);
            }
            (2, n + 5, n + 8, n + 9)
        },
    }
}

/// The clock of a throughput cell runs for the block and nothing else: it starts
/// once the consumer is there and before the producer is, and stops as soon as
/// the consumer was waited for.
pub proof fn law_clock_brackets_the_block(
    entry: MatrixEntry,
    cell_id: Seq<char>,
    site: Site,
) -> (w: (int, int))
    requires
        entry.kind == Kind::Throughput,
    ensures
        ({
            let s = crate::script::cell_script_of(entry, cell_id, site);
            &&& 0 <= w.0 < w.1 < s.len()
            &&& s[w.1 - 1] is AwaitMeasured
            &&& forall|i: int|
                0 <= i < s.len() ==> {
                    &&& (#[trigger] s[i] == ActionView::StartClock) <==> i == w.0
                    &&& (s[i] == ActionView::StopClock) <==> i == w.1
                    &&& s[i] is Start ==> (s[i]->Start_0.measured <==> i < w.0) && i < w.1
                }
        }),
{
    (7, 10)
}

/// The side that binds is given time before the others are started: right after
/// the first start a script sleeps, for a fifth of a second where there are many
/// peers and 150 milliseconds else.
pub proof fn law_first_process_settles(
    entry: MatrixEntry,
    cell_id: Seq<char>,
    site: Site,
) -> (w: int)
    ensures
        ({
            let s = crate::script::cell_script_of(entry, cell_id, site);
            &&& 0 <= w
            &&& w + 1 < s.len()
            &&& s[w] is Start
            &&& forall|i: int| 0 <= i < s.len() && #[trigger] s[i] is Start ==> w <= i
            &&& s[w + 1] == ActionView::Sleep(
                if crate::script::is_multipeer(entry.kind) {
                    200
                } else {
                    150
                },
            )
        }),
{
    let s = crate::script::cell_script_of(entry, cell_id, site);
    let endpoint = crate::script::endpoint_of(entry, cell_id, site);
    let w = law_processes_have_their_roles(entry, cell_id, site);
    if crate::script::is_multipeer(entry.kind) {
        lemma_multipeer_starts(entry, cell_id, site);
        let starts = if entry.kind == Kind::FanIn {
            crate::script::consumer_binds_starts(entry, endpoint)
        } else {
            crate::script::producer_binds_starts(entry, endpoint)
        };
        assert(s[3] == starts[0] && s[4] == starts[1]);
        assert(s[3] is Start);
        assert forall|i: int| 0 <= i < s.len() && #[trigger] s[i] is Start implies 3 <= i by {}
        3
    } else {
        4
    }
}

/// The seconds that a measured process may take grow with its messages: one for
/// every fifty thousand messages of a throughput cell, warmup and all, and ten at
/// least; one for every twenty thousand round trips, and fifteen at least.
pub proof fn law_budgets_follow_the_messages(entry: MatrixEntry)
    ensures
        ({
            let total = entry.messages + entry.warmup_messages;
            let b = crate::script::throughput_budget_of(entry) as int;
            &&& b >= 10
            &&& b == 10 || 50_000 * b <= total
            &&& total < 50_000 * (b + 1)
        }),
        ({
            let b = crate::script::latency_budget_of(entry) as int;
            &&& b >= 15
            &&& b == 15 || 20_000 * b <= entry.messages
            &&& entry.messages < 20_000 * (b + 1)
        }),
{
}

/// A measured process is waited for as long as its budget says, and with many
/// peers for the window and fifteen seconds more.
pub proof fn law_wait_has_its_budget(
    entry: MatrixEntry,
    cell_id: Seq<char>,
    site: Site,
    i: int,
)
    requires
        0 <= i < crate::script::cell_script_of(entry, cell_id, site).len(),
        crate::script::cell_script_of(entry, cell_id, site)[i] is AwaitMeasured,
        entry.messages + entry.warmup_messages <= u64::MAX,
    ensures
        ({
            let b = crate::script::cell_script_of(entry, cell_id, site)[i]->AwaitMeasured_0;
            match entry.kind {
                Kind::Throughput => b matches Budget::Secs(n) && n
                    == crate::script::throughput_budget_of(entry),
                Kind::Latency => b matches Budget::Secs(n) && n
                    == crate::script::latency_budget_of(entry),
                _ => b == Budget::WindowPlus(15),
            }
        }),
{
    let s = crate::script::cell_script_of(entry, cell_id, site);
    let endpoint = crate::script::endpoint_of(entry, cell_id, site);
    law_budgets_follow_the_messages(entry);
    if crate::script::is_multipeer(entry.kind) {
        lemma_multipeer_starts(entry, cell_id, site);
        let starts = if entry.kind == Kind::FanIn {
            crate::script::consumer_binds_starts(entry, endpoint)
        } else {
            crate::script::producer_binds_starts(entry, endpoint)
        };
        let n = starts.len() as int;
        if 3 <= i < 3 + n {
            assert(s[i] == starts[i - 3]);
        }
        assert(i == n + 5);
    } else {
        assert(i == 9);
    }
}

/// A multi-peer cell has as many workers as its entry asks for, one at least, and
/// one coordinator.
pub proof fn law_workers_are_the_peers(entry: MatrixEntry)
    ensures
        entry.peers matches Some(p) && p >= 1 ==> crate::script::workers_of(entry) == entry.peers->0,
        entry.peers is None || entry.peers == Some(0u32) ==> crate::script::workers_of(entry) == 1,
{
}

/// The endpoint of an ipc cell is the socket file that its script removes, and
/// that of any other the free port on the loopback: what a target splits off the
/// front gives them back.
pub proof fn law_endpoint_is_the_site(entry: MatrixEntry, cell_id: Seq<char>, site: Site)
    ensures
        entry.transport == Transport::Ipc ==> {
            &&& crate::script::socket_of(entry, cell_id, site) is Some
            &&& crate::text::after_prefix(
                crate::script::endpoint_of(entry, cell_id, site),
                "ipc://"@,
            ) == crate::script::socket_of(entry, cell_id, site)
        },
        entry.transport != Transport::Ipc ==> {
            &&& crate::script::socket_of(entry, cell_id, site) is None
            &&& crate::text::after_prefix(
                crate::script::endpoint_of(entry, cell_id, site),
                "tcp://127.0.0.1:"@,
            ) matches Some(port)
            &&& crate::number::unsigned_of(port) == Some(site.port as nat)
        },
{
    let e = crate::script::endpoint_of(entry, cell_id, site);
    if entry.transport == Transport::Ipc {
        crate::target::law_endpoints_read_back(crate::script::socket_path(site, cell_id));
    } else {
        reveal_strlit("tcp://127.0.0.1:");
        let d = crate::number::decimal_of(site.port as nat);
        crate::number::law_decimal_reads_back(site.port as nat);
        let n = "tcp://127.0.0.1:"@.len() as int;
        assert(e.subrange(0, n) =~= "tcp://127.0.0.1:"@);
        assert(e.skip(n) =~= d);
    }
}

/// Two cells with names of their own have socket files of their own, in the same
/// directory.
pub proof fn law_sockets_are_distinct(site: Site, a: Seq<char>, b: Seq<char>)
    requires
        a != b,
    ensures
        crate::script::socket_path(site, a) != crate::script::socket_path(site, b),
{
    reveal_strlit("zmq-arena-");
    reveal_strlit(".sock");
    reveal_strlit("/");
    let x = crate::script::socket_path(site, a);
    let y = crate::script::socket_path(site, b);
    let p = "zmq-arena-"@ + a + ".sock"@;
    let q = "zmq-arena-"@ + b + ".sock"@;
    assert(p[0] == 'z' && q[0] == 'z');
    if x == y {
        let n = x.len() - p.len();
        assert(p.len() == q.len());
        assert(x.skip(n) =~= p);
        assert(y.skip(n) =~= q);
        assert(p.subrange(10, 10 + a.len() as int) =~= a);
        assert(q.subrange(10, 10 + b.len() as int) =~= b);
    }
}

/// Which cells can be run: those over tcp, and over ipc those of two processes.
pub proof fn law_what_can_be_run(entry: MatrixEntry)
    ensures
        crate::script::refusal_of(entry) is None <==> match entry.transport {
            Transport::TcpNetns => true,
            Transport::Ipc => entry.kind == Kind::Throughput || entry.kind == Kind::Latency,
            Transport::Inproc => false,
        },
{
}

/// A script over characters says what the script does, action by action, and of
/// every process what it is started with.
pub proof fn law_view_keeps_the_script(s: Seq<Action>, i: int)
    requires
        0 <= i < s.len(),
    ensures
        crate::script::script_view(s).len() == s.len(),
        match s[i] {
            Action::MakeLeaf(l, n) => crate::script::script_view(s)[i] == ActionView::MakeLeaf(
                l,
                n@,
            ),
            Action::Start(p) => crate::script::script_view(s)[i] matches ActionView::Start(v) && {
                &&& v.measured == p.measured
                &&& v.args.len() == p.args@.len()
                &&& forall|k: int| 0 <= k < p.args@.len() ==> #[trigger] v.args[k] == p.args@[k]@
                &&& v.context == p.context@
                &&& v.stdout == p.stdout
                &&& v.quiet == p.quiet
                &&& v.leaf == p.leaf
            },
            Action::Sleep(ms) => crate::script::script_view(s)[i] == ActionView::Sleep(ms),
            Action::AwaitMeasured(b) => crate::script::script_view(s)[i]
                == ActionView::AwaitMeasured(b),
            Action::AwaitOthers(n) => crate::script::script_view(s)[i] == ActionView::AwaitOthers(
                n,
            ),
            Action::RemoveSocket(Some(p)) => crate::script::script_view(s)[i]
                == ActionView::RemoveSocket(Some(p@)),
            Action::RemoveSocket(None) => crate::script::script_view(s)[i]
                == ActionView::RemoveSocket(None),
            Action::LeafMemory(l) => crate::script::script_view(s)[i] == ActionView::LeafMemory(l),
            Action::UsageBefore => crate::script::script_view(s)[i] == ActionView::UsageBefore,
            Action::OpenProbe => crate::script::script_view(s)[i] == ActionView::OpenProbe,
            Action::StartClock => crate::script::script_view(s)[i] == ActionView::StartClock,
            Action::StopClock => crate::script::script_view(s)[i] == ActionView::StopClock,
            Action::ReadProbe => crate::script::script_view(s)[i] == ActionView::ReadProbe,
            Action::ReadOutput => crate::script::script_view(s)[i] == ActionView::ReadOutput,
            Action::KillOthers => crate::script::script_view(s)[i] == ActionView::KillOthers,
            Action::UsageAfter => crate::script::script_view(s)[i] == ActionView::UsageAfter,
        },
{
}

/// The socket file of a cell is in the directory for temporary files, under the
/// name of the cell.
pub proof fn law_socket_is_in_the_temp_dir(site: Site, cell_id: Seq<char>)
    requires
        site.temp_dir@.len() > 0,
        site.temp_dir@.last() != '/',
    ensures
        crate::script::socket_path(site, cell_id) == site.temp_dir@ + "/zmq-arena-"@ + cell_id
            + ".sock"@,
{
    reveal_strlit("zmq-arena-");
    reveal_strlit("/zmq-arena-");
    reveal_strlit("/");
    let name = "zmq-arena-"@ + cell_id + ".sock"@;
    assert(name[0] == 'z');
    assert(site.temp_dir@ + "/"@ + name =~= site.temp_dir@ + "/zmq-arena-"@ + cell_id
        + ".sock"@);
}

/// The probe is opened once the measured process has had time to start its
/// threads: 120 milliseconds after the client of a latency cell, 150 in any other
/// cell.
pub proof fn law_probe_waits_for_threads(
    entry: MatrixEntry,
    cell_id: Seq<char>,
    site: Site,
    i: int,
)
    requires
        0 <= i < crate::script::cell_script_of(entry, cell_id, site).len(),
        crate::script::cell_script_of(entry, cell_id, site)[i] == ActionView::OpenProbe,
    ensures
        i > 0,
        crate::script::cell_script_of(entry, cell_id, site)[i - 1] == ActionView::Sleep(
            if entry.kind == Kind::Latency {
                120
            } else {
                150
            },
        ),
{
    let s = crate::script::cell_script_of(entry, cell_id, site);
    let endpoint = crate::script::endpoint_of(entry, cell_id, site);
    if crate::script::is_multipeer(entry.kind) {
        lemma_multipeer_starts(entry, cell_id, site);
        let starts = if entry.kind == Kind::FanIn {
            crate::script::consumer_binds_starts(entry, endpoint)
        } else {
            crate::script::producer_binds_starts(entry, endpoint)
        };
        if 3 <= i < 3 + starts.len() {
            assert(s[i] == starts[i - 3]);
        }
    }
}

/// What the processes that are not measured may write: consumers that only drain
/// write nothing that is seen, and the others write where the harness does. With
/// many peers those that are started after the first make no noise.
pub proof fn law_others_write_as_they_may(
    entry: MatrixEntry,
    cell_id: Seq<char>,
    site: Site,
    i: int,
)
    requires
        0 <= i < crate::script::cell_script_of(entry, cell_id, site).len(),
        crate::script::cell_script_of(entry, cell_id, site)[i] is Start,
        !crate::script::cell_script_of(entry, cell_id, site)[i]->Start_0.measured,
    ensures
        ({
            let p = crate::script::cell_script_of(entry, cell_id, site)[i]->Start_0;
            &&& p.stdout == (if crate::script::is_multipeer(entry.kind) && p.leaf == Leaf::Sub {
                Output::Null
            } else {
                Output::Inherit
            })
            &&& p.quiet <==> crate::script::is_multipeer(entry.kind) && i > 3
            &&& crate::text::begins(p.context, "spawning "@)
            &&& crate::text::ends(p.context, entry.target.binary@)
        }),
{
    let s = crate::script::cell_script_of(entry, cell_id, site);
    let endpoint = crate::script::endpoint_of(entry, cell_id, site);
    let p = s[i]->Start_0;
    if crate::script::is_multipeer(entry.kind) {
        lemma_multipeer_starts(entry, cell_id, site);
        let starts = if entry.kind == Kind::FanIn {
            crate::script::consumer_binds_starts(entry, endpoint)
        } else {
            crate::script::producer_binds_starts(entry, endpoint)
        };
        assert(3 <= i < 3 + starts.len());
        assert(s[i] == starts[i - 3]);
    }
    let front = "spawning "@;
    let binary = entry.target.binary@;
    let n = p.context.len() as int;
    assert(p.context.subrange(0, front.len() as int) =~= front);
    assert(p.context.subrange(n - binary.len(), n) =~= binary);
}

} // verus!
