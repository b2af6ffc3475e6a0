//! What holds of every target: its sockets and its work, what it serves, and how
//! it reads its knobs, its arguments and its lock file.
use vstd::prelude::*;
use crate::config::Kind;
use crate::loops::{Drain, OnError, Style};
use crate::target::{Backend, Engine, Role, Socket, Work};

verus! {

/// Which sockets a kind is made of: a request and its reply where round trips are
/// timed, a publisher and its subscribers, and else a pipeline. The producer has
/// the sending end.
pub proof fn law_kinds_have_their_pattern(kind: Kind)
    ensures
        kind == Kind::Latency <==> crate::target::socket_of(kind, Role::Pub) == Socket::Req,
        kind == Kind::Latency <==> crate::target::socket_of(kind, Role::Sub) == Socket::Rep,
        kind == Kind::PubSub <==> crate::target::socket_of(kind, Role::Pub) == Socket::Publish,
        kind == Kind::PubSub <==> crate::target::socket_of(kind, Role::Sub) == Socket::Subscribe,
        kind != Kind::Latency && kind != Kind::PubSub <==> crate::target::socket_of(
            kind,
            Role::Pub,
        ) == Socket::Push,
        kind != Kind::Latency && kind != Kind::PubSub <==> crate::target::socket_of(
            kind,
            Role::Sub,
        ) == Socket::Pull,
{
}

/// The one that binds is the side of which there is one: the producer where one
/// faces many consumers, and the consumer, or the server, in every other kind.
pub proof fn law_single_side_binds(kind: Kind)
    ensures
        crate::target::binding_role(kind) == Role::Pub <==> kind == Kind::PubSub || kind
            == Kind::FanOut,
{
}

/// Whatever the engine, a producer sends, but for the client of a latency cell,
/// and a consumer receives, but for the server, which echoes; and each does what
/// its kind is about.
pub proof fn law_roles_have_their_work(
    engine: Engine,
    kind: Kind,
    total: int,
    peers: Option<u32>,
)
    ensures
        ({
            let p = crate::target::work_of(engine, kind, Role::Pub, total, peers);
            let s = crate::target::work_of(engine, kind, Role::Sub, total, peers);
            &&& p is RoundTrips <==> kind == Kind::Latency
            &&& s is Echo <==> kind == Kind::Latency
            &&& kind != Kind::Latency ==> p is SendCount || p is SendForever
            &&& p is SendCount ==> kind == Kind::Throughput
            &&& (s is ReceiveAll || s is Measure) <==> kind == Kind::Throughput
            &&& s is Count <==> kind == Kind::PubSub || kind == Kind::FanOut || kind == Kind::FanIn
        }),
{
}

/// How the engines differ in a throughput cell. The producers of the synchronous
/// binding, of zmq.rs and of monocoque send the count, those of the others until
/// they are killed. The consumer of the synchronous binding reports nothing; that
/// of tmq is a stream, and that of monocoque drains.
pub proof fn law_engines_in_a_throughput_cell(engine: Engine, total: int, peers: Option<u32>)
    requires
        0 <= total <= u64::MAX,
    ensures
        ({
            let p = crate::target::work_of(engine, Kind::Throughput, Role::Pub, total, peers);
            let s = crate::target::work_of(engine, Kind::Throughput, Role::Sub, total, peers);
            &&& p is SendCount <==> engine == Engine::RustZmq || engine == Engine::ZmqRs
                || engine is Monocoque
            &&& p matches Work::SendCount { total: n, .. } ==> n == total
            &&& s is ReceiveAll <==> engine == Engine::RustZmq
            &&& s matches Work::ReceiveAll { total: n } ==> n == total
            &&& s == (Work::Measure { style: Style::Stream }) <==> engine == Engine::Tmq
            &&& s == (Work::Measure { style: Style::Draining }) <==> engine is Monocoque
        }),
{
}

/// Coalesced writes are monocoque's alone: it flushes every 64 messages per worker,
/// in the pipelines and nowhere else.
pub proof fn law_only_pipelines_are_batched(engine: Engine, kind: Kind, peers: Option<u32>)
    ensures
        crate::target::batch_of(engine, kind, peers) != 0 <==> engine is Monocoque && (kind
            == Kind::Throughput || kind == Kind::FanOut || kind == Kind::FanIn),
        engine is Monocoque && (kind == Kind::Throughput || kind == Kind::FanIn)
            ==> crate::target::batch_of(engine, kind, peers) == 64,
        engine is Monocoque && kind == Kind::FanOut ==> (match peers {
            Some(p) if p >= 1 => crate::target::batch_of(engine, kind, peers) == 64 * p,
            _ => crate::target::batch_of(engine, kind, peers) == 64,
        }),
{
}

/// How the engines count: only the synchronous binding fails where its peer is
/// gone unheard; omq drains, within the window where it blocks, and so does
/// monocoque in the pipelines.
pub proof fn law_engines_that_count(engine: Engine, kind: Kind, total: int, peers: Option<u32>)
    requires
        kind == Kind::PubSub || kind == Kind::FanOut || kind == Kind::FanIn,
    ensures
        crate::target::work_of(engine, kind, Role::Sub, total, peers) matches Work::Count {
            drain,
            must_hear,
        } && {
            &&& must_hear <==> engine == Engine::RustZmq
            &&& drain == Drain::InTime <==> engine == Engine::OmqBlocking || (engine is Monocoque
                && kind == Kind::FanIn)
            &&& drain == Drain::Freely <==> engine == Engine::OmqTokio || (engine is Monocoque
                && kind == Kind::FanOut)
        },
        crate::target::work_of(engine, kind, Role::Pub, total, peers) matches Work::SendForever {
            on_error,
            ..
        } && (on_error == OnError::Ignore <==> engine is Monocoque) && on_error != OnError::Fail,
{
}

/// What the server makes of an error: every engine but monocoque ends where the
/// client is gone, and the synchronous binding and monocoque give up where a reply
/// cannot be sent.
pub proof fn law_servers_end_with_the_client(engine: Engine, total: int, peers: Option<u32>)
    ensures
        crate::target::work_of(engine, Kind::Latency, Role::Sub, total, peers) matches Work::Echo {
            on_receive_error,
            on_send_error,
        } && {
            &&& on_receive_error == (if engine is Monocoque {
                OnError::Fail
            } else {
                OnError::Stop
            })
            &&& on_send_error == (if engine is Monocoque || engine == Engine::RustZmq {
                OnError::Fail
            } else {
                OnError::Stop
            })
        },
{
}

/// Every engine serves every kind, but for zmq.rs, which has no fan-out and no
/// fan-in, and celerity, which has no pipeline at all.
pub proof fn law_what_engines_do_not_serve(engine: Engine, kind: Kind)
    ensures
        !crate::target::serves(engine, kind) <==> (engine == Engine::ZmqRs && (kind == Kind::FanOut
            || kind == Kind::FanIn)) || (engine == Engine::Celerity && (kind == Kind::Throughput
            || kind == Kind::FanOut || kind == Kind::FanIn)),
{
}

/// A word stands for a kind only where it is the kind's own.
pub proof fn law_kind_words_are_exact(word: Seq<char>, kind: Kind)
    ensures
        crate::target::kind_named(word) == Some(kind) <==> word == crate::config::kind_token(kind),
{
    crate::target::law_kind_token_reads_back(kind);
}

/// An engine runs a kind over an endpoint exactly where the word is a kind's, the
/// engine serves it, and it runs over tcp where that has many peers; omq asks for
/// no transport.
pub proof fn law_when_an_engine_runs(engine: Engine, word: Seq<char>, ep: Seq<char>)
    ensures
        crate::target::refusal_of(engine, word, ep) is None <==> {
            &&& crate::target::kind_named(word) is Some
            &&& crate::target::serves(engine, crate::target::kind_named(word)->0)
            &&& crate::target::kind_named(word) == Some(Kind::Throughput)
                || crate::target::kind_named(word) == Some(Kind::Latency) || crate::text::begins(
                ep,
                "tcp://"@,
            ) || engine == Engine::OmqTokio || engine == Engine::OmqBlocking
        },
{
}

/// A setting reads back: of `key=value`, where the key holds no `=`, these two,
/// without white space around them. The value may hold more of them.
pub proof fn law_settings_read_back(key: Seq<char>, value: Seq<char>)
    requires
        !key.contains('='),
    ensures
        crate::target::knob_parts(key + seq!['='] + value) == Some(
            (crate::text::trimmed(key), crate::text::trimmed(value)),
        ),
        crate::target::knob_parts(key) is None,
{
    crate::text_laws::law_split_undoes_joining(key, '=', value);
}

/// Of several settings of one key the last one counts.
pub proof fn law_last_setting_counts(list: Seq<(String, String)>, i: int)
    requires
        0 <= i < list.len(),
        forall|j: int| i < j < list.len() ==> (#[trigger] list[j]).0@ != list[i].0@,
    ensures
        crate::target::knobs_of(list).dom().contains(list[i].0@),
        crate::target::knobs_of(list)[list[i].0@] == list[i].1,
    decreases list.len(),
{
    let rest = list.drop_last();
    if i < rest.len() {
        assert(rest[i] == list[i]);
        assert forall|j: int| i < j < rest.len() implies (#[trigger] rest[j]).0@ != rest[i].0@ by {
            assert(list[j].0@ != list[i].0@);
        }
        law_last_setting_counts(rest, i);
        assert(list[list.len() - 1].0@ != list[i].0@);
    }
}

/// A key that no setting names is not set.
pub proof fn law_unset_keys_are_missing(list: Seq<(String, String)>, key: Seq<char>)
    requires
        forall|j: int| 0 <= j < list.len() ==> (#[trigger] list[j]).0@ != key,
    ensures
        !crate::target::knobs_of(list).dom().contains(key),
    decreases list.len(),
{
    if list.len() > 0 {
        let rest = list.drop_last();
        assert forall|j: int| 0 <= j < rest.len() implies (#[trigger] rest[j]).0@ != key by {
            assert(list[j].0@ != key);
        }
        law_unset_keys_are_missing(rest, key);
        assert(list[list.len() - 1].0@ != key);
    }
}

/// A variable of the environment sets a knob exactly where its name begins with
/// `ARENA_KNOB_`; the key is the rest of the name in lower case, and its last
/// variable counts.
pub proof fn law_environment_sets_knobs(
    vars: Seq<(String, String)>,
    name: String,
    value: String,
    rest: Seq<char>,
)
    ensures
        name@ == "ARENA_KNOB_"@ + rest ==> crate::target::env_knobs_of(vars.push((name, value)))
            == crate::target::env_knobs_of(vars).insert(
            rest.map_values(|c: char| crate::text::ascii_lower(c)),
            value,
        ),
        !crate::text::begins(name@, "ARENA_KNOB_"@) ==> crate::target::env_knobs_of(
            vars.push((name, value)),
        ) == crate::target::env_knobs_of(vars),
        crate::target::env_knobs_of(Seq::empty()) == Map::<Seq<char>, String>::empty(),
{
    assert(vars.push((name, value)).drop_last() =~= vars);
    if name@ == "ARENA_KNOB_"@ + rest {
        let key = "ARENA_KNOB_"@;
        assert(name@.subrange(0, key.len() as int) =~= key);
        assert(name@.skip(key.len() as int) =~= rest);
    }
}

/// On a list of settings the first one of a key counts, as it stands behind the
/// first `=`.
pub proof fn law_first_setting_is_looked_up(
    list: Seq<Seq<char>>,
    key: Seq<char>,
    i: int,
    value: Seq<char>,
)
    requires
        0 <= i < list.len(),
        !key.contains('='),
        list[i] == key + seq!['='] + value,
        forall|j: int|
            0 <= j < i ==> (match crate::text::parts_at(#[trigger] list[j], '=') {
                Some(p) => p.0 != key,
                None => true,
            }),
    ensures
        crate::target::knob_of(list, key) == Some(value),
{
    crate::text_laws::law_split_undoes_joining(key, '=', value);
    lemma_first_setting_is(list, key, 0, i);
}

proof fn lemma_first_setting_is(list: Seq<Seq<char>>, key: Seq<char>, from: int, i: int)
    requires
        0 <= from <= i <= list.len(),
        i < list.len() ==> crate::target::sets(list[i], key),
        forall|j: int| from <= j < i ==> !crate::target::sets(#[trigger] list[j], key),
    ensures
        crate::target::first_setting(list, key, from) == i,
    decreases i - from,
{
    if from < i {
        assert(!crate::target::sets(list[from], key));
        lemma_first_setting_is(list, key, from + 1, i);
    }
}

/// The publisher has as many workers as its knob says, on the command line or else
/// in the environment, and one where it says nothing that is a number.
pub proof fn law_workers_are_as_set(
    vars: Seq<(String, String)>,
    list: Seq<Seq<char>>,
    n: nat,
)
    requires
        n <= u64::MAX,
    ensures
        crate::target::knob_of(list, "pub_workers"@) == Some(crate::number::decimal_of(n))
            ==> crate::target::workers_of(vars, list) == n,
        crate::target::knob_of(list, "pub_workers"@) is None
            && crate::target::env_knobs_of(vars).dom().contains("pub_workers"@)
            && crate::target::env_knobs_of(vars)["pub_workers"@]@ == crate::number::decimal_of(n)
            ==> crate::target::workers_of(vars, list) == n,
        crate::target::knob_of(list, "pub_workers"@) is None
            && !crate::target::env_knobs_of(vars).dom().contains("pub_workers"@)
            ==> crate::target::workers_of(vars, list) == 1,
{
    crate::number::law_decimal_reads_back(n);
}

/// A flag's value is the argument right behind its first occurrence.
pub proof fn law_value_is_behind_its_flag(
    front: Seq<Seq<char>>,
    flag: Seq<char>,
    value: Seq<char>,
    rest: Seq<Seq<char>>,
)
    requires
        !front.contains(flag),
    ensures
        crate::target::value_of(front + seq![flag, value] + rest, flag) == Some(value),
        crate::target::value_of(front, flag) is None,
        crate::target::value_of(front.push(flag), flag) is None,
{
    let args = front + seq![flag, value] + rest;
    let n = front.len() as int;
    assert forall|k: int| 0 <= k < n implies args[k] != flag && front[k] != flag
        && front.push(flag)[k] != flag by {
        assert(args[k] == front[k]);
        assert(front.contains(front[k]));
    }
    assert(args[n] == flag && args[n + 1] == value);
    lemma_first_equal_is(args, flag, 0, n);
    lemma_first_equal_is(front, flag, 0, n);
    lemma_first_equal_is(front.push(flag), flag, 0, n);
}

proof fn lemma_first_equal_is(args: Seq<Seq<char>>, flag: Seq<char>, i: int, j: int)
    requires
        0 <= i <= j <= args.len(),
        j < args.len() ==> args[j] == flag,
        forall|k: int| i <= k < j ==> args[k] != flag,
    ensures
        crate::target::first_equal(args, flag, i) == j,
    decreases j - i,
{
    if i < j {
        lemma_first_equal_is(args, flag, i + 1, j);
    }
}

/// From two mebibytes on the socket buffers hold two payloads; below that they are
/// the engine's own.
pub proof fn law_buffers_hold_two_payloads(payload_bytes: u32)
    ensures
        crate::target::buffers_of(payload_bytes) is Some <==> payload_bytes >= 2_097_152,
        crate::target::buffers_of(payload_bytes) matches Some(n) ==> n == payload_bytes
            + payload_bytes,
{
}

proof fn lemma_version_line(
    all: Seq<Seq<char>>,
    name: Seq<char>,
    from: int,
    j: int,
    version: Seq<char>,
)
    requires
        0 <= from <= j < all.len(),
        crate::text::trimmed(all[j]) == "version = \""@ + version + "\""@,
        version.len() > 0 ==> version.last() != '"',
        forall|k: int|
            from <= k < j ==> !crate::text::begins(
                crate::text::trimmed(#[trigger] all[k]),
                "version = \""@,
            ),
    ensures
        crate::target::version_from(all, name, true, from) == Some(version),
    decreases j - from,
{
    reveal_strlit("version = \"");
    reveal_strlit("name = \"");
    reveal_strlit("\"");
    if from < j {
        assert(!crate::text::begins(crate::text::trimmed(all[from]), "version = \""@));
        lemma_version_line(all, name, from + 1, j, version);
    } else {
        let line = crate::text::trimmed(all[j]);
        let key = "version = \""@;
        assert(line.subrange(0, key.len() as int) =~= key);
        assert(line[0] == 'v');
        assert(("name = \""@ + name + "\""@)[0] == 'n');
        let rest = version.push('"');
        assert(line.skip(key.len() as int) =~= rest);
        assert(rest.drop_last() =~= version);
        reveal_with_fuel(crate::target::without_quotes, 2);
        assert(crate::target::without_quotes(rest) == version);
    }
}

/// The version of a package is the one that the lock file states next behind the
/// package's name.
pub proof fn law_version_is_behind_the_name(
    lock: Seq<char>,
    name: Seq<char>,
    i: int,
    j: int,
    version: Seq<char>,
)
    requires
        0 <= i < j < crate::text::lines_of(lock).len(),
        crate::text::trimmed(crate::text::lines_of(lock)[i]) == "name = \""@ + name + "\""@,
        crate::text::trimmed(crate::text::lines_of(lock)[j]) == "version = \""@ + version + "\""@,
        version.len() > 0 ==> version.last() != '"',
        forall|k: int|
            0 <= k < i ==> crate::text::trimmed(#[trigger] crate::text::lines_of(lock)[k])
                != "name = \""@ + name + "\""@,
        forall|k: int|
            i < k < j ==> !crate::text::begins(
                crate::text::trimmed(#[trigger] crate::text::lines_of(lock)[k]),
                "version = \""@,
            ),
    ensures
        crate::target::version_in(lock, name) == Some(version),
{
    let all = crate::text::lines_of(lock);
    lemma_name_line(all, name, 0, i);
    lemma_version_line(all, name, i + 1, j, version);
}

proof fn lemma_name_line(all: Seq<Seq<char>>, name: Seq<char>, from: int, i: int)
    requires
        0 <= from <= i < all.len(),
        crate::text::trimmed(all[i]) == "name = \""@ + name + "\""@,
        forall|k: int|
            from <= k < i ==> crate::text::trimmed(#[trigger] all[k]) != "name = \""@ + name
                + "\""@,
    ensures
        crate::target::version_from(all, name, false, from) == crate::target::version_from(
            all,
            name,
            true,
            i + 1,
        ),
    decreases i - from,
{
    if from < i {
        assert(crate::text::trimmed(all[from]) != "name = \""@ + name + "\""@);
        lemma_name_line(all, name, from + 1, i);
    }
}

/// A version is its three numbers with a point between each two.
pub proof fn law_version_reads_back(v: (i32, i32, i32))
    requires
        v.0 >= 0,
        v.1 >= 0,
    ensures
        ({
            let s = crate::target::dotted_of(v);
            &&& crate::text::parts_at(s, '.') matches Some(p)
            &&& crate::number::signed_of(p.0) == Some(v.0 as int)
            &&& crate::text::parts_at(p.1, '.') matches Some(q)
            &&& crate::number::signed_of(q.0) == Some(v.1 as int)
            &&& crate::number::signed_of(q.1) == Some(v.2 as int)
        }),
{
    reveal_strlit(".");
    let a = crate::number::signed_decimal_of(v.0 as int);
    let b = crate::number::signed_decimal_of(v.1 as int);
    let c = crate::number::signed_decimal_of(v.2 as int);
    lemma_no_point(v.0 as nat);
    lemma_no_point(v.1 as nat);
    crate::number::law_signed_decimal_reads_back(v.0 as int);
    crate::number::law_signed_decimal_reads_back(v.1 as int);
    crate::number::law_signed_decimal_reads_back(v.2 as int);
    let rest = b + seq!['.'] + c;
    assert(crate::target::dotted_of(v) =~= a + seq!['.'] + rest);
    crate::text_laws::law_split_undoes_joining(a, '.', rest);
    crate::text_laws::law_split_undoes_joining(b, '.', c);
}

proof fn lemma_no_point(n: nat)
    ensures
        !crate::number::decimal_of(n).contains('.'),
{
    let d = crate::number::decimal_of(n);
    crate::number::lemma_decimal_digits(n);
    if d.contains('.') {
        let i = choose|i: int| 0 <= i < d.len() && d[i] == '.';
        assert(crate::number::is_digit(d[i]));
    }
}

proof fn lemma_holds_more(p: Seq<char>, x: Seq<char>, w: Seq<char>)
    requires
        crate::text::holds(p, w),
    ensures
        crate::text::holds(p + x, w),
{
    let i = choose|i: int| #[trigger] crate::text::stands_at(p, w, i);
    assert((p + x).subrange(i, i + w.len()) =~= p.subrange(i, i + w.len()));
    assert(crate::text::stands_at(p + x, w, i));
}

proof fn lemma_holds_last(p: Seq<char>, a: Seq<char>, b: Seq<char>)
    ensures
        crate::text::holds(p + a + b, a + b),
{
    let s = p + a + b;
    let n = p.len() as int;
    assert(s.subrange(n, n + (a + b).len()) =~= a + b);
    assert(crate::text::stands_at(s, a + b, n));
}

/// What a target says of itself names its engine and the versions: the engine's
/// own, and the binding's where there is one.
pub proof fn law_description_names_the_versions(d: crate::target::Description)
    ensures
        ({
            let line = crate::target::description_line(d);
            let binding = match d.binding_version {
                Some(v) => "\""@ + v@ + "\""@,
                None => "null"@,
            };
            &&& crate::text::holds(line, "{\"engine\":"@ + ("\""@ + d.engine@ + "\""@))
            &&& crate::text::holds(line, ",\"lib_version\":"@ + ("\""@ + d.lib_version@ + "\""@))
            &&& crate::text::holds(line, ",\"binding_version\":"@ + binding)
        }),
{
    let q0 = crate::target::in_quotes(d.engine@);
    let q1 = crate::target::in_quotes(d.lib_version@);
    let q2 = crate::target::or_null(crate::text::opt_view(d.binding_version));
    let s0 = "{\"engine\":"@;
    let s1 = ",\"lib_version\":"@;
    let s2 = ",\"binding_version\":"@;
    let p0 = s0 + q0;
    let p1 = p0 + s1 + q1;
    let p2 = p1 + s2 + q2;
    lemma_holds_last(Seq::empty(), s0, q0);
    assert(Seq::<char>::empty() + s0 =~= s0);
    lemma_holds_last(p0, s1, q1);
    lemma_holds_last(p1, s2, q2);
    lemma_holds_more(p0, s1, s0 + q0);
    lemma_holds_more(p0 + s1, q1, s0 + q0);
    lemma_holds_more(p1, s2, s0 + q0);
    lemma_holds_more(p1 + s2, q2, s0 + q0);
    lemma_holds_more(p1, s2, s1 + q1);
    lemma_holds_more(p1 + s2, q2, s1 + q1);
    lemma_rest_of_description(d, p2, s0 + q0);
    lemma_rest_of_description(d, p2, s1 + q1);
    lemma_rest_of_description(d, p2, s2 + q2);
}

// What the first three fields hold, the whole line holds.
proof fn lemma_rest_of_description(d: crate::target::Description, p2: Seq<char>, w: Seq<char>)
    requires
        p2 == "{\"engine\":"@ + crate::target::in_quotes(d.engine@) + ",\"lib_version\":"@
            + crate::target::in_quotes(d.lib_version@) + ",\"binding_version\":"@
            + crate::target::or_null(crate::text::opt_view(d.binding_version)),
        crate::text::holds(p2, w),
    ensures
        crate::text::holds(crate::target::description_line(d), w),
{
    let a = p2 + ",\"lib_language\":"@;
    lemma_holds_more(p2, ",\"lib_language\":"@, w);
    let b = a + crate::target::in_quotes(d.lib_language@);
    lemma_holds_more(a, crate::target::in_quotes(d.lib_language@), w);
    let c = b + ",\"impl\":"@;
    lemma_holds_more(b, ",\"impl\":"@, w);
    let e = c + crate::target::in_quotes(d.implementation@);
    lemma_holds_more(c, crate::target::in_quotes(d.implementation@), w);
    let f = e + ",\"ffi_to\":"@;
    lemma_holds_more(e, ",\"ffi_to\":"@, w);
    let g = f + crate::target::or_null(crate::target::maybe(d.ffi_to));
    lemma_holds_more(f, crate::target::or_null(crate::target::maybe(d.ffi_to)), w);
    let h = g + ",\"language\":\"Rust\",\"concurrency\":"@;
    lemma_holds_more(g, ",\"language\":\"Rust\",\"concurrency\":"@, w);
    let i = h + crate::target::in_quotes(d.concurrency@);
    lemma_holds_more(h, crate::target::in_quotes(d.concurrency@), w);
    let j = i + ",\"threading\":"@;
    lemma_holds_more(i, ",\"threading\":"@, w);
    let k = j + crate::target::in_quotes(d.threading@);
    lemma_holds_more(j, crate::target::in_quotes(d.threading@), w);
    let l = k + ",\"io\":"@;
    lemma_holds_more(k, ",\"io\":"@, w);
    let m = l + crate::target::in_quotes(d.io@);
    lemma_holds_more(l, crate::target::in_quotes(d.io@), w);
    lemma_holds_more(m, "}"@, w);
}

/// What the native engines say of themselves: they have no binding and call into
/// no other language; their version is the one that was looked up; only omq's
/// blocking variant is synchronous; and completion-based I/O is monocoque's on
/// compio and rzmq's variant of that name.
pub proof fn law_native_engines_describe_themselves(
    d: crate::target::Description,
    engine: Engine,
    variant: Seq<char>,
    version: Seq<char>,
)
    requires
        engine != Engine::RustZmq,
        engine != Engine::Tmq,
        crate::target::native_is(d, engine, variant, version),
    ensures
        d.lib_version@ == version,
        d.binding_version is None,
        d.ffi_to is None,
        d.lib_language@ == "Rust"@,
        d.implementation@ == "native"@,
        d.concurrency@ == (if (engine == Engine::OmqTokio || engine == Engine::OmqBlocking)
            && variant == "blocking"@ {
            "sync"@
        } else {
            "async"@
        }),
        d.io@ == (if engine == Engine::Monocoque(Backend::Compio) || (engine == Engine::Rzmq
            && variant == "io_uring"@) {
            "io_uring"@
        } else {
            "epoll"@
        }),
        d.threading@ == (if engine is Monocoque || ((engine == Engine::OmqTokio || engine
            == Engine::OmqBlocking) && variant != "multi_thread"@) {
            "single"@
        } else {
            "multi"@
        }),
        d.engine@ == (match engine {
            Engine::ZmqRs => "zmq.rs"@,
            Engine::Celerity => "celerity"@,
            Engine::Rzmq => "rzmq"@,
            Engine::Monocoque(_) => "monocoque"@,
            _ => "omq"@,
        }),
{
}

/// What libzmq behind a binding says of itself: the library's version and the
/// binding's own are two, and it is reached through C.
pub proof fn law_bindings_describe_the_library(
    d: crate::target::Description,
    version: Seq<char>,
    binding: Seq<char>,
    concurrency: Seq<char>,
)
    requires
        crate::target::is_binding(d, version, binding, concurrency),
    ensures
        d.engine@ == "libzmq"@,
        d.lib_version@ == version,
        d.binding_version matches Some(b) && b@ == binding,
        d.ffi_to matches Some(l) && l@ == "C"@,
        d.implementation@ == "ffi"@,
        d.concurrency@ == concurrency,
{
}

/// A knob that is set to a number is that number, and one that is not set, or set
/// to anything else, is none.
pub proof fn law_numeric_knobs_are_read(
    knobs: Map<Seq<char>, String>,
    key: Seq<char>,
    n: int,
)
    requires
        i32::MIN <= n <= i32::MAX,
    ensures
        knobs.dom().contains(key) && knobs[key]@ == crate::number::signed_decimal_of(n)
            ==> crate::target::knob_number_of(knobs, key) == Some(n),
        !knobs.dom().contains(key) ==> crate::target::knob_number_of(knobs, key) is None,
        knobs.dom().contains(key) && crate::number::signed_of(knobs[key]@) is None
            ==> crate::target::knob_number_of(knobs, key) is None,
{
    crate::number::law_signed_decimal_reads_back(n);
}

/// A producer flushes the batches of its engine and kind, whether it sends a count
/// or until it is killed.
pub proof fn law_producers_flush_their_batches(
    engine: Engine,
    kind: Kind,
    total: int,
    peers: Option<u32>,
)
    requires
        kind != Kind::Latency,
    ensures
        match crate::target::work_of(engine, kind, Role::Pub, total, peers) {
            Work::SendCount { flush_every, .. } => flush_every == crate::target::batch_of(
                engine,
                kind,
                peers,
            ),
            Work::SendForever { flush_every, on_error } => {
                &&& flush_every == crate::target::batch_of(engine, kind, peers)
                &&& kind == Kind::Throughput ==> on_error == OnError::Stop
            },
            _ => false,
        },
{
}

/// A key that no setting of a list names is not found in it, and the publisher has
/// one worker where its knob is anything but a number.
pub proof fn law_unnamed_keys_are_not_found(
    vars: Seq<(String, String)>,
    list: Seq<Seq<char>>,
    key: Seq<char>,
    v: Seq<char>,
)
    requires
        forall|j: int|
            0 <= j < list.len() ==> (match crate::text::parts_at(#[trigger] list[j], '=') {
                Some(p) => p.0 != key,
                None => true,
            }),
    ensures
        crate::target::knob_of(list, key) is None,
        crate::target::knob_of(list, "pub_workers"@) == Some(v) && crate::number::unsigned_of(
            v,
        ) is None ==> crate::target::workers_of(vars, list) == 1,
{
    lemma_first_setting_is(list, key, 0, list.len() as int);
}

/// A package that the lock file does not name has no version there, whatever
/// versions are stated.
pub proof fn law_unnamed_packages_have_no_version(lock: Seq<char>, name: Seq<char>)
    requires
        forall|k: int|
            0 <= k < crate::text::lines_of(lock).len() ==> crate::text::trimmed(
                #[trigger] crate::text::lines_of(lock)[k],
            ) != "name = \""@ + name + "\""@,
    ensures
        crate::target::version_in(lock, name) is None,
{
    lemma_never_named(crate::text::lines_of(lock), name, 0);
}

proof fn lemma_never_named(all: Seq<Seq<char>>, name: Seq<char>, from: int)
    requires
        0 <= from <= all.len(),
        forall|k: int|
            from <= k < all.len() ==> crate::text::trimmed(#[trigger] all[k]) != "name = \""@ + name
                + "\""@,
    ensures
        crate::target::version_from(all, name, false, from) is None,
    decreases all.len() - from,
{
    if from < all.len() {
        assert(crate::text::trimmed(all[from]) != "name = \""@ + name + "\""@);
        lemma_never_named(all, name, from + 1);
    }
}

proof fn lemma_then(p: Seq<char>, t: Seq<char>, x: Seq<char>)
    ensures
        p + t + x == p + (t + x),
{
    assert(p + t + x =~= p + (t + x));
}

/// What a target says of itself classifies it, behind its versions and in a fixed
/// order: the language of the library, how it is reached and through which
/// language, and how it waits, how many threads it has and how it does its I/O.
pub proof fn law_description_classifies(d: crate::target::Description) -> (front: Seq<char>)
    ensures
        ({
            let through = match d.ffi_to {
                Some(l) => "\""@ + l@ + "\""@,
                None => "null"@,
            };
            crate::target::description_line(d) == front + (",\"lib_language\":"@ + ("\""@
                + d.lib_language@ + "\""@) + ",\"impl\":"@ + ("\""@ + d.implementation@ + "\""@)
                + ",\"ffi_to\":"@ + through + ",\"language\":\"Rust\",\"concurrency\":"@ + ("\""@
                + d.concurrency@ + "\""@) + ",\"threading\":"@ + ("\""@ + d.threading@ + "\""@)
                + ",\"io\":"@ + ("\""@ + d.io@ + "\""@) + "}"@)
        }),
{
    let p = "{\"engine\":"@ + crate::target::in_quotes(d.engine@) + ",\"lib_version\":"@
        + crate::target::in_quotes(d.lib_version@) + ",\"binding_version\":"@
        + crate::target::or_null(crate::text::opt_view(d.binding_version));
    let t0 = ",\"lib_language\":"@;
    let x1 = crate::target::in_quotes(d.lib_language@);
    let x2 = ",\"impl\":"@;
    let x3 = crate::target::in_quotes(d.implementation@);
    let x4 = ",\"ffi_to\":"@;
    let x5 = crate::target::or_null(crate::target::maybe(d.ffi_to));
    let x6 = ",\"language\":\"Rust\",\"concurrency\":"@;
    let x7 = crate::target::in_quotes(d.concurrency@);
    let x8 = ",\"threading\":"@;
    let x9 = crate::target::in_quotes(d.threading@);
    let x10 = ",\"io\":"@;
    let x11 = crate::target::in_quotes(d.io@);
    let t1 = t0 + x1;
    lemma_then(p, t0, x1);
    let t2 = t1 + x2;
    lemma_then(p, t1, x2);
    let t3 = t2 + x3;
    lemma_then(p, t2, x3);
    let t4 = t3 + x4;
    lemma_then(p, t3, x4);
    let t5 = t4 + x5;
    lemma_then(p, t4, x5);
    let t6 = t5 + x6;
    lemma_then(p, t5, x6);
    let t7 = t6 + x7;
    lemma_then(p, t6, x7);
    let t8 = t7 + x8;
    lemma_then(p, t7, x8);
    let t9 = t8 + x9;
    lemma_then(p, t8, x9);
    let t10 = t9 + x10;
    lemma_then(p, t9, x10);
    let t11 = t10 + x11;
    lemma_then(p, t10, x11);
    lemma_then(p, t11, "}"@);
    p
}

} // verus!
