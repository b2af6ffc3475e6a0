//! One cell of the matrix: what it is called, what its targets are started
//! with, and how their reports are read.
use vstd::prelude::*;
use crate::config::MatrixEntry;
use crate::number::{decimal, parse_u64, reads_as_number};
use crate::telemetry::LatencySnapshot;
use crate::text::{join, lines, or_text, push_string, push_text, same, words};

verus! {

/// What `str::to_lowercase` makes of a text.
pub uninterp spec fn lowercased(s: Seq<char>) -> Seq<char>;

/// `str::to_lowercase`: the result depends on the text alone. An ASCII character
/// becomes one character, whatever stands around it: `A` to `Z` become `a` to
/// `z`, and the others stay. So a text of ASCII characters is mapped one by one,
/// and where the end of a text is ASCII, the result ends in that end so mapped.
/// No other character becomes one of `A` to `Z`, so the result holds none.
#[verifier::external_body]
fn lowercase(s: &str) -> (r: String)
    ensures
        r@ == lowercased(s@),
        crate::text::all_ascii(s@) ==> r@ == s@.map_values(|c: char| crate::text::ascii_lower(c)),
        forall|i: int|
            0 <= i <= s@.len() && crate::text::all_ascii(#[trigger] s@.skip(i))
                ==> crate::text::ends(
                r@,
                s@.skip(i).map_values(|c: char| crate::text::ascii_lower(c)),
            ),
        no_capital(r@),
{
    s.to_lowercase()
}

/// Whether none of the letters `A` to `Z` is in a text.
pub open spec fn no_capital(s: Seq<char>) -> bool {
    forall|i: int| 0 <= i < s.len() ==> !('A' <= #[trigger] s[i] <= 'Z')
}

/// The decimal of `n`, with zeros in front where it has fewer than three digits.
pub open spec fn padded_of(n: nat) -> Seq<char> {
    let d = crate::number::decimal_of(n);
    if d.len() == 1 {
        "00"@ + d
    } else if d.len() == 2 {
        "0"@ + d
    } else {
        d
    }
}

/// The decimal of `n`, with zeros in front where it has fewer than three digits.
pub fn padded(n: u64) -> (r: String)
    ensures
        r@ == padded_of(n as nat),
{
    let d = decimal(n);
    proof {
        lemma_digits(n as nat);
    }
    if n < 10 {
        let mut s = "00".to_owned();
        s.append(d.as_str());
        s
    } else if n < 100 {
        let mut s = "0".to_owned();
        s.append(d.as_str());
        s
    } else {
        d
    }
}

proof fn lemma_digits(n: nat)
    ensures
        crate::number::decimal_of(n).len() > 0,
        (crate::number::decimal_of(n).len() == 1) == (n < 10),
        (crate::number::decimal_of(n).len() == 2) == (10 <= n < 100),
{
    crate::number::lemma_decimal_digits(n);
    if n >= 10 {
        crate::number::lemma_decimal_digits(n / 10);
        if n >= 100 {
            crate::number::lemma_decimal_digits(n / 100);
            assert((n / 10) / 10 == n / 100);
        }
    }
}

/// The peers of an entry, none taken as zero.
pub open spec fn peers_of(entry: MatrixEntry) -> nat {
    match entry.peers {
        Some(p) => p as nat,
        None => 0,
    }
}

/// A cell's name before it is put in lower case.
pub open spec fn cell_name(entry: MatrixEntry, index: nat) -> Seq<char> {
    entry.target.id@ + "-"@ + crate::config::transport_name(entry.transport) + "-"@
        + crate::config::kind_name(entry.kind) + "-"@ + crate::number::decimal_of(
        entry.payload_bytes as nat,
    ) + "b-p"@ + crate::number::decimal_of(peers_of(entry)) + "-"@ + padded_of(index)
}

/// What the name of the cell that stands at `index` ends in.
pub open spec fn cell_tail(index: nat) -> Seq<char> {
    "-"@ + padded_of(index)
}

/// The name of the cell that stands at `index` in the matrix.
pub fn cell_id(entry: &MatrixEntry, index: usize) -> (r: String)
    ensures
        r@ == lowercased(cell_name(*entry, index as nat)),
        crate::text::ends(r@, cell_tail(index as nat)),
        no_capital(r@),
        crate::text::all_ascii(entry.target.id@) ==> r@ == cell_name(*entry, index as nat).map_values(
            |c: char| crate::text::ascii_lower(c),
        ),
{
    let mut s = entry.target.id.clone();
    s.append("-");
    s.append(entry.transport.name());
    s.append("-");
    s.append(entry.kind.name());
    s.append("-");
    s.append(decimal(entry.payload_bytes as u64).as_str());
    s.append("b-p");
    let peers: u64 = match entry.peers {
        Some(p) => p as u64,
        None => 0,
    };
    s.append(decimal(peers).as_str());
    s.append("-");
    s.append(padded(index as u64).as_str());
    assert(s@ == cell_name(*entry, index as nat));
    proof {
        if crate::text::all_ascii(entry.target.id@) {
            lemma_cell_name_ascii(*entry, index as nat);
        }
        lemma_tail(*entry, index as nat);
    }
    lowercase(s.as_str())
}

proof fn lemma_padded(n: nat)
    ensures
        crate::number::all_digits(padded_of(n)),
        crate::number::value_of(padded_of(n)) == n,
        padded_of(n).len() >= 3,
{
    reveal_strlit("00");
    reveal_strlit("0");
    let d = crate::number::decimal_of(n);
    crate::number::lemma_decimal_digits(n);
    crate::number::lemma_decimal_value(n);
    lemma_digits(n);
    if d.len() == 1 {
        lemma_zeros_in_front("00"@, d);
    } else if d.len() == 2 {
        lemma_zeros_in_front("0"@, d);
    }
}

proof fn lemma_zeros_in_front(z: Seq<char>, d: Seq<char>)
    requires
        forall|i: int| 0 <= i < z.len() ==> z[i] == '0',
        crate::number::all_digits(d),
    ensures
        crate::number::all_digits(z + d),
        crate::number::value_of(z + d) == crate::number::value_of(d),
    decreases z.len() + d.len(),
{
    if d.len() > 0 {
        lemma_zeros_in_front(z, d.drop_last());
        assert((z + d).drop_last() =~= z + d.drop_last());
        assert forall|i: int| 0 <= i < (z + d).len() implies crate::number::is_digit(
            #[trigger] (z + d)[i],
        ) by {
            if i >= z.len() {
                assert(crate::number::is_digit(d[i - z.len()]));
            }
        }
    } else if z.len() > 0 {
        lemma_zeros_in_front(z.drop_last(), d);
        assert((z + d).drop_last() =~= z.drop_last() + d);
        assert(z + d =~= z);
        assert(z.drop_last() + d =~= z.drop_last());
        assert forall|i: int| 0 <= i < (z + d).len() implies crate::number::is_digit(
            #[trigger] (z + d)[i],
        ) by {
            assert(z[i] == '0');
        }
    } else {
        assert(z + d =~= d);
    }
}

proof fn lemma_ascii_join(a: Seq<char>, b: Seq<char>)
    requires
        crate::text::all_ascii(a),
        crate::text::all_ascii(b),
    ensures
        crate::text::all_ascii(a + b),
{
    assert forall|i: int| 0 <= i < (a + b).len() implies (#[trigger] (a + b)[i] as int) < 128 by {
        if i < a.len() {
            assert((a[i] as int) < 128);
        } else {
            assert((b[i - a.len()] as int) < 128);
        }
    }
}

proof fn lemma_digits_ascii(d: Seq<char>)
    requires
        crate::number::all_digits(d),
    ensures
        crate::text::all_ascii(d),
{
    assert forall|i: int| 0 <= i < d.len() implies (#[trigger] d[i] as int) < 128 by {
        assert(crate::number::is_digit(d[i]));
    }
}

proof fn lemma_names_ascii(entry: MatrixEntry)
    ensures
        crate::text::all_ascii(crate::config::transport_name(entry.transport)),
        crate::text::all_ascii(crate::config::kind_name(entry.kind)),
        crate::text::all_ascii("-"@),
        crate::text::all_ascii("b-p"@),
{
    reveal_strlit("TcpNetns");
    reveal_strlit("Ipc");
    reveal_strlit("Inproc");
    reveal_strlit("Throughput");
    reveal_strlit("Latency");
    reveal_strlit("PubSub");
    reveal_strlit("FanOut");
    reveal_strlit("FanIn");
    reveal_strlit("-");
    reveal_strlit("b-p");
}

proof fn lemma_cell_name_ascii(entry: MatrixEntry, index: nat)
    requires
        crate::text::all_ascii(entry.target.id@),
    ensures
        crate::text::all_ascii(cell_name(entry, index)),
{
    lemma_names_ascii(entry);
    let payload = crate::number::decimal_of(entry.payload_bytes as nat);
    let peers = crate::number::decimal_of(peers_of(entry));
    crate::number::lemma_decimal_digits(entry.payload_bytes as nat);
    crate::number::lemma_decimal_digits(peers_of(entry));
    lemma_padded(index);
    lemma_digits_ascii(payload);
    lemma_digits_ascii(peers);
    lemma_digits_ascii(padded_of(index));
    let a = entry.target.id@ + "-"@;
    lemma_ascii_join(entry.target.id@, "-"@);
    let b = a + crate::config::transport_name(entry.transport);
    lemma_ascii_join(a, crate::config::transport_name(entry.transport));
    lemma_ascii_join(b, "-"@);
    let c = b + "-"@ + crate::config::kind_name(entry.kind);
    lemma_ascii_join(b + "-"@, crate::config::kind_name(entry.kind));
    lemma_ascii_join(c, "-"@);
    let d = c + "-"@ + payload;
    lemma_ascii_join(c + "-"@, payload);
    lemma_ascii_join(d, "b-p"@);
    let e = d + "b-p"@ + peers;
    lemma_ascii_join(d + "b-p"@, peers);
    lemma_ascii_join(e, "-"@);
    lemma_ascii_join(e + "-"@, padded_of(index));
}

/// Two cells of one matrix never share a name, whatever their entries are: the
/// name that `cell_id` gives a cell ends in its index, and names that end in
/// different indices differ.
pub proof fn law_cell_ids_distinct(a: Seq<char>, i: nat, b: Seq<char>, j: nat)
    requires
        i != j,
        crate::text::ends(a, cell_tail(i)),
        crate::text::ends(b, cell_tail(j)),
    ensures
        a != b,
{
    if a == b {
        reveal_strlit("-");
        let p = padded_of(i);
        let q = padded_of(j);
        let x = cell_tail(i);
        let y = cell_tail(j);
        lemma_padded(i);
        lemma_padded(j);
        let n = a.len() as int;
        assert forall|k: int| 0 <= k < x.len() implies a[n - x.len() + k] == #[trigger] x[k] by {
            assert(a.subrange(n - x.len(), n)[k] == x[k]);
        }
        assert forall|k: int| 0 <= k < y.len() implies a[n - y.len() + k] == #[trigger] y[k] by {
            assert(a.subrange(n - y.len(), n)[k] == y[k]);
        }
        if p.len() == q.len() {
            assert(x =~= a.subrange(n - x.len(), n));
            assert(y =~= a.subrange(n - y.len(), n));
            assert(p =~= x.skip(1));
            assert(q =~= y.skip(1));
        } else if p.len() < q.len() {
            let k = y.len() - x.len();
            assert(x[0] == '-');
            assert(y[k] == q[k - 1]);
            assert(crate::number::is_digit(q[k - 1]));
        } else {
            let k = x.len() - y.len();
            assert(y[0] == '-');
            assert(x[k] == p[k - 1]);
            assert(crate::number::is_digit(p[k - 1]));
        }
    }
}

// A cell's name ends in a hyphen and the padded index, which lower case keeps.
proof fn lemma_tail(entry: MatrixEntry, index: nat)
    ensures
        ({
            let s = cell_name(entry, index);
            let n = s.len() - cell_tail(index).len();
            &&& 0 <= n <= s.len()
            &&& s.skip(n) == cell_tail(index)
            &&& crate::text::all_ascii(s.skip(n))
            &&& s.skip(n).map_values(|c: char| crate::text::ascii_lower(c)) == cell_tail(index)
        }),
{
    reveal_strlit("-");
    let s = cell_name(entry, index);
    let p = padded_of(index);
    let tail = cell_tail(index);
    let n = s.len() - tail.len();
    lemma_padded(index);
    let front = entry.target.id@ + "-"@ + crate::config::transport_name(entry.transport) + "-"@
        + crate::config::kind_name(entry.kind) + "-"@ + crate::number::decimal_of(
        entry.payload_bytes as nat,
    ) + "b-p"@ + crate::number::decimal_of(peers_of(entry));
    assert(s =~= front + tail);
    assert(s.skip(n) =~= tail);
    assert forall|k: int| 0 <= k < tail.len() implies (#[trigger] tail[k] as int) < 128
        && crate::text::ascii_lower(tail[k]) == tail[k] by {
        if k > 0 {
            assert(tail[k] == p[k - 1]);
            assert(crate::number::is_digit(p[k - 1]));
        }
    }
    assert(tail.map_values(|c: char| crate::text::ascii_lower(c)) =~= tail);
}

/// The flags `key=value` of a list of knobs.
pub open spec fn settings_of(knobs: Seq<(String, String)>) -> Seq<Seq<char>> {
    knobs.map_values(|e: (String, String)| e.0@ + "="@ + e.1@)
}

fn settings(knobs: &Vec<(String, String)>) -> (r: Vec<String>)
    ensures
        crate::text::views(r@) == settings_of(knobs@),
{
    let mut out: Vec<String> = Vec::new();
    let mut i: usize = 0;
    assert(crate::text::views(out@) =~= settings_of(knobs@).take(0));
    while i < knobs.len()
        invariant
            i <= knobs@.len(),
            crate::text::views(out@) == settings_of(knobs@).take(i as int),
        decreases knobs@.len() - i,
    {
        let mut s = knobs[i].0.clone();
        s.append("=");
        s.append(knobs[i].1.as_str());
        push_string(&mut out, s);
        i += 1;
        assert(crate::text::views(out@) =~= settings_of(knobs@).take(i as int));
    }
    assert(settings_of(knobs@).take(knobs@.len() as int) =~= settings_of(knobs@));
    out
}

/// The knobs of an entry as the plan shows them.
pub open spec fn knobs_shown(entry: MatrixEntry) -> Seq<char> {
    let knobs = entry.target.knobs.entries@;
    if knobs.len() == 0 {
        "default"@
    } else {
        crate::text::joined(settings_of(knobs), ","@)
    }
}

/// The knobs of an entry as the plan shows them: `key=value`, separated by
/// commas. They stand in ascending order of their keys; see
/// [`law_knobs_ascend`].
pub fn format_knobs(entry: &MatrixEntry) -> (r: String)
    ensures
        r@ == knobs_shown(*entry),
{
    if entry.target.knobs.entries.len() == 0 {
        return "default".to_owned();
    }
    let list = settings(&entry.target.knobs.entries);
    join(&list, ",")
}

/// The knobs of an entry stand in ascending order of their keys, and no key
/// stands twice.
pub proof fn law_knobs_ascend(entry: MatrixEntry, i: int, j: int)
    requires
        entry.wf(),
        0 <= i < j < entry.target.knobs.entries@.len(),
    ensures
        crate::text::before(
            entry.target.knobs.entries@[i].0@,
            entry.target.knobs.entries@[j].0@,
        ),
{
}

/// The part of the arguments that every entry has.
pub open spec fn common_args(entry: MatrixEntry, role: Seq<char>, endpoint: Seq<char>) -> Seq<
    Seq<char>,
> {
    seq![
        "--role"@,
        role,
        "--kind"@,
        crate::config::kind_token(entry.kind),
        "--transport"@,
        crate::config::transport_token(entry.transport),
        "--endpoint"@,
        endpoint,
        "--payload-bytes"@,
        crate::number::decimal_of(entry.payload_bytes as nat),
        "--messages"@,
        crate::number::decimal_of(entry.messages as nat),
        "--warmup"@,
        crate::number::decimal_of(entry.warmup_messages as nat),
    ]
}

/// The argument for the number of peers, where there is one.
pub open spec fn peers_args(entry: MatrixEntry) -> Seq<Seq<char>> {
    match entry.peers {
        Some(p) => seq!["--peers"@, crate::number::decimal_of(p as nat)],
        None => Seq::empty(),
    }
}

/// The argument for the variant, where there is one.
pub open spec fn variant_args(entry: MatrixEntry) -> Seq<Seq<char>> {
    match entry.target.variant {
        Some(v) => seq!["--variant"@, v@],
        None => Seq::empty(),
    }
}

/// Each setting behind a flag of its own.
pub open spec fn knob_args(settings: Seq<Seq<char>>) -> Seq<Seq<char>>
    decreases settings.len(),
{
    if settings.len() == 0 {
        Seq::empty()
    } else {
        knob_args(settings.drop_last()) + seq!["--knob"@, settings.last()]
    }
}

/// The arguments that every target accepts, for one role and endpoint.
pub open spec fn target_args_of(entry: MatrixEntry, role: Seq<char>, endpoint: Seq<char>) -> Seq<
    Seq<char>,
> {
    common_args(entry, role, endpoint) + peers_args(entry) + variant_args(entry) + knob_args(
        settings_of(entry.target.knobs.entries@),
    )
}

/// The arguments that every target accepts, for one role and endpoint.
pub fn target_args(entry: &MatrixEntry, role: &str, endpoint: &str) -> (r: Vec<String>)
    ensures
        crate::text::views(r@) == target_args_of(*entry, role@, endpoint@),
{
    let mut a: Vec<String> = Vec::new();
    push_text(&mut a, "--role");
    push_text(&mut a, role);
    push_text(&mut a, "--kind");
    push_text(&mut a, entry.kind.token());
    push_text(&mut a, "--transport");
    push_text(&mut a, entry.transport.token());
    push_text(&mut a, "--endpoint");
    push_text(&mut a, endpoint);
    push_text(&mut a, "--payload-bytes");
    push_string(&mut a, decimal(entry.payload_bytes as u64));
    push_text(&mut a, "--messages");
    push_string(&mut a, decimal(entry.messages));
    push_text(&mut a, "--warmup");
    push_string(&mut a, decimal(entry.warmup_messages));
    assert(crate::text::views(a@) =~= common_args(*entry, role@, endpoint@));
    if let Some(p) = entry.peers {
        push_text(&mut a, "--peers");
        push_string(&mut a, decimal(p as u64));
    }
    assert(crate::text::views(a@) =~= common_args(*entry, role@, endpoint@) + peers_args(*entry));
    if let Some(v) = &entry.target.variant {
        push_text(&mut a, "--variant");
        push_text(&mut a, v.as_str());
    }
    assert(crate::text::views(a@) =~= common_args(*entry, role@, endpoint@) + peers_args(*entry)
        + variant_args(*entry));
    let list = settings(&entry.target.knobs.entries);
    let ghost front = crate::text::views(a@);
    let ghost all = crate::text::views(list@);
    let mut i: usize = 0;
    assert(front + knob_args(all.take(0)) =~= front);
    while i < list.len()
        invariant
            i <= list@.len(),
            all == crate::text::views(list@),
            crate::text::views(a@) == front + knob_args(all.take(i as int)),
        decreases list@.len() - i,
    {
        push_text(&mut a, "--knob");
        push_text(&mut a, list[i].as_str());
        assert(all.take(i + 1).drop_last() =~= all.take(i as int));
        assert(all.take(i + 1).last() == list@[i as int]@);
        assert(crate::text::views(a@) =~= front + knob_args(all.take(i + 1)));
        i += 1;
    }
    assert(all.take(all.len() as int) =~= all);
    a
}

/// The arguments of a multi-peer cell: those that every target accepts, the
/// bind side, and the duration window.
pub open spec fn peer_args_of(
    entry: MatrixEntry,
    role: Seq<char>,
    endpoint: Seq<char>,
    bind: bool,
    duration: Seq<char>,
) -> Seq<Seq<char>> {
    target_args_of(entry, role, endpoint) + (if bind {
        seq!["--bind"@]
    } else {
        Seq::empty()
    }) + seq!["--duration-secs"@, duration]
}

/// The arguments of a multi-peer cell.
pub fn peer_args(
    entry: &MatrixEntry,
    role: &str,
    endpoint: &str,
    bind: bool,
    duration: &str,
) -> (r: Vec<String>)
    ensures
        crate::text::views(r@) == peer_args_of(*entry, role@, endpoint@, bind, duration@),
{
    let mut a = target_args(entry, role, endpoint);
    if bind {
        push_text(&mut a, "--bind");
    }
    push_text(&mut a, "--duration-secs");
    push_text(&mut a, duration);
    assert(crate::text::views(a@) =~= peer_args_of(*entry, role@, endpoint@, bind, duration@));
    a
}

/// Whether a line is a report of the kind `word` with at least `n` words.
pub open spec fn is_report(line: Seq<char>, word: Seq<char>, n: nat) -> bool {
    crate::text::words_of(line).len() >= n && crate::text::words_of(line)[0] == word
}

/// The position of the first report at or after `i`, or the number of lines.
pub open spec fn first_report(all: Seq<Seq<char>>, word: Seq<char>, n: nat, i: int) -> int
    decreases all.len() - i,
{
    if i >= all.len() {
        all.len() as int
    } else if is_report(all[i], word, n) {
        i
    } else {
        first_report(all, word, n, i + 1)
    }
}

/// The words of the first report of the kind `word` with at least `n` words.
pub open spec fn report_of(out: Seq<char>, word: Seq<char>, n: nat) -> Option<Seq<Seq<char>>> {
    let all = crate::text::lines_of(out);
    let i = first_report(all, word, n, 0);
    if i < all.len() {
        Some(crate::text::words_of(all[i]))
    } else {
        None
    }
}

fn report(out: &str, word: &str, n: usize) -> (r: Option<Vec<String>>)
    requires
        n > 0,
    ensures
        match r {
            Some(w) => report_of(out@, word@, n as nat) == Some(crate::text::views(w@))
                && w@.len() >= n,
            None => report_of(out@, word@, n as nat) is None,
        },
{
    let all = lines(out);
    let ghost s = crate::text::views(all@);
    let mut i: usize = 0;
    while i < all.len()
        invariant
            i <= all@.len(),
            n > 0,
            s == crate::text::views(all@),
            s == crate::text::lines_of(out@),
            first_report(s, word@, n as nat, 0) == first_report(s, word@, n as nat, i as int),
        decreases all@.len() - i,
    {
        assert(s[i as int] == all@[i as int]@);
        let w = words(all[i].as_str());
        let ghost v = crate::text::views(w@);
        if w.len() >= n {
            assert(v[0] == w@[0]@);
            if same(w[0].as_str(), word) {
                return Some(w);
            }
        }
        i += 1;
    }
    None
}

/// The count and the elapsed seconds, as they are written, of a
/// `THROUGHPUT <count> <elapsed_secs>` report. There are none where the count is
/// not one or the seconds do not read as a number.
pub open spec fn throughput_of(out: Seq<char>) -> Option<(nat, Seq<char>)> {
    match report_of(out, "THROUGHPUT"@, 3) {
        Some(w) => match crate::number::unsigned_up_to(w[1], u64::MAX as nat) {
            Some(n) => if crate::number::is_number(w[2]) {
                Some((n, w[2]))
            } else {
                None
            },
            None => None,
        },
        None => None,
    }
}

/// Reads a `THROUGHPUT <count> <elapsed_secs>` line from a measured consumer.
/// The elapsed seconds, which read as a number, stay as they are written.
pub fn parse_throughput_line(out: &str) -> (r: Option<(u64, String)>)
    ensures
        match r {
            Some((n, t)) => throughput_of(out@) == Some((n as nat, t@)),
            None => throughput_of(out@) is None,
        },
{
    match report(out, "THROUGHPUT", 3) {
        None => None,
        Some(w) => {
            let ghost v = crate::text::views(w@);
            assert(v[1] == w@[1]@ && v[2] == w@[2]@);
            match parse_u64(w[1].as_str()) {
                None => None,
                Some(n) => if reads_as_number(w[2].as_str()) {
                    Some((n, w[2].clone()))
                } else {
                    None
                },
            }
        },
    }
}

/// The seven numbers of a latency report, in the order in which they stand.
pub open spec fn latency_numbers(out: Seq<char>) -> Option<Seq<nat>> {
    match report_of(out, "LATENCY"@, 8) {
        Some(w) => {
            let n = |i: int| crate::number::unsigned_up_to(w[i + 1], u64::MAX as nat);
            if forall|i: int| 0 <= i < 7 ==> #[trigger] n(i) is Some {
                Some(Seq::new(7, |i: int| n(i)->0))
            } else {
                None
            }
        },
        None => None,
    }
}

/// The numbers of a snapshot in the order of a report.
pub open spec fn snapshot_numbers(l: LatencySnapshot) -> Seq<nat> {
    seq![
        l.count as nat,
        l.min_ns as nat,
        l.p50_ns as nat,
        l.p90_ns as nat,
        l.p99_ns as nat,
        l.p999_ns as nat,
        l.max_ns as nat,
    ]
}

/// Reads the client's `LATENCY <count> <min> <p50> <p90> <p99> <p999> <max>`
/// line (nanoseconds) into a snapshot.
pub fn parse_latency(out: &str) -> (r: Option<LatencySnapshot>)
    ensures
        match r {
            Some(l) => {
                &&& latency_numbers(out@) == Some(snapshot_numbers(l))
                &&& report_of(out@, "LATENCY"@, 8) matches Some(w)
                &&& crate::number::unsigned_of(w[1]) == Some(l.count as nat)
                &&& crate::number::unsigned_of(w[2]) == Some(l.min_ns as nat)
                &&& crate::number::unsigned_of(w[3]) == Some(l.p50_ns as nat)
                &&& crate::number::unsigned_of(w[4]) == Some(l.p90_ns as nat)
                &&& crate::number::unsigned_of(w[5]) == Some(l.p99_ns as nat)
                &&& crate::number::unsigned_of(w[6]) == Some(l.p999_ns as nat)
                &&& crate::number::unsigned_of(w[7]) == Some(l.max_ns as nat)
            },
            None => latency_numbers(out@) is None,
        },
{
    let w = match report(out, "LATENCY", 8) {
        None => {
            return None;
        },
        Some(w) => w,
    };
    let ghost v = crate::text::views(w@);
    let ghost n = |i: int| crate::number::unsigned_up_to(v[i + 1], u64::MAX as nat);
    let mut found: Vec<u64> = Vec::new();
    let mut i: usize = 0;
    while i < 7
        invariant
            i <= 7,
            found@.len() == i,
            w@.len() >= 8,
            v == crate::text::views(w@),
            report_of(out@, "LATENCY"@, 8) == Some(v),
            n == |k: int| crate::number::unsigned_up_to(v[k + 1], u64::MAX as nat),
            forall|k: int| 0 <= k < i ==> #[trigger] n(k) == Some(found@[k] as nat),
        decreases 7 - i,
    {
        assert(v[i + 1] == w@[i + 1]@);
        match parse_u64(w[i + 1].as_str()) {
            None => {
                assert(n(i as int) is None);
                return None;
            },
            Some(x) => {
                assert(n(i as int) == Some(x as nat));
                found.push(x);
            },
        }
        i += 1;
    }
    let l = LatencySnapshot {
        count: found[0],
        min_ns: found[1],
        p50_ns: found[2],
        p90_ns: found[3],
        p99_ns: found[4],
        p999_ns: found[5],
        max_ns: found[6],
    };
    proof {
        let want = Seq::new(7, |i: int| n(i)->0);
        assert(n(0) == Some(found@[0] as nat));
        assert(n(1) == Some(found@[1] as nat));
        assert(n(2) == Some(found@[2] as nat));
        assert(n(3) == Some(found@[3] as nat));
        assert(n(4) == Some(found@[4] as nat));
        assert(n(5) == Some(found@[5] as nat));
        assert(n(6) == Some(found@[6] as nat));
        assert(want =~= snapshot_numbers(l));
    }
    Some(l)
}

/// The peers of an entry as the plan shows them.
pub open spec fn peers_shown(entry: MatrixEntry) -> Seq<char> {
    match entry.peers {
        Some(p) => "Some("@ + crate::number::decimal_of(p as nat) + ")"@,
        None => "None"@,
    }
}

/// The line that a dry run prints for a cell.
pub open spec fn plan_shown(entry: MatrixEntry, id: Seq<char>) -> Seq<char> {
    "  plan "@ + id + ": target="@ + entry.target.id@ + " variant="@ + crate::text::text_or(
        entry.target.variant,
        "default"@,
    ) + " transport="@ + crate::config::transport_name(entry.transport) + " kind="@
        + crate::config::kind_name(entry.kind) + " peers="@ + peers_shown(entry) + " payload="@
        + crate::number::decimal_of(entry.payload_bytes as nat) + "B msgs="@
        + crate::number::decimal_of(entry.messages as nat) + " (knobs: "@ + knobs_shown(entry)
        + ")"@
}

/// The line that a dry run prints for a cell.
pub fn plan_line(entry: &MatrixEntry, id: &str) -> (r: String)
    ensures
        r@ == plan_shown(*entry, id@),
{
    let mut s = "  plan ".to_owned();
    s.append(id);
    s.append(": target=");
    s.append(entry.target.id.as_str());
    s.append(" variant=");
    s.append(or_text(&entry.target.variant, "default").as_str());
    s.append(" transport=");
    s.append(entry.transport.name());
    s.append(" kind=");
    s.append(entry.kind.name());
    s.append(" peers=");
    let peers: String = match entry.peers {
        Some(p) => {
            let mut t = "Some(".to_owned();
            t.append(decimal(p as u64).as_str());
            t.append(")");
            t
        },
        None => "None".to_owned(),
    };
    s.append(peers.as_str());
    s.append(" payload=");
    s.append(decimal(entry.payload_bytes as u64).as_str());
    s.append("B msgs=");
    s.append(decimal(entry.messages).as_str());
    s.append(" (knobs: ");
    s.append(format_knobs(entry).as_str());
    s.append(")");
    s
}

/// A report is looked for from the first line on: it is that of the first line
/// whose first word names it and that has words enough, whatever follows.
pub proof fn law_first_report_counts(out: Seq<char>, word: Seq<char>, n: nat, i: int)
    requires
        0 <= i < crate::text::lines_of(out).len(),
        crate::text::words_of(crate::text::lines_of(out)[i]).len() >= n,
        crate::text::words_of(crate::text::lines_of(out)[i])[0] == word,
        forall|j: int|
            0 <= j < i ==> {
                let w = crate::text::words_of(#[trigger] crate::text::lines_of(out)[j]);
                w.len() < n || w[0] != word
            },
    ensures
        report_of(out, word, n) == Some(crate::text::words_of(crate::text::lines_of(out)[i])),
{
    lemma_first_report_is(crate::text::lines_of(out), word, n, 0, i);
}

/// Where no line is a report, there is none.
pub proof fn law_no_report_is_none(out: Seq<char>, word: Seq<char>, n: nat)
    requires
        forall|j: int|
            0 <= j < crate::text::lines_of(out).len() ==> {
                let w = crate::text::words_of(#[trigger] crate::text::lines_of(out)[j]);
                w.len() < n || w[0] != word
            },
    ensures
        report_of(out, word, n) is None,
{
    let all = crate::text::lines_of(out);
    lemma_first_report_is(all, word, n, 0, all.len() as int);
}

proof fn lemma_first_report_is(all: Seq<Seq<char>>, word: Seq<char>, n: nat, from: int, i: int)
    requires
        0 <= from <= i <= all.len(),
        i < all.len() ==> is_report(all[i], word, n),
        forall|j: int| from <= j < i ==> !is_report(#[trigger] all[j], word, n),
    ensures
        first_report(all, word, n, from) == i,
    decreases i - from,
{
    if from < i {
        assert(!is_report(all[from], word, n));
        lemma_first_report_is(all, word, n, from + 1, i);
    }
}

/// What is padded still reads as the number that it was, and has three digits at
/// least; one of three digits or more is not padded.
pub proof fn law_padding_keeps_the_number(n: nat)
    ensures
        crate::number::unsigned_of(padded_of(n)) == Some(n),
        padded_of(n).len() >= 3,
        n >= 100 ==> padded_of(n) == crate::number::decimal_of(n),
        n < 100 ==> padded_of(n).len() == 3,
{
    lemma_padded(n);
    lemma_digits(n);
    reveal_strlit("00");
    reveal_strlit("0");
    assert(crate::number::is_digit(padded_of(n)[0]));
}

// Two texts with a separator behind a part that does not hold it agree in both.
proof fn lemma_split(a: Seq<char>, x: Seq<char>, b: Seq<char>, y: Seq<char>)
    requires
        a + "-"@ + x == b + "-"@ + y,
        !a.contains('-'),
        !b.contains('-'),
    ensures
        a == b,
        x == y,
{
    reveal_strlit("-");
    let s = a + "-"@ + x;
    let t = b + "-"@ + y;
    if a.len() < b.len() {
        assert(s[a.len() as int] == '-');
        assert(t[a.len() as int] == b[a.len() as int]);
        assert(b.contains(b[a.len() as int]));
    } else if b.len() < a.len() {
        assert(t[b.len() as int] == '-');
        assert(s[b.len() as int] == a[b.len() as int]);
        assert(a.contains(a[b.len() as int]));
    }
    assert(a =~= s.take(a.len() as int));
    assert(b =~= t.take(b.len() as int));
    assert(x =~= s.skip(a.len() as int + 1));
    assert(y =~= t.skip(b.len() as int + 1));
}

proof fn lemma_no_hyphen(entry: MatrixEntry)
    ensures
        !crate::config::transport_name(entry.transport).contains('-'),
        !crate::config::kind_name(entry.kind).contains('-'),
{
    reveal_strlit("TcpNetns");
    reveal_strlit("Ipc");
    reveal_strlit("Inproc");
    reveal_strlit("Throughput");
    reveal_strlit("Latency");
    reveal_strlit("PubSub");
    reveal_strlit("FanOut");
    reveal_strlit("FanIn");
}

proof fn lemma_names_tell_apart(a: MatrixEntry, b: MatrixEntry)
    ensures
        crate::config::transport_name(a.transport) == crate::config::transport_name(b.transport)
            ==> a.transport == b.transport,
        crate::config::kind_name(a.kind) == crate::config::kind_name(b.kind) ==> a.kind == b.kind,
{
    reveal_strlit("TcpNetns");
    reveal_strlit("Ipc");
    reveal_strlit("Inproc");
    reveal_strlit("Throughput");
    reveal_strlit("Latency");
    reveal_strlit("PubSub");
    reveal_strlit("FanOut");
    reveal_strlit("FanIn");
    assert("TcpNetns"@.len() == 8 && "Ipc"@.len() == 3 && "Inproc"@.len() == 6);
    assert("Throughput"@.len() == 10 && "Latency"@.len() == 7 && "PubSub"@.len() == 6
        && "FanOut"@.len() == 6 && "FanIn"@.len() == 5);
    assert("PubSub"@[0] == 'P' && "FanOut"@[0] == 'F');
}

proof fn lemma_regroup(a: Seq<char>, b: Seq<char>, c: Seq<char>)
    ensures
        a + b + c == a + (b + c),
{
    assert(a + b + c =~= a + (b + c));
}

// The name of a cell behind its target, part by part.
spec fn parts_of(entry: MatrixEntry, index: nat) -> (Seq<char>, Seq<char>, Seq<char>, Seq<char>) {
    let d = seq!['p'] + crate::number::decimal_of(peers_of(entry)) + "-"@ + padded_of(index);
    let c = crate::number::decimal_of(entry.payload_bytes as nat).push('b') + "-"@ + d;
    let b = crate::config::kind_name(entry.kind) + "-"@ + c;
    let a = crate::config::transport_name(entry.transport) + "-"@ + b;
    (a, b, c, d)
}

proof fn lemma_name_parts(entry: MatrixEntry, index: nat)
    ensures
        cell_name(entry, index) == entry.target.id@ + "-"@ + parts_of(entry, index).0,
{
    reveal_strlit("-");
    reveal_strlit("b-p");
    let h = "-"@;
    let i = entry.target.id@ + h;
    let t = crate::config::transport_name(entry.transport);
    let k = crate::config::kind_name(entry.kind);
    let p = crate::number::decimal_of(entry.payload_bytes as nat);
    let q = crate::number::decimal_of(peers_of(entry));
    let n = padded_of(index);
    let (a, b, c, d) = parts_of(entry, index);
    let x = i + t + h + k + h;
    assert(x + p + "b-p"@ + q + h + n =~= x + c);
    lemma_regroup(i + t + h + k, h, c);
    lemma_regroup(i + t + h, k, h + c);
    lemma_regroup(k, h, c);
    lemma_regroup(i + t, h, b);
    lemma_regroup(i, t, h + b);
    lemma_regroup(t, h, b);
}

/// The name of a cell says what it measures: two cells of one target with the
/// same name are over the same transport, of the same kind and payload, with as
/// many peers, and at the same place.
pub proof fn law_name_says_what_is_measured(a: MatrixEntry, i: nat, b: MatrixEntry, j: nat)
    requires
        a.target.id@ == b.target.id@,
        cell_name(a, i) == cell_name(b, j),
    ensures
        a.transport == b.transport,
        a.kind == b.kind,
        a.payload_bytes == b.payload_bytes,
        peers_of(a) == peers_of(b),
        i == j,
{
    lemma_no_hyphen(a);
    lemma_no_hyphen(b);
    lemma_names_tell_apart(a, b);
    lemma_name_parts(a, i);
    lemma_name_parts(b, j);
    let id = a.target.id@ + "-"@;
    let (x0, x1, x2, x3) = parts_of(a, i);
    let (y0, y1, y2, y3) = parts_of(b, j);
    assert(x0 =~= cell_name(a, i).skip(id.len() as int));
    assert(y0 =~= cell_name(b, j).skip(id.len() as int));
    lemma_split(
        crate::config::transport_name(a.transport),
        x1,
        crate::config::transport_name(b.transport),
        y1,
    );
    lemma_split(crate::config::kind_name(a.kind), x2, crate::config::kind_name(b.kind), y2);
    let pa = crate::number::decimal_of(a.payload_bytes as nat);
    let pb = crate::number::decimal_of(b.payload_bytes as nat);
    let qa = crate::number::decimal_of(peers_of(a));
    let qb = crate::number::decimal_of(peers_of(b));
    lemma_digits_and(pa, a.payload_bytes as nat);
    lemma_digits_and(pb, b.payload_bytes as nat);
    lemma_digits_and(qa, peers_of(a));
    lemma_digits_and(qb, peers_of(b));
    assert(!pa.push('b').contains('-'));
    assert(!pb.push('b').contains('-'));
    lemma_split(pa.push('b'), x3, pb.push('b'), y3);
    assert(pa =~= pa.push('b').drop_last());
    assert(pb =~= pb.push('b').drop_last());
    crate::number::law_decimal_injective(a.payload_bytes as nat, b.payload_bytes as nat);
    assert(!(seq!['p'] + qa).contains('-'));
    assert(!(seq!['p'] + qb).contains('-'));
    lemma_split(seq!['p'] + qa, padded_of(i), seq!['p'] + qb, padded_of(j));
    assert(qa =~= (seq!['p'] + qa).skip(1));
    assert(qb =~= (seq!['p'] + qb).skip(1));
    crate::number::law_decimal_injective(peers_of(a), peers_of(b));
    lemma_padded(i);
    lemma_padded(j);
}

proof fn lemma_digits_and(d: Seq<char>, n: nat)
    requires
        d == crate::number::decimal_of(n),
    ensures
        forall|i: int| 0 <= i < d.len() ==> #[trigger] d[i] != '-',
{
    crate::number::lemma_decimal_digits(n);
    assert forall|i: int| 0 <= i < d.len() implies #[trigger] d[i] != '-' by {
        assert(crate::number::is_digit(d[i]));
    }
}

/// A report that is not whole is none: a count that is no number, or seconds that
/// do not read as one, or any of the seven numbers of a latency report.
pub proof fn law_malformed_reports_are_refused(out: Seq<char>, w: Seq<Seq<char>>, i: int)
    ensures
        report_of(out, "THROUGHPUT"@, 3) == Some(w) && crate::number::unsigned_of(w[1]) is None
            ==> throughput_of(out) is None,
        report_of(out, "THROUGHPUT"@, 3) == Some(w) && !crate::number::is_number(w[2])
            ==> throughput_of(out) is None,
        report_of(out, "THROUGHPUT"@, 3) is None ==> throughput_of(out) is None,
        report_of(out, "LATENCY"@, 8) == Some(w) && 1 <= i <= 7 && crate::number::unsigned_of(
            w[i],
        ) is None ==> latency_numbers(out) is None,
        report_of(out, "LATENCY"@, 8) is None ==> latency_numbers(out) is None,
{
    if report_of(out, "LATENCY"@, 8) == Some(w) && 1 <= i <= 7 {
        let n = |k: int| crate::number::unsigned_up_to(w[k + 1], u64::MAX as nat);
        if crate::number::unsigned_of(w[i]) is None {
            assert(n(i - 1) is None);
        }
    }
}

/// The plan shows every knob of an entry as `key=value`, with a comma between each
/// two, and says so where there is none.
pub proof fn law_plan_shows_every_knob(knobs: Seq<(String, String)>, key: String, value: String)
    ensures
        settings_of(knobs.push((key, value))) == settings_of(knobs).push(key@ + "="@ + value@),
        knobs.len() > 0 ==> crate::text::joined(settings_of(knobs.push((key, value))), ","@)
            == crate::text::joined(settings_of(knobs), ","@) + ","@ + (key@ + "="@ + value@),
{
    assert(settings_of(knobs.push((key, value))) =~= settings_of(knobs).push(
        key@ + "="@ + value@,
    ));
    crate::text_laws::law_joining_adds_one_separator(
        settings_of(knobs),
        key@ + "="@ + value@,
        ","@,
    );
}

} // verus!
