//! Endpoint enumeration: candidate (host, port) pairs built as the cartesian
//! product of subnet prefixes, ports, and a host-index range.

use vstd::prelude::*;
use vstd::string::*;

verus! {

/// One probe target: a textual host address and a port.
pub struct Candidate {
    pub host: String,
    pub port: u16,
}

/// Mathematical model of a candidate: the host as a character sequence.
pub struct CandidateModel {
    pub host: Seq<char>,
    pub port: u16,
}

impl Candidate {
    pub open spec fn model(self) -> CandidateModel {
        CandidateModel { host: self.host@, port: self.port }
    }
}

/// The models of a sequence of candidates.
pub open spec fn models_of(cands: Seq<Candidate>) -> Seq<CandidateModel> {
    cands.map_values(|c: Candidate| c.model())
}

/// The views of a sequence of prefix strings.
pub open spec fn views_of(prefixes: Seq<String>) -> Seq<Seq<char>> {
    prefixes.map_values(|p: String| p@)
}

/// The decimal digit character for `n` (meaningful for `n < 10`).
pub open spec fn spec_digit(n: nat) -> char
    recommends
        n < 10,
{
    if n == 0 {
        '0'
    } else if n == 1 {
        '1'
    } else if n == 2 {
        '2'
    } else if n == 3 {
        '3'
    } else if n == 4 {
        '4'
    } else if n == 5 {
        '5'
    } else if n == 6 {
        '6'
    } else if n == 7 {
        '7'
    } else if n == 8 {
        '8'
    } else {
        '9'
    }
}

/// The decimal representation of `n`, most significant digit first, with no
/// leading zeros.
pub open spec fn spec_dec(n: nat) -> Seq<char>
    decreases n,
{
    if n < 10 {
        seq![spec_digit(n)]
    } else {
        spec_dec(n / 10).push(spec_digit(n % 10))
    }
}

fn digit_str(d: u16) -> (r: &'static str)
    requires
        d < 10,
    ensures
        r@ == seq![spec_digit(d as nat)],
{
    proof {
        reveal_strlit("0");
        reveal_strlit("1");
        reveal_strlit("2");
        reveal_strlit("3");
        reveal_strlit("4");
        reveal_strlit("5");
        reveal_strlit("6");
        reveal_strlit("7");
        reveal_strlit("8");
        reveal_strlit("9");
    }
    let r: &'static str = if d == 0 {
        "0"
    } else if d == 1 {
        "1"
    } else if d == 2 {
        "2"
    } else if d == 3 {
        "3"
    } else if d == 4 {
        "4"
    } else if d == 5 {
        "5"
    } else if d == 6 {
        "6"
    } else if d == 7 {
        "7"
    } else if d == 8 {
        "8"
    } else {
        "9"
    };
    proof {
        assert(r@ =~= seq![spec_digit(d as nat)]);
    }
    r
}

/// Renders `n` in decimal.
pub fn dec_u16(n: u16) -> (r: String)
    ensures
        r@ == spec_dec(n as nat),
    decreases n,
{
    if n < 10 {
        String::from_str(digit_str(n))
    } else {
        let mut r = dec_u16(n / 10);
        r.append(digit_str(n % 10));
        proof {
            assert(r@ =~= spec_dec(n as nat));
        }
        r
    }
}

/// The host address formed from a subnet prefix and a host index:
/// `"{prefix}.{index}"`.
pub open spec fn spec_host(prefix: Seq<char>, index: nat) -> Seq<char> {
    prefix + seq!['.'] + spec_dec(index)
}

/// Builds the host address `"{prefix}.{index}"`.
pub fn host_of(prefix: &str, index: u16) -> (r: String)
    ensures
        r@ == spec_host(prefix@, index as nat),
{
    let mut r = String::from_str(prefix);
    r.append(".");
    let d = dec_u16(index);
    r.append(d.as_str());
    proof {
        reveal_strlit(".");
        assert(r@ =~= spec_host(prefix@, index as nat));
    }
    r
}

/// The discovery URL probed on a candidate: `"http://{host}:{port}/app"`.
pub open spec fn spec_probe_url(host: Seq<char>, port: u16) -> Seq<char> {
    "http://"@ + host + ":"@ + spec_dec(port as nat) + "/app"@
}

/// Builds the discovery URL `"http://{host}:{port}/app"`.
pub fn probe_url(host: &str, port: u16) -> (r: String)
    ensures
        r@ == spec_probe_url(host@, port),
{
    let mut r = String::from_str("http://");
    r.append(host);
    r.append(":");
    let d = dec_u16(port);
    r.append(d.as_str());
    r.append("/app");
    proof {
        assert(r@ =~= spec_probe_url(host@, port));
    }
    r
}

/// The candidates for one prefix and one port, host indices `lo..=hi` in
/// ascending order.
pub open spec fn spec_hosts_for(prefix: Seq<char>, port: u16, lo: int, hi: int) -> Seq<
    CandidateModel,
>
    decreases hi + 1 - lo,
{
    if lo > hi || lo < 0 {
        Seq::empty()
    } else {
        spec_hosts_for(prefix, port, lo, hi - 1).push(
            CandidateModel { host: spec_host(prefix, hi as nat), port },
        )
    }
}

/// The candidates for one prefix: every port of `ports`, in order, each with
/// host indices `lo..=hi`.
pub open spec fn spec_ports_for(prefix: Seq<char>, ports: Seq<u16>, lo: int, hi: int) -> Seq<
    CandidateModel,
>
    decreases ports.len(),
{
    if ports.len() == 0 {
        Seq::empty()
    } else {
        spec_ports_for(prefix, ports.drop_last(), lo, hi) + spec_hosts_for(
            prefix,
            ports.last(),
            lo,
            hi,
        )
    }
}

/// The full cartesian product `prefixes x ports x [lo, hi]`, grouped by
/// prefix, then by port, then by ascending host index.
pub open spec fn spec_enumerate(prefixes: Seq<Seq<char>>, ports: Seq<u16>, lo: int, hi: int) -> Seq<
    CandidateModel,
>
    decreases prefixes.len(),
{
    if prefixes.len() == 0 {
        Seq::empty()
    } else {
        spec_enumerate(prefixes.drop_last(), ports, lo, hi) + spec_ports_for(
            prefixes.last(),
            ports,
            lo,
            hi,
        )
    }
}

/// Produces the full candidate list: `prefixes x ports x [lo, hi]`, with the
/// host address of each candidate formed as `"{prefix}.{index}"`.
pub fn enumerate_candidates(prefixes: &Vec<String>, ports: &Vec<u16>, lo: u16, hi: u16) -> (r: Vec<
    Candidate,
>)
    requires
        lo <= hi,
    ensures
        models_of(r@) == spec_enumerate(views_of(prefixes@), ports@, lo as int, hi as int),
{
    let ghost pv = views_of(prefixes@);
    let mut r: Vec<Candidate> = Vec::new();
    let mut i: usize = 0;
    proof {
        assert(models_of(r@) =~= spec_enumerate(pv.take(0), ports@, lo as int, hi as int));
    }
    while i < prefixes.len()
        invariant
            i <= prefixes.len(),
            lo <= hi,
            pv == views_of(prefixes@),
            models_of(r@) == spec_enumerate(pv.take(i as int), ports@, lo as int, hi as int),
        decreases prefixes.len() - i,
    {
        let prefix = &prefixes[i];
        let ghost before_prefix = models_of(r@);
        let mut j: usize = 0;
        proof {
            assert(spec_ports_for(prefix@, ports@.take(0), lo as int, hi as int) =~= Seq::<
                CandidateModel,
            >::empty());
            assert(models_of(r@) =~= before_prefix + spec_ports_for(
                prefix@,
                ports@.take(0),
                lo as int,
                hi as int,
            ));
        }
        while j < ports.len()
            invariant
                i < prefixes.len(),
                j <= ports.len(),
                lo <= hi,
                pv == views_of(prefixes@),
                prefix@ == pv[i as int],
                before_prefix == spec_enumerate(pv.take(i as int), ports@, lo as int, hi as int),
                models_of(r@) == before_prefix + spec_ports_for(
                    prefix@,
                    ports@.take(j as int),
                    lo as int,
                    hi as int,
                ),
            decreases ports.len() - j,
        {
            let port = ports[j];
            let ghost before_port = models_of(r@);
            let mut k: u32 = lo as u32;
            proof {
                assert(spec_hosts_for(prefix@, port, lo as int, lo - 1) =~= Seq::<
                    CandidateModel,
                >::empty());
                assert(models_of(r@) =~= before_port + spec_hosts_for(
                    prefix@,
                    port,
                    lo as int,
                    lo - 1,
                ));
            }
            while k <= hi as u32
                invariant
                    lo <= k <= hi + 1,
                    hi < 0x10000,
                    port == ports@[j as int],
                    j < ports.len(),
                    models_of(r@) == before_port + spec_hosts_for(
                        prefix@,
                        port,
                        lo as int,
                        k - 1,
                    ),
                decreases hi + 1 - k,
            {
                let ghost prev = models_of(r@);
                let host = host_of(prefix.as_str(), k as u16);
                let ghost m = CandidateModel { host: spec_host(prefix@, k as nat), port };
                r.push(Candidate { host, port });
                proof {
                    assert(models_of(r@) =~= prev.push(m));
                    assert(spec_hosts_for(prefix@, port, lo as int, k as int)
                        == spec_hosts_for(prefix@, port, lo as int, k - 1).push(m));
                    assert(models_of(r@) =~= before_port + spec_hosts_for(
                        prefix@,
                        port,
                        lo as int,
                        k as int,
                    ));
                }
                k = k + 1;
            }
            j = j + 1;
            proof {
                assert(ports@.take(j as int).drop_last() =~= ports@.take(j - 1));
                assert(ports@.take(j as int).last() == port);
                assert(models_of(r@) =~= before_prefix + spec_ports_for(
                    prefix@,
                    ports@.take(j as int),
                    lo as int,
                    hi as int,
                ));
            }
        }
        i = i + 1;
        proof {
            assert(ports@.take(ports@.len() as int) =~= ports@);
            assert(pv.take(i as int).drop_last() =~= pv.take(i - 1));
            assert(pv.take(i as int).last() == prefix@);
            assert(models_of(r@) =~= spec_enumerate(
                pv.take(i as int),
                ports@,
                lo as int,
                hi as int,
            ));
        }
    }
    proof {
        assert(pv.take(prefixes@.len() as int) =~= pv);
    }
    r
}

/// The first host index scanned by a default discovery round.
pub const DEFAULT_HOST_INDEX_LO: u16 = 1;

/// The last host index scanned by a default discovery round.
pub const DEFAULT_HOST_INDEX_HI: u16 = 20;

/// The subnet prefixes a default discovery round scans. A production
/// deployment would source these from live interface enumeration; the
/// enumerator's contract does not depend on how they are sourced.
pub fn default_prefixes() -> (r: Vec<String>)
    ensures
        views_of(r@) == seq!["192.168.1"@, "192.168.0"@, "10.0.0"@, "172.16.0"@],
{
    let mut r: Vec<String> = Vec::new();
    r.push(String::from_str("192.168.1"));
    r.push(String::from_str("192.168.0"));
    r.push(String::from_str("10.0.0"));
    r.push(String::from_str("172.16.0"));
    proof {
        assert(views_of(r@) =~= seq!["192.168.1"@, "192.168.0"@, "10.0.0"@, "172.16.0"@]);
    }
    r
}

/// The ports a default discovery round scans.
pub fn default_ports() -> (r: Vec<u16>)
    ensures
        r@ == seq![3000u16, 8080u16, 8000u16, 3001u16, 8001u16],
{
    let mut r: Vec<u16> = Vec::new();
    r.push(3000);
    r.push(8080);
    r.push(8000);
    r.push(3001);
    r.push(8001);
    proof {
        assert(r@ =~= seq![3000u16, 8080u16, 8000u16, 3001u16, 8001u16]);
    }
    r
}

/// The candidate list of a default discovery round: the default prefixes and
/// ports crossed with the default host-index range.
pub fn default_candidates() -> (r: Vec<Candidate>)
    ensures
        models_of(r@) == spec_enumerate(
            seq!["192.168.1"@, "192.168.0"@, "10.0.0"@, "172.16.0"@],
            seq![3000u16, 8080u16, 8000u16, 3001u16, 8001u16],
            DEFAULT_HOST_INDEX_LO as int,
            DEFAULT_HOST_INDEX_HI as int,
        ),
{
    let prefixes = default_prefixes();
    let ports = default_ports();
    enumerate_candidates(&prefixes, &ports, DEFAULT_HOST_INDEX_LO, DEFAULT_HOST_INDEX_HI)
}

/// One (prefix, port) pair contributes exactly `hi - lo + 1` candidates.
pub proof fn lemma_hosts_for_len(prefix: Seq<char>, port: u16, lo: int, hi: int)
    requires
        0 <= lo <= hi,
    ensures
        spec_hosts_for(prefix, port, lo, hi).len() == hi - lo + 1,
    decreases hi - lo,
{
    if lo < hi {
        lemma_hosts_for_len(prefix, port, lo, hi - 1);
    } else {
        assert(spec_hosts_for(prefix, port, lo, hi - 1).len() == 0);
    }
}

/// One prefix contributes exactly `|ports| * (hi - lo + 1)` candidates.
pub proof fn lemma_ports_for_len(prefix: Seq<char>, ports: Seq<u16>, lo: int, hi: int)
    requires
        0 <= lo <= hi,
    ensures
        spec_ports_for(prefix, ports, lo, hi).len() == ports.len() * (hi - lo + 1),
    decreases ports.len(),
{
    if ports.len() > 0 {
        lemma_ports_for_len(prefix, ports.drop_last(), lo, hi);
        lemma_hosts_for_len(prefix, ports.last(), lo, hi);
        assert((ports.len() - 1) * (hi - lo + 1) + (hi - lo + 1) == ports.len() * (hi - lo + 1))
            by (nonlinear_arith);
    }
}

/// Law: the enumeration is complete in count. For prefixes `P`, ports `F` and
/// host range `[lo, hi]` it yields exactly `|P| * |F| * (hi - lo + 1)`
/// candidates.
pub proof fn lemma_enumerate_len(prefixes: Seq<Seq<char>>, ports: Seq<u16>, lo: int, hi: int)
    requires
        0 <= lo <= hi,
    ensures
        spec_enumerate(prefixes, ports, lo, hi).len() == prefixes.len() * ports.len() * (hi - lo
            + 1),
    decreases prefixes.len(),
{
    if prefixes.len() > 0 {
        lemma_enumerate_len(prefixes.drop_last(), ports, lo, hi);
        lemma_ports_for_len(prefixes.last(), ports, lo, hi);
        assert(spec_enumerate(prefixes, ports, lo, hi) == spec_enumerate(
            prefixes.drop_last(),
            ports,
            lo,
            hi,
        ) + spec_ports_for(prefixes.last(), ports, lo, hi));
        let p = prefixes.len() as int;
        let f = ports.len() as int;
        let h = hi - lo + 1;
        assert(spec_enumerate(prefixes.drop_last(), ports, lo, hi).len() == (p - 1) * f * h);
        assert(spec_ports_for(prefixes.last(), ports, lo, hi).len() == f * h);
        assert(spec_enumerate(prefixes, ports, lo, hi).len() == (p - 1) * f * h + f * h);
        assert((p - 1) * f * h + f * h == p * f * h) by (nonlinear_arith);
        assert(p * f >= 0) by (nonlinear_arith)
            requires
                p >= 0 && f >= 0,
        ;
        assert(prefixes.len() * ports.len() * (hi - lo + 1) == p * f * h);
    } else {
        assert(spec_enumerate(prefixes, ports, lo, hi) =~= Seq::<CandidateModel>::empty());
        assert(prefixes.len() * ports.len() * (hi - lo + 1) == 0) by (nonlinear_arith)
            requires
                prefixes.len() == 0,
        ;
    }
}

proof fn lemma_hosts_for_index(prefix: Seq<char>, port: u16, lo: int, hi: int, k: int)
    requires
        0 <= lo <= k <= hi,
    ensures
        spec_hosts_for(prefix, port, lo, hi).len() == hi - lo + 1,
        spec_hosts_for(prefix, port, lo, hi)[k - lo] == (CandidateModel {
            host: spec_host(prefix, k as nat),
            port,
        }),
    decreases hi - lo,
{
    lemma_hosts_for_len(prefix, port, lo, hi);
    if k < hi {
        lemma_hosts_for_index(prefix, port, lo, hi - 1, k);
    }
}

proof fn lemma_ports_for_index(
    prefix: Seq<char>,
    ports: Seq<u16>,
    lo: int,
    hi: int,
    j: int,
    k: int,
)
    requires
        0 <= lo <= k <= hi,
        0 <= j < ports.len(),
    ensures
        spec_ports_for(prefix, ports, lo, hi)[j * (hi - lo + 1) + (k - lo)] == (CandidateModel {
            host: spec_host(prefix, k as nat),
            port: ports[j],
        }),
    decreases ports.len(),
{
    let h = hi - lo + 1;
    let rest = spec_ports_for(prefix, ports.drop_last(), lo, hi);
    let tail = spec_hosts_for(prefix, ports.last(), lo, hi);
    lemma_ports_for_len(prefix, ports.drop_last(), lo, hi);
    lemma_hosts_for_len(prefix, ports.last(), lo, hi);
    if j == ports.len() - 1 {
        lemma_hosts_for_index(prefix, ports.last(), lo, hi, k);
        assert(rest.len() == j * h);
        assert((rest + tail)[j * h + (k - lo)] == tail[k - lo]);
    } else {
        lemma_ports_for_index(prefix, ports.drop_last(), lo, hi, j, k);
        assert(ports.drop_last()[j] == ports[j]);
        assert(j * h + (k - lo) < (ports.len() - 1) * h) by (nonlinear_arith)
            requires
                0 <= k - lo < h && j + 1 <= ports.len() - 1,
        ;
        assert((rest + tail)[j * h + (k - lo)] == rest[j * h + (k - lo)]);
    }
}

/// Law: the enumeration is exhaustive, by direct construction. The candidate
/// for the `i`-th prefix, the `j`-th port and host index `k` stands at
/// position `(i * |ports| + j) * (hi - lo + 1) + (k - lo)` of the enumerated
/// sequence, so together with [`lemma_enumerate_len`] the sequence is exactly
/// the cartesian product, grouped by prefix, then port, then host index.
pub proof fn lemma_enumerate_index(
    prefixes: Seq<Seq<char>>,
    ports: Seq<u16>,
    lo: int,
    hi: int,
    i: int,
    j: int,
    k: int,
)
    requires
        0 <= lo <= k <= hi,
        0 <= i < prefixes.len(),
        0 <= j < ports.len(),
    ensures
        spec_enumerate(prefixes, ports, lo, hi)[(i * ports.len() + j) * (hi - lo + 1) + (k - lo)]
            == (CandidateModel { host: spec_host(prefixes[i], k as nat), port: ports[j] }),
    decreases prefixes.len(),
{
    let h = hi - lo + 1;
    let f = ports.len() as int;
    let p = prefixes.len() as int;
    let idx = (i * f + j) * h + (k - lo);
    let rest = spec_enumerate(prefixes.drop_last(), ports, lo, hi);
    let tail = spec_ports_for(prefixes.last(), ports, lo, hi);
    lemma_enumerate_len(prefixes.drop_last(), ports, lo, hi);
    assert(rest.len() == (p - 1) * f * h);
    if i == p - 1 {
        lemma_ports_for_index(prefixes.last(), ports, lo, hi, j, k);
        lemma_ports_for_len(prefixes.last(), ports, lo, hi);
        assert(tail.len() == f * h);
        assert(idx - rest.len() == j * h + (k - lo)) by (nonlinear_arith)
            requires
                idx == (i * f + j) * h + (k - lo) && rest.len() == (p - 1) * f * h && i == p - 1,
        ;
        assert(rest.len() <= idx) by (nonlinear_arith)
            requires
                idx == (i * f + j) * h + (k - lo) && rest.len() == (p - 1) * f * h && i == p - 1
                    && 0 <= j && 0 <= k - lo && h >= 1,
        ;
        assert(j * h + (k - lo) < f * h) by (nonlinear_arith)
            requires
                0 <= j <= f - 1 && 0 <= k - lo < h,
        ;
        assert((rest + tail)[idx] == tail[idx - rest.len()]);
    } else {
        lemma_enumerate_index(prefixes.drop_last(), ports, lo, hi, i, j, k);
        assert(prefixes.drop_last()[i] == prefixes[i]);
        assert(idx < rest.len()) by (nonlinear_arith)
            requires
                idx == (i * f + j) * h + (k - lo) && rest.len() == (p - 1) * f * h && i <= p - 2
                    && 0 <= i && 0 <= j <= f - 1 && 0 <= k - lo < h,
        ;
        assert((rest + tail)[idx] == rest[idx]);
    }
}

proof fn lemma_dec_len(n: nat)
    ensures
        spec_dec(n).len() >= 1,
        n >= 10 ==> spec_dec(n).len() >= 2,
    decreases n,
{
    if n >= 10 {
        lemma_dec_len(n / 10);
    }
}

proof fn lemma_dec_no_dot(n: nat, idx: int)
    requires
        0 <= idx < spec_dec(n).len(),
    ensures
        spec_dec(n)[idx] != '.',
    decreases n,
{
    if n >= 10 && idx < spec_dec(n / 10).len() {
        lemma_dec_no_dot(n / 10, idx);
    }
}

proof fn lemma_dec_injective(a: nat, b: nat)
    requires
        spec_dec(a) == spec_dec(b),
    ensures
        a == b,
    decreases a,
{
    lemma_dec_len(a);
    lemma_dec_len(b);
    if a < 10 && b < 10 {
        assert(spec_dec(a)[0] == spec_digit(a));
        assert(spec_dec(b)[0] == spec_digit(b));
    } else if a >= 10 && b >= 10 {
        assert(spec_dec(a).drop_last() =~= spec_dec(a / 10));
        assert(spec_dec(b).drop_last() =~= spec_dec(b / 10));
        lemma_dec_injective(a / 10, b / 10);
        assert(spec_dec(a).last() == spec_digit(a % 10));
        assert(spec_dec(b).last() == spec_digit(b % 10));
        assert(a % 10 == b % 10);
        vstd::arithmetic::div_mod::lemma_fundamental_div_mod(a as int, 10);
        vstd::arithmetic::div_mod::lemma_fundamental_div_mod(b as int, 10);
    }
}

proof fn lemma_host_injective(p1: Seq<char>, k1: nat, p2: Seq<char>, k2: nat)
    requires
        spec_host(p1, k1) == spec_host(p2, k2),
    ensures
        p1 == p2,
        k1 == k2,
{
    let d1 = spec_dec(k1);
    let d2 = spec_dec(k2);
    let s = spec_host(p1, k1);
    lemma_dec_len(k1);
    lemma_dec_len(k2);
    let n1 = p1.len() as int;
    let n2 = p2.len() as int;
    assert(s.len() == n1 + 1 + d1.len());
    assert(s.len() == n2 + 1 + d2.len());
    assert(s[n1] == '.');
    assert(spec_host(p2, k2)[n2] == '.');
    if n1 < n2 {
        let t = n2 - n1 - 1;
        assert(s[n2] == d1[t]);
        lemma_dec_no_dot(k1, t);
    } else if n2 < n1 {
        let t = n1 - n2 - 1;
        assert(spec_host(p2, k2)[n1] == d2[t]);
        lemma_dec_no_dot(k2, t);
    } else {
        assert(p1 =~= p2) by {
            assert(forall|x: int| 0 <= x < n1 ==> s[x] == p1[x] && #[trigger] p2[x] == s[x]);
        }
        assert(d1 =~= d2) by {
            assert(forall|x: int|
                0 <= x < d1.len() ==> s[n1 + 1 + x] == d1[x] && #[trigger] d2[x] == s[n1 + 1
                    + x]);
        }
        lemma_dec_injective(k1, k2);
    }
}

/// Law: the enumeration yields pairwise distinct (host, port) pairs. With no
/// prefix and no port configured twice, two distinct (prefix, port,
/// host-index) triples never collide as candidates: the host address keeps
/// the prefix and the index apart, since the index's decimal rendering holds
/// no dot.
pub proof fn lemma_candidates_distinct(
    prefixes: Seq<Seq<char>>,
    ports: Seq<u16>,
    lo: int,
    hi: int,
    i1: int,
    j1: int,
    k1: int,
    i2: int,
    j2: int,
    k2: int,
)
    requires
        prefixes.no_duplicates(),
        ports.no_duplicates(),
        0 <= lo,
        lo <= k1 <= hi,
        lo <= k2 <= hi,
        0 <= i1 < prefixes.len(),
        0 <= i2 < prefixes.len(),
        0 <= j1 < ports.len(),
        0 <= j2 < ports.len(),
        !(i1 == i2 && j1 == j2 && k1 == k2),
    ensures
        (CandidateModel { host: spec_host(prefixes[i1], k1 as nat), port: ports[j1] })
            != (CandidateModel { host: spec_host(prefixes[i2], k2 as nat), port: ports[j2] }),
{
    let c1 = CandidateModel { host: spec_host(prefixes[i1], k1 as nat), port: ports[j1] };
    let c2 = CandidateModel { host: spec_host(prefixes[i2], k2 as nat), port: ports[j2] };
    if c1 == c2 {
        assert(ports[j1] == ports[j2]);
        assert(j1 == j2);
        lemma_host_injective(prefixes[i1], k1 as nat, prefixes[i2], k2 as nat);
        assert(i1 == i2);
    }
}

proof fn lemma_hosts_for_contains(prefix: Seq<char>, port: u16, lo: int, hi: int, k: int)
    requires
        0 <= lo <= k <= hi,
    ensures
        spec_hosts_for(prefix, port, lo, hi).contains(
            CandidateModel { host: spec_host(prefix, k as nat), port },
        ),
    decreases hi - lo,
{
    let m = CandidateModel { host: spec_host(prefix, k as nat), port };
    if k == hi {
        assert(spec_hosts_for(prefix, port, lo, hi).last() == m);
    } else {
        lemma_hosts_for_contains(prefix, port, lo, hi - 1, k);
        let s = spec_hosts_for(prefix, port, lo, hi - 1);
        let idx = choose|idx: int| 0 <= idx < s.len() && s[idx] == m;
        assert(spec_hosts_for(prefix, port, lo, hi)[idx] == m);
    }
}

proof fn lemma_ports_for_contains(prefix: Seq<char>, ports: Seq<u16>, lo: int, hi: int, j: int, k: int)
    requires
        0 <= lo <= k <= hi,
        0 <= j < ports.len(),
    ensures
        spec_ports_for(prefix, ports, lo, hi).contains(
            CandidateModel { host: spec_host(prefix, k as nat), port: ports[j] },
        ),
    decreases ports.len(),
{
    let m = CandidateModel { host: spec_host(prefix, k as nat), port: ports[j] };
    let rest = spec_ports_for(prefix, ports.drop_last(), lo, hi);
    let tail = spec_hosts_for(prefix, ports.last(), lo, hi);
    if j == ports.len() - 1 {
        lemma_hosts_for_contains(prefix, ports.last(), lo, hi, k);
        let idx = choose|idx: int| 0 <= idx < tail.len() && tail[idx] == m;
        assert((rest + tail)[rest.len() + idx] == m);
    } else {
        lemma_ports_for_contains(prefix, ports.drop_last(), lo, hi, j, k);
        assert(ports.drop_last()[j] == ports[j]);
        let idx = choose|idx: int| 0 <= idx < rest.len() && rest[idx] == m;
        assert((rest + tail)[idx] == m);
    }
}

/// Law: the enumeration is complete in content. Every triple of a configured
/// prefix, a configured port and a host index in `[lo, hi]` has its candidate
/// `("{prefix}.{index}", port)` in the enumerated sequence.
pub proof fn lemma_enumerate_complete(
    prefixes: Seq<Seq<char>>,
    ports: Seq<u16>,
    lo: int,
    hi: int,
    i: int,
    j: int,
    k: int,
)
    requires
        0 <= lo <= k <= hi,
        0 <= i < prefixes.len(),
        0 <= j < ports.len(),
    ensures
        spec_enumerate(prefixes, ports, lo, hi).contains(
            CandidateModel { host: spec_host(prefixes[i], k as nat), port: ports[j] },
        ),
    decreases prefixes.len(),
{
    let m = CandidateModel { host: spec_host(prefixes[i], k as nat), port: ports[j] };
    let rest = spec_enumerate(prefixes.drop_last(), ports, lo, hi);
    let tail = spec_ports_for(prefixes.last(), ports, lo, hi);
    if i == prefixes.len() - 1 {
        lemma_ports_for_contains(prefixes.last(), ports, lo, hi, j, k);
        let idx = choose|idx: int| 0 <= idx < tail.len() && tail[idx] == m;
        assert((rest + tail)[rest.len() + idx] == m);
    } else {
        lemma_enumerate_complete(prefixes.drop_last(), ports, lo, hi, i, j, k);
        assert(prefixes.drop_last()[i] == prefixes[i]);
        let idx = choose|idx: int| 0 <= idx < rest.len() && rest[idx] == m;
        assert((rest + tail)[idx] == m);
    }
}

} // verus!
