//! Aggregation of a round's probe outcomes into the batch of discovered
//! servers: a barrier-then-filter, with every non-`Discovered` outcome
//! silently absorbed.

use crate::probe::{OutcomeModel, ProbeOutcome};
use vstd::prelude::*;

verus! {

/// The externally visible record of one discovered server.
pub struct DiscoveredServer {
    pub host: String,
    pub port: u16,
    pub name: String,
    pub version: Option<String>,
    pub response_time_ms: u64,
}

/// Mathematical model of a discovered server.
#[verifier::ext_equal]
pub struct ServerModel {
    pub host: Seq<char>,
    pub port: u16,
    pub name: Seq<char>,
    pub version: Option<Seq<char>>,
    pub response_time_ms: u64,
}

impl DiscoveredServer {
    pub open spec fn model(self) -> ServerModel {
        ServerModel {
            host: self.host@,
            port: self.port,
            name: self.name@,
            version: match self.version {
                Some(v) => Some(v@),
                None => None,
            },
            response_time_ms: self.response_time_ms,
        }
    }
}

/// One completed probe of a round: the candidate it targeted and how the
/// probe was classified.
pub struct ProbeRecord {
    pub host: String,
    pub port: u16,
    pub outcome: ProbeOutcome,
}

/// Mathematical model of a probe record.
#[verifier::ext_equal]
pub struct RecordModel {
    pub host: Seq<char>,
    pub port: u16,
    pub outcome: OutcomeModel,
}

impl ProbeRecord {
    pub open spec fn model(self) -> RecordModel {
        RecordModel { host: self.host@, port: self.port, outcome: self.outcome.model() }
    }
}

/// The models of a sequence of probe records.
pub open spec fn record_models_of(records: Seq<ProbeRecord>) -> Seq<RecordModel> {
    records.map_values(|r: ProbeRecord| r.model())
}

/// The models of a sequence of discovered servers.
pub open spec fn server_models_of(servers: Seq<DiscoveredServer>) -> Seq<ServerModel> {
    servers.map_values(|s: DiscoveredServer| s.model())
}

/// The server record made 1:1 from a record whose outcome is `Discovered`.
pub open spec fn spec_server_of(r: RecordModel) -> ServerModel
    recommends
        r.outcome is Discovered,
{
    match r.outcome {
        OutcomeModel::Discovered { name, version, elapsed_ms } => ServerModel {
            host: r.host,
            port: r.port,
            name,
            version,
            response_time_ms: elapsed_ms,
        },
        _ => ServerModel {
            host: r.host,
            port: r.port,
            name: Seq::empty(),
            version: None,
            response_time_ms: 0,
        },
    }
}

/// The discovery batch of a round: exactly the `Discovered` records, each
/// transformed by [`spec_server_of`], in the order the records stand.
pub open spec fn spec_collect(records: Seq<RecordModel>) -> Seq<ServerModel>
    decreases records.len(),
{
    if records.len() == 0 {
        Seq::empty()
    } else if records.last().outcome is Discovered {
        spec_collect(records.drop_last()).push(spec_server_of(records.last()))
    } else {
        spec_collect(records.drop_last())
    }
}

/// Filters a completed round: only `Discovered` outcomes are retained, each
/// transformed 1:1 into a `DiscoveredServer`; every other outcome is
/// absorbed. An empty result is a valid, non-error result.
pub fn collect_discovered(records: &Vec<ProbeRecord>) -> (r: Vec<DiscoveredServer>)
    ensures
        server_models_of(r@) == spec_collect(record_models_of(records@)),
{
    let ghost rm = record_models_of(records@);
    let mut r: Vec<DiscoveredServer> = Vec::new();
    let mut i: usize = 0;
    proof {
        assert(server_models_of(r@) =~= spec_collect(rm.take(0)));
    }
    while i < records.len()
        invariant
            i <= records.len(),
            rm == record_models_of(records@),
            server_models_of(r@) == spec_collect(rm.take(i as int)),
        decreases records.len() - i,
    {
        let ghost prev = server_models_of(r@);
        let rec = &records[i];
        match &rec.outcome {
            ProbeOutcome::Discovered { name, version, elapsed_ms } => {
                let version_copy = match version {
                    Some(v) => Some(v.clone()),
                    None => None,
                };
                r.push(
                    DiscoveredServer {
                        host: rec.host.clone(),
                        port: rec.port,
                        name: name.clone(),
                        version: version_copy,
                        response_time_ms: *elapsed_ms,
                    },
                );
                proof {
                    assert(server_models_of(r@) =~= prev.push(spec_server_of(rm[i as int])));
                }
            },
            _ => {},
        }
        i = i + 1;
        proof {
            assert(rm.take(i as int).drop_last() =~= rm.take(i - 1));
            assert(rm.take(i as int).last() == rm[i - 1]);
            assert(server_models_of(r@) =~= spec_collect(rm.take(i as int)));
        }
    }
    proof {
        assert(rm.take(records@.len() as int) =~= rm);
    }
    r
}

/// Law: filter correctness. Every server in the collected batch comes from a
/// `Discovered` record, transformed 1:1, and every `Discovered` record
/// contributes its server to the batch; records with any other outcome
/// contribute nothing.
pub proof fn lemma_collect_exact(records: Seq<RecordModel>)
    ensures
        forall|j: int|
            0 <= j < spec_collect(records).len() ==> exists|i: int|
                0 <= i < records.len() && records[i].outcome is Discovered
                    && #[trigger] spec_collect(records)[j] == #[trigger] spec_server_of(
                    records[i],
                ),
        forall|i: int|
            0 <= i < records.len() && (#[trigger] records[i].outcome) is Discovered
                ==> spec_collect(records).contains(spec_server_of(records[i])),
    decreases records.len(),
{
    if records.len() > 0 {
        lemma_collect_exact(records.drop_last());
        let rest = spec_collect(records.drop_last());
        assert forall|i: int|
            0 <= i < records.len() && records[i].outcome is Discovered implies spec_collect(
            records,
        ).contains(spec_server_of(records[i])) by {
            if i < records.len() - 1 {
                assert(records.drop_last()[i] == records[i]);
                assert(rest.contains(spec_server_of(records[i])));
                let idx = choose|idx: int|
                    0 <= idx < rest.len() && rest[idx] == spec_server_of(records[i]);
                assert(spec_collect(records)[idx] == spec_server_of(records[i]));
            } else {
                assert(spec_collect(records).last() == spec_server_of(records[i]));
            }
        }
        assert forall|j: int| 0 <= j < spec_collect(records).len() implies exists|i: int|
            0 <= i < records.len() && records[i].outcome is Discovered
                && #[trigger] spec_collect(records)[j] == #[trigger] spec_server_of(
                records[i],
            ) by {
            if j < rest.len() {
                assert(rest[j] == spec_collect(records)[j]);
                let i = choose|i: int|
                    0 <= i < records.drop_last().len() && records.drop_last()[i].outcome
                        is Discovered && rest[j] == spec_server_of(records.drop_last()[i]);
                assert(records.drop_last()[i] == records[i]);
                assert(records[i].outcome is Discovered && spec_collect(records)[j]
                    == spec_server_of(records[i]));
            } else {
                let i = records.len() - 1;
                assert(records[i].outcome is Discovered && spec_collect(records)[j]
                    == spec_server_of(records[i]));
            }
        }
    }
}

/// Law: empty is success. A round in which no record's outcome is
/// `Discovered` — for instance one where every candidate was unreachable —
/// collects an empty batch.
pub proof fn lemma_collect_none_empty(records: Seq<RecordModel>)
    requires
        forall|i: int| 0 <= i < records.len() ==> !(#[trigger] records[i].outcome is Discovered),
    ensures
        spec_collect(records) == Seq::<ServerModel>::empty(),
    decreases records.len(),
{
    if records.len() > 0 {
        assert(forall|i: int|
            0 <= i < records.drop_last().len() ==> #[trigger] records.drop_last()[i]
                == records[i]);
        lemma_collect_none_empty(records.drop_last());
    }
}

} // verus!
