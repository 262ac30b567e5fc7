//! One probe round: checking that every target could be registered, and
//! matching the facility's responses back onto the tracked host records.

use vstd::prelude::*;
use crate::host::Host;
use crate::host::HostModel;
use crate::host::calc_model;
use crate::host::push_model;

verus! {

/// One per-target answer from a probe round.
pub struct Response {
    /// Target name as registered for the round.
    pub name: String,
    /// Resolved address; may be empty.
    pub address: String,
    /// Latency in microseconds; meaningless when `dropped`.
    pub latency: u64,
    /// True when no reply arrived within the round timeout.
    pub dropped: bool,
}

/// Mathematical image of a [`Response`].
pub ghost struct ResponseModel {
    pub name: Seq<char>,
    pub address: Seq<char>,
    pub latency: u64,
    pub dropped: bool,
}

impl View for Response {
    type V = ResponseModel;

    open spec fn view(&self) -> ResponseModel {
        ResponseModel {
            name: self.name@,
            address: self.address@,
            latency: self.latency,
            dropped: self.dropped,
        }
    }
}

/// The models of a sequence of host records.
pub open spec fn hosts_model(hosts: Seq<Host>) -> Seq<HostModel> {
    hosts.map_values(|h: Host| h@)
}

/// The models of a sequence of responses.
pub open spec fn responses_model(rs: Seq<Response>) -> Seq<ResponseModel> {
    rs.map_values(|r: Response| r@)
}

/// Every record's history is within capacity.
pub open spec fn all_wf(hosts: Seq<HostModel>) -> bool {
    forall|i: int| 0 <= i < hosts.len() ==> (#[trigger] hosts[i]).wf()
}

/// Index of the first record whose name matches, or -1 when none does.
pub open spec fn find_host(hosts: Seq<HostModel>, name: Seq<char>) -> int
    decreases hosts.len(),
{
    if hosts.len() == 0 {
        -1
    } else if hosts.first().name == name {
        0
    } else {
        let rest = find_host(hosts.drop_first(), name);
        if rest < 0 {
            -1
        } else {
            rest + 1
        }
    }
}

/// One record after a successful response: address set, latency pushed,
/// statistics recomputed from the new window.
pub open spec fn update_model(m: HostModel, r: ResponseModel) -> HostModel {
    calc_model(
        HostModel {
            address: Some(r.address),
            history: push_model(m.history, r.latency),
            current: r.latency,
            ..m
        },
    )
}

/// The host collection after one response: unchanged for a dropped
/// response or an unknown target name, else the first matching record
/// updated in place.
pub open spec fn apply_one(hosts: Seq<HostModel>, r: ResponseModel) -> Seq<HostModel> {
    if r.dropped {
        hosts
    } else {
        let i = find_host(hosts, r.name);
        if i < 0 {
            hosts
        } else {
            hosts.update(i, update_model(hosts[i], r))
        }
    }
}

/// The host collection after a whole list of responses, applied in order.
pub open spec fn apply_all(hosts: Seq<HostModel>, rs: Seq<ResponseModel>) -> Seq<HostModel>
    decreases rs.len(),
{
    if rs.len() == 0 {
        hosts
    } else {
        apply_all(apply_one(hosts, rs.first()), rs.drop_first())
    }
}

/// Drop-idempotence law: a dropped response leaves every record exactly as
/// it was.
pub proof fn lemma_drop_idempotent(hosts: Seq<HostModel>, r: ResponseModel)
    requires
        r.dropped,
    ensures
        apply_one(hosts, r) == hosts,
{
}

/// `find_host` returns an in-range index of a record with the given name,
/// before which no record carries it, or -1 when no record carries it.
pub proof fn lemma_find_host_bounds(hosts: Seq<HostModel>, name: Seq<char>)
    ensures
        -1 <= find_host(hosts, name) < hosts.len(),
        find_host(hosts, name) >= 0 ==> hosts[find_host(hosts, name)].name == name,
        find_host(hosts, name) >= 0 ==> forall|j: int|
            0 <= j < find_host(hosts, name) ==> (#[trigger] hosts[j]).name != name,
        find_host(hosts, name) == -1 ==> forall|j: int|
            0 <= j < hosts.len() ==> (#[trigger] hosts[j]).name != name,
    decreases hosts.len(),
{
    if hosts.len() > 0 && hosts.first().name != name {
        lemma_find_host_bounds(hosts.drop_first(), name);
        assert forall|j: int| 1 <= j < hosts.len() implies hosts[j] == hosts.drop_first()[j - 1] by {
        }
    }
}

/// When the first match stands at index `i`, `find_host` returns `i`.
proof fn lemma_find_host_at(hosts: Seq<HostModel>, name: Seq<char>, i: int)
    requires
        0 <= i < hosts.len(),
        hosts[i].name == name,
        forall|j: int| 0 <= j < i ==> (#[trigger] hosts[j]).name != name,
    ensures
        find_host(hosts, name) == i,
    decreases i,
{
    if i > 0 {
        assert(hosts.drop_first()[i - 1] == hosts[i]);
        assert forall|j: int| 0 <= j < i - 1 implies (#[trigger] hosts.drop_first()[j]).name
            != name by {
            assert(hosts.drop_first()[j] == hosts[j + 1]);
        }
        lemma_find_host_at(hosts.drop_first(), name, i - 1);
    }
}

/// Applying the responses one more at the end equals applying that response
/// to the already-updated collection.
proof fn lemma_apply_all_snoc(hosts: Seq<HostModel>, rs: Seq<ResponseModel>, r: ResponseModel)
    ensures
        apply_all(hosts, rs.push(r)) == apply_one(apply_all(hosts, rs), r),
    decreases rs.len(),
{
    if rs.len() == 0 {
        assert(rs.push(r).drop_first() =~= Seq::<ResponseModel>::empty());
        assert(rs.push(r).first() == r);
        assert(apply_all(hosts, rs) == hosts);
        assert(apply_all(apply_one(hosts, r), Seq::<ResponseModel>::empty()) == apply_one(
            hosts,
            r,
        ));
    } else {
        assert(rs.push(r).first() == rs.first());
        assert(rs.push(r).drop_first() =~= rs.drop_first().push(r));
        lemma_apply_all_snoc(apply_one(hosts, rs.first()), rs.drop_first(), r);
    }
}

/// Applies one response to the tracked records. A dropped response, or one
/// whose target name no record carries, changes nothing; otherwise the
/// first record with that name gets the address, the sample and freshly
/// computed statistics, and every other record stays as it was.
pub fn apply_response(hosts: &mut Vec<Host>, response: &Response)
    requires
        all_wf(hosts_model(old(hosts)@)),
    ensures
        hosts_model(final(hosts)@) == apply_one(hosts_model(old(hosts)@), response@),
        all_wf(hosts_model(final(hosts)@)),
{
    proof {
        lemma_find_host_bounds(hosts_model(hosts@), response@.name);
    }
    if response.dropped {
        return ;
    }
    let n = hosts.len();
    let mut i: usize = 0;
    while i < n
        invariant
            !response@.dropped,
            i <= n,
            n == hosts@.len(),
            hosts@ == old(hosts)@,
            all_wf(hosts_model(hosts@)),
            forall|j: int| 0 <= j < i ==> (#[trigger] hosts_model(hosts@)[j]).name
                != response@.name,
        decreases n - i,
    {
        if hosts[i].name.eq(&response.name) {
            proof {
                assert(hosts_model(hosts@)[i as int] == hosts@[i as int]@);
                lemma_find_host_at(hosts_model(hosts@), response@.name, i as int);
            }
            let mut h = hosts.remove(i);
            h.set_address(response.address.clone());
            h.push_value(response.latency);
            h.calculate();
            hosts.insert(i, h);
            proof {
                let m = hosts_model(old(hosts)@);
                let mi = m[i as int];
                assert(hosts@ =~= old(hosts)@.update(i as int, hosts@[i as int]));
                assert(hosts@[i as int]@ == update_model(mi, response@));
                assert(hosts_model(hosts@) =~= m.update(
                    i as int,
                    update_model(mi, response@),
                ));
                assert(update_model(mi, response@).wf());
                assert forall|k: int| 0 <= k < hosts_model(hosts@).len() implies (
                #[trigger] hosts_model(hosts@)[k]).wf() by {
                    if k != i {
                        assert(hosts_model(hosts@)[k] == m[k]);
                    }
                }
            }
            return ;
        }
        i = i + 1;
    }
    proof {
        assert(hosts_model(hosts@) =~= hosts_model(old(hosts)@));
    }
}

/// Applies a whole round's responses to the tracked records, in order.
pub fn apply_responses(hosts: &mut Vec<Host>, responses: &Vec<Response>)
    requires
        all_wf(hosts_model(old(hosts)@)),
    ensures
        hosts_model(final(hosts)@) == apply_all(
            hosts_model(old(hosts)@),
            responses_model(responses@),
        ),
        all_wf(hosts_model(final(hosts)@)),
{
    let ghost m0 = hosts_model(hosts@);
    let ghost rm = responses_model(responses@);
    let n = responses.len();
    let mut k: usize = 0;
    while k < n
        invariant
            k <= n,
            n == responses@.len(),
            rm == responses_model(responses@),
            m0 == hosts_model(old(hosts)@),
            hosts_model(hosts@) == apply_all(m0, rm.subrange(0, k as int)),
            all_wf(hosts_model(hosts@)),
        decreases n - k,
    {
        apply_response(hosts, &responses[k]);
        proof {
            assert(rm[k as int] == responses@[k as int]@);
            assert(rm.subrange(0, k as int + 1) =~= rm.subrange(0, k as int).push(rm[k as int]));
            lemma_apply_all_snoc(m0, rm.subrange(0, k as int), rm[k as int]);
        }
        k = k + 1;
    }
    proof {
        assert(rm.subrange(0, n as int) =~= rm);
    }
}

/// A fatal round failure.
#[derive(Debug, PartialEq, Eq)]
pub enum RoundError {
    /// The named target could not be registered with the probe facility.
    UnknownHost(String),
}

impl RoundError {
    /// The name of the host this error reports.
    pub open spec fn spec_name(self) -> Seq<char> {
        match self {
            RoundError::UnknownHost(n) => n@,
        }
    }

    /// Diagnostic line naming the offending host.
    pub fn message(&self) -> (m: String)
        ensures
            m@ == "unknown hostname error: '"@ + self.spec_name() + "'"@,
    {
        match self {
            RoundError::UnknownHost(name) => {
                let mut m = "unknown hostname error: '".to_owned();
                m.append(name.as_str());
                m.append("'");
                m
            },
        }
    }
}

/// Decides whether a round may go on after target registration: given, for
/// each record in order, whether its name could be registered, returns
/// `Ok` exactly when every registration succeeded, and otherwise the error
/// naming the first host whose registration failed. Nothing is mutated;
/// on failure the round is abandoned before any response is applied.
pub fn registration_check(hosts: &Vec<Host>, registered: &Vec<bool>) -> (r: Result<
    (),
    RoundError,
>)
    requires
        registered@.len() == hosts@.len(),
    ensures
        r is Ok <==> (forall|i: int| 0 <= i < registered@.len() ==> #[trigger] registered@[i]),
        r matches Err(e) ==> exists|i: int|
            {
                &&& 0 <= i < registered@.len()
                &&& !(#[trigger] registered@[i])
                &&& (forall|j: int| 0 <= j < i ==> #[trigger] registered@[j])
                &&& e.spec_name() == hosts@[i]@.name
            },
{
    let n = hosts.len();
    let mut i: usize = 0;
    while i < n
        invariant
            i <= n,
            n == hosts@.len(),
            registered@.len() == hosts@.len(),
            forall|j: int| 0 <= j < i ==> #[trigger] registered@[j],
        decreases n - i,
    {
        if !registered[i] {
            return Err(RoundError::UnknownHost(hosts[i].name.clone()));
        }
        i = i + 1;
    }
    Ok(())
}

} // verus!
