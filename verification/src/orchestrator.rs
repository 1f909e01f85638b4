//! The provisioning orchestrator: a state machine over the ordered
//! phases request, await-active, cancel-reservation, await-readiness,
//! remote-setup, callback, teardown. The unverified shell performs the
//! provider and session I/O and feeds each answer in as a plain event;
//! every decision — what to submit next, when a poll batch counts as
//! ready, which faults are transient, and that every fatal fault routes
//! through teardown — is made here.

use vstd::prelude::*;

use crate::error::Error;
use crate::error::Outcome;
use crate::error::ProviderError;
use crate::idmap::count_for;
use crate::idmap::ids_fresh;
use crate::idmap::key_absent;
use crate::idmap::keys_unique;
use crate::idmap::lemma_count_pointwise;
use crate::idmap::lemma_count_push;
use crate::idmap::lemma_count_take_all;
use crate::idmap::lemma_count_take_mono;
use crate::idmap::lemma_count_take_step;
use crate::idmap::lemma_count_zero;
use crate::machine::find_inst;
use crate::machine::find_status;
use crate::machine::inst_complete;
use crate::machine::instance_ready;
use crate::machine::lemma_find_inst_props;
use crate::machine::lemma_find_status_props;
use crate::machine::machine_for;
use crate::machine::reported_instance;
use crate::machine::status_ready;
use crate::machine::CapacityRequest;
use crate::machine::InstanceDescription;
use crate::machine::Machine;
use crate::machine::MachineView;
use crate::machine::ProvisionConfig;
use crate::machine::RequestStatus;
use crate::registry::desc_entry;
use crate::registry::find_name;
use crate::registry::lemma_find_name_props;
use crate::registry::unique_names;
use crate::registry::BurstBuilder;
use crate::registry::DescEntry;
use crate::registry::MachineSetup;

verus! {

/// Where the run stands. The phases advance in strict order; a fatal
/// fault in any running phase jumps to `Teardown`, never past it.
#[derive(PartialEq, Eq, Structural, Clone, Copy, Debug)]
pub enum Phase {
    /// Submitting one capacity request per descriptor.
    Requesting,
    /// Polling until every capacity request reports active.
    AwaitActive,
    /// Cancelling the now-satisfied capacity requests.
    CancelRequests,
    /// Polling until every instance exposes full metadata.
    AwaitReady,
    /// Opening a session and running setup on each machine in turn.
    Setup,
    /// Handing the fleet to the caller's callback.
    Callback,
    /// Terminating every assigned instance.
    Teardown,
    /// Terminal.
    Done,
}

/// What a batch of request statuses amounted to.
#[derive(PartialEq, Eq, Structural, Clone, Copy, Debug)]
pub enum ActivePoll {
    /// Every outstanding request is active: the run advanced.
    Ready,
    /// Some request is not active yet (or not answered): poll again.
    NotReady,
    /// Every request is active but the reported instances collide:
    /// the run aborted with a poll fault.
    Malformed,
}

/// Is `err` expected to resolve itself on retry, in phase `phase`?
/// Only two faults ever are: the provider not knowing fresh request
/// identifiers yet while awaiting the active state, and a dropped
/// transport connection while terminating.
pub open spec fn transient_for(phase: Phase, err: ProviderError) -> bool {
    ||| (phase == Phase::AwaitActive && err == ProviderError::RequestNotVisible)
    ||| (phase == Phase::Teardown && err == ProviderError::TransportDisconnect)
}

/// Law: the retry policy in full. While awaiting the active state,
/// exactly the "request not yet visible" fault warrants a retry; while
/// terminating, exactly a dropped transport connection does; while
/// cancelling requests or awaiting instance readiness, no fault does.
/// Everything else is surfaced at once, without retrying.
pub proof fn lemma_retry_policy(phase: Phase, err: ProviderError)
    ensures
        phase == Phase::AwaitActive ==> (transient_for(phase, err) <==> err
            == ProviderError::RequestNotVisible),
        phase == Phase::Teardown ==> (transient_for(phase, err) <==> err
            == ProviderError::TransportDisconnect),
        phase == Phase::CancelRequests || phase == Phase::AwaitReady ==> !transient_for(
            phase,
            err,
        ),
{
}

/// The state machine driving one run.
pub struct Orchestrator {
    pub phase: Phase,
    /// Snapshot of the registry: (name, setup, count) per group.
    pub descriptors: Vec<(String, MachineSetup, u32)>,
    pub max_duration_mins: i64,
    pub security_groups: Vec<String>,
    pub key_name: String,
    /// How many descriptors have been submitted so far.
    pub next_submit: usize,
    /// Identifier-to-group-name pairs: request identifiers until the
    /// active transition, instance identifiers from then on.
    pub id_to_name: Vec<(String, String)>,
    /// The capacity-request identifiers, in submission order.
    pub request_ids: Vec<String>,
    /// The instance identifiers ever assigned to this run, in the order
    /// of the requests they satisfied. Filled once, at the active
    /// transition, and never changed: teardown covers exactly this set.
    pub instance_ids: Vec<String>,
    /// The fleet under assembly: one (group name, machines) entry per
    /// descriptor, rebuilt from scratch by each readiness poll.
    pub fleet: Vec<(String, Vec<Machine>)>,
    /// Remote-setup cursor: next machine to configure.
    pub setup_group: usize,
    pub setup_machine: usize,
    /// The first fatal fault of the run, if any.
    pub fault: Option<Error>,
    /// Whether the callback reported success. Meaningful once teardown
    /// is reached from the callback phase.
    pub callback_ok: bool,
    /// Whether terminating the instances itself failed fatally.
    pub teardown_failed: bool,
}

impl Orchestrator {
    /// The descriptor snapshot's mathematical image.
    pub open spec fn descs(self) -> Seq<DescEntry> {
        self.descriptors@.map(|i: int, d: (String, MachineSetup, u32)| desc_entry(d))
    }

    /// The identifier map's mathematical image.
    pub open spec fn id_map(self) -> Seq<(Seq<char>, Seq<char>)> {
        self.id_to_name@.map(|i: int, p: (String, String)| (p.0@, p.1@))
    }

    /// Every submitted group has exactly its requested number of
    /// identifiers mapped to it.
    pub open spec fn group_counts_hold(self) -> bool {
        forall|k: int|
            0 <= k < self.next_submit ==> count_for(
                self.id_map(),
                (#[trigger] self.descs()[k]).name,
            ) == self.descs()[k].count
    }

    /// Every map entry belongs to a group submitted so far: its group
    /// name is found among the first `next_submit` descriptors.
    pub open spec fn groups_known(self) -> bool {
        forall|j: int|
            0 <= j < self.id_map().len() ==> 0 <= find_name(
                self.descs(),
                (#[trigger] self.id_map()[j]).1,
            ) < self.next_submit
    }

    /// `request_ids` mirrors the map's keys, position for position.
    pub open spec fn requests_aligned(self) -> bool {
        &&& self.request_ids@.len() == self.id_map().len()
        &&& forall|j: int|
            0 <= j < self.id_map().len() ==> (#[trigger] self.request_ids@[j])@
                == self.id_map()[j].0
    }

    /// `instance_ids` mirrors the map's keys, position for position.
    pub open spec fn instances_aligned(self) -> bool {
        &&& self.instance_ids@.len() == self.id_map().len()
        &&& forall|j: int|
            0 <= j < self.id_map().len() ==> (#[trigger] self.instance_ids@[j])@
                == self.id_map()[j].0
    }

    /// The fleet holds one entry per descriptor, under the descriptor's
    /// name, with exactly the requested number of machines.
    pub open spec fn fleet_complete(self) -> bool {
        &&& self.fleet@.len() == self.descs().len()
        &&& forall|k: int|
            0 <= k < self.descs().len() ==> (#[trigger] self.fleet@[k]).0@
                == self.descs()[k].name && self.fleet@[k].1@.len() == self.descs()[k].count
    }

    /// Does machine (g, m) come before the setup cursor?
    pub open spec fn before_cursor(self, g: int, m: int) -> bool {
        g < self.setup_group || (g == self.setup_group && m < self.setup_machine)
    }

    /// A session is attached to exactly the machines the cursor has
    /// passed.
    pub open spec fn sessions_match_cursor(self) -> bool {
        forall|g: int, m: int|
            0 <= g < self.fleet@.len() && 0 <= m < self.fleet@[g].1@.len() ==> ((#[trigger] self
                .fleet@[g].1@[m]).session is Some <==> self.before_cursor(g, m))
    }

    /// Every machine carries a session.
    pub open spec fn all_sessions(self) -> bool {
        forall|g: int, m: int|
            0 <= g < self.fleet@.len() && 0 <= m < self.fleet@[g].1@.len() ==> (#[trigger] self
                .fleet@[g].1@[m]).session is Some
    }

    pub open spec fn wf(self) -> bool {
        &&& unique_names(self.descs())
        &&& forall|k: int| 0 <= k < self.descs().len() ==> (#[trigger] self.descs()[k]).count > 0
        &&& 0 < self.max_duration_mins
        &&& self.next_submit <= self.descs().len()
        &&& keys_unique(self.id_map())
        &&& self.group_counts_hold()
        &&& self.groups_known()
        &&& match self.phase {
            Phase::Requesting => {
                &&& self.next_submit < self.descs().len()
                &&& self.requests_aligned()
                &&& self.instance_ids@.len() == 0
                &&& self.fault is None
                &&& !self.teardown_failed
            },
            Phase::AwaitActive => {
                &&& self.next_submit == self.descs().len()
                &&& self.requests_aligned()
                &&& self.instance_ids@.len() == 0
                &&& self.fault is None
                &&& !self.teardown_failed
            },
            Phase::CancelRequests | Phase::AwaitReady => {
                &&& self.next_submit == self.descs().len()
                &&& self.instances_aligned()
                &&& self.fault is None
                &&& !self.teardown_failed
            },
            Phase::Setup => {
                &&& self.next_submit == self.descs().len()
                &&& self.instances_aligned()
                &&& self.fleet_complete()
                &&& self.setup_group < self.fleet@.len()
                &&& self.setup_machine < self.fleet@[self.setup_group as int].1@.len()
                &&& self.sessions_match_cursor()
                &&& self.fault is None
                &&& !self.teardown_failed
            },
            Phase::Callback => {
                &&& self.next_submit == self.descs().len()
                &&& self.instances_aligned()
                &&& self.fleet_complete()
                &&& self.all_sessions()
                &&& self.fault is None
                &&& !self.teardown_failed
            },
            Phase::Teardown => !self.teardown_failed,
            Phase::Done => true,
        }
    }

    /// Everything but the phase, the fault record, and the teardown
    /// flag is the same in `a` and `b`.
    pub open spec fn same_run_state(a: Orchestrator, b: Orchestrator) -> bool {
        &&& a.descriptors == b.descriptors
        &&& a.max_duration_mins == b.max_duration_mins
        &&& a.security_groups == b.security_groups
        &&& a.key_name == b.key_name
        &&& a.next_submit == b.next_submit
        &&& a.id_to_name == b.id_to_name
        &&& a.request_ids == b.request_ids
        &&& a.instance_ids == b.instance_ids
        &&& a.fleet == b.fleet
        &&& a.setup_group == b.setup_group
        &&& a.setup_machine == b.setup_machine
        &&& a.callback_ok == b.callback_ok
    }

    /// A fresh orchestrator over the registry's snapshot: ready to
    /// submit, or — when nothing was registered — already awaiting the
    /// (vacuously) active state.
    pub fn new(builder: BurstBuilder, config: ProvisionConfig) -> (r: Orchestrator)
        requires
            builder.wf(),
        ensures
            r.wf(),
            r.descs() == builder.descs(),
            r.max_duration_mins == builder.max_duration_mins,
            r.security_groups == config.security_groups,
            r.key_name == config.key_name,
            r.phase == (if builder.descs().len() == 0 {
                Phase::AwaitActive
            } else {
                Phase::Requesting
            }),
            r.next_submit == 0,
            r.id_map().len() == 0,
            r.request_ids@.len() == 0,
            r.instance_ids@.len() == 0,
            r.fleet@.len() == 0,
            r.fault is None,
            r.callback_ok,
            !r.teardown_failed,
    {
        let phase = if builder.descriptors.len() == 0 {
            Phase::AwaitActive
        } else {
            Phase::Requesting
        };
        Orchestrator {
            phase,
            descriptors: builder.descriptors,
            max_duration_mins: builder.max_duration_mins,
            security_groups: config.security_groups,
            key_name: config.key_name,
            next_submit: 0,
            id_to_name: Vec::new(),
            request_ids: Vec::new(),
            instance_ids: Vec::new(),
            fleet: Vec::new(),
            setup_group: 0,
            setup_machine: 0,
            fault: Option::None,
            callback_ok: true,
            teardown_failed: false,
        }
    }

    /// The capacity request to submit next: the current descriptor's
    /// shape, image and count, under the run's duration budget and the
    /// injected network/security profile.
    pub fn next_capacity_request(&self) -> (r: CapacityRequest)
        requires
            self.wf(),
            self.phase == Phase::Requesting,
        ensures
            r.group@ == self.descs()[self.next_submit as int].name,
            r.instance_type@ == self.descs()[self.next_submit as int].instance_type,
            r.ami@ == self.descs()[self.next_submit as int].ami,
            r.count == self.descs()[self.next_submit as int].count,
            r.duration_mins == self.max_duration_mins,
            r.security_groups@ == self.security_groups@,
            r.key_name@ == self.key_name@,
    {
        let d = &self.descriptors[self.next_submit];
        CapacityRequest {
            group: d.0.clone(),
            instance_type: d.1.instance_type.clone(),
            ami: d.1.ami.clone(),
            count: d.2,
            duration_mins: self.max_duration_mins,
            security_groups: clone_strings(&self.security_groups),
            key_name: self.key_name.clone(),
        }
    }

    /// The capacity-request identifiers issued so far, for the shell to
    /// poll or cancel by.
    pub fn outstanding_request_ids(&self) -> (r: Vec<String>)
        ensures
            r@ == self.request_ids@,
    {
        clone_strings(&self.request_ids)
    }

    /// The instance identifiers ever assigned to this run, for the
    /// shell to describe or terminate by.
    pub fn assigned_instance_ids(&self) -> (r: Vec<String>)
        ensures
            r@ == self.instance_ids@,
    {
        clone_strings(&self.instance_ids)
    }

    /// Records the identifiers the provider returned for the current
    /// descriptor's submission, then moves on to the next descriptor —
    /// or, after the last one, to the active-state poll. The answer must
    /// hold exactly the requested number of identifiers, pairwise
    /// distinct and never seen before; anything else is a malformed
    /// provider answer, which aborts the run through teardown.
    #[verifier::loop_isolation(false)]
    pub fn record_submission(&mut self, ids: Vec<String>) -> (r: Result<(), Error>)
        requires
            old(self).wf(),
            old(self).phase == Phase::Requesting,
        ensures
            final(self).wf(),
            ({
                let ids_v = ids@.map(|i: int, s: String| s@);
                let m = old(self).id_map();
                let want = old(self).descs()[old(self).next_submit as int].count;
                let name = old(self).descs()[old(self).next_submit as int].name;
                &&& (r is Ok <==> ids_v.len() == want && ids_fresh(m, ids_v))
                &&& (r is Ok ==> {
                    &&& final(self).id_map().len() == m.len() + ids_v.len()
                    &&& (forall|j: int| 0 <= j < m.len() ==> final(self).id_map()[j] == m[j])
                    &&& (forall|t: int|
                        m.len() <= t < m.len() + ids_v.len() ==> #[trigger] final(self).id_map()[t]
                            == (ids_v[t - m.len()], name))
                    &&& final(self).next_submit == old(self).next_submit + 1
                    &&& final(self).phase == (if old(self).next_submit + 1 == old(
                        self,
                    ).descs().len() {
                        Phase::AwaitActive
                    } else {
                        Phase::Requesting
                    })
                    &&& final(self).descs() == old(self).descs()
                    &&& final(self).instance_ids == old(self).instance_ids
                    &&& final(self).fleet == old(self).fleet
                    &&& final(self).max_duration_mins == old(self).max_duration_mins
                    &&& final(self).security_groups == old(self).security_groups
                    &&& final(self).key_name == old(self).key_name
                    &&& final(self).fault is None
                })
                &&& (r is Err ==> {
                    &&& r == Err::<(), Error>(Error::SubmissionFailed)
                    &&& final(self).phase == Phase::Teardown
                    &&& final(self).fault == Some(Error::SubmissionFailed)
                    &&& !final(self).teardown_failed
                    &&& Self::same_run_state(*final(self), *old(self))
                })
            }),
    {
        let ghost ids_v = ids@.map(|i: int, s: String| s@);
        let ghost m0 = old(self).id_map();
        let want = self.descriptors[self.next_submit].2;
        if ids.len() != want as usize {
            self.fault = Option::Some(Error::SubmissionFailed);
            self.phase = Phase::Teardown;
            return Err(Error::SubmissionFailed);
        }
        let n = ids.len();
        let mut i: usize = 0;
        while i < n
            invariant
                *self == *old(self),
                0 <= i <= n,
                n == ids@.len(),
                forall|a: int| 0 <= a < i ==> key_absent(m0, #[trigger] ids_v[a]),
                forall|a: int, b: int| 0 <= a < b < i ==> ids_v[a] != ids_v[b],
            decreases n - i,
        {
            let mut j: usize = 0;
            let mlen = self.id_to_name.len();
            while j < mlen
                invariant
                    *self == *old(self),
                    i < n,
                    mlen == self.id_to_name@.len(),
                    0 <= j <= mlen,
                    forall|t: int| 0 <= t < j ==> (#[trigger] m0[t]).0 != ids_v[i as int],
                decreases mlen - j,
            {
                if self.id_to_name[j].0 == ids[i] {
                    proof {
                        assert(m0[j as int].0 == ids_v[i as int]);
                        assert(!key_absent(m0, ids_v[i as int]));
                        assert(!ids_fresh(m0, ids_v));
                    }
                    self.fault = Option::Some(Error::SubmissionFailed);
                    self.phase = Phase::Teardown;
                    return Err(Error::SubmissionFailed);
                }
                j += 1;
            }
            let mut a: usize = 0;
            while a < i
                invariant
                    *self == *old(self),
                    i < n,
                    n == ids@.len(),
                    0 <= a <= i,
                    forall|t: int| 0 <= t < a ==> ids_v[t] != ids_v[i as int],
                decreases i - a,
            {
                if ids[a] == ids[i] {
                    proof {
                        assert(ids_v[a as int] == ids_v[i as int]);
                        assert(!ids_fresh(m0, ids_v));
                    }
                    self.fault = Option::Some(Error::SubmissionFailed);
                    self.phase = Phase::Teardown;
                    return Err(Error::SubmissionFailed);
                }
                a += 1;
            }
            i += 1;
        }
        proof {
            assert(ids_fresh(m0, ids_v));
        }

        let name = self.descriptors[self.next_submit].0.clone();
        let ghost ns0 = old(self).next_submit as int;
        proof {
            assert(name@ == old(self).descs()[ns0].name);
            lemma_find_name_props(old(self).descs(), name@);
            let f = find_name(old(self).descs(), name@);
            assert(f >= 0) by {
                if f == -1 {
                    assert(old(self).descs()[ns0].name != name@);
                }
            }
            assert(f == ns0) by {
                if f < ns0 {
                    assert(old(self).descs()[f].name != old(self).descs()[ns0].name);
                }
                if ns0 < f {
                    assert(old(self).descs()[ns0].name != name@);
                }
            }
            // nothing is mapped to this group yet
            assert forall|j: int| 0 <= j < m0.len() implies (#[trigger] m0[j]).1 != name@ by {
                if m0[j].1 == name@ {
                    assert(find_name(old(self).descs(), m0[j].1) < ns0);
                }
            }
            lemma_count_zero(m0, name@);
        }
        let mut t: usize = 0;
        while t < n
            invariant
                0 <= t <= n,
                n == ids@.len(),
                name@ == old(self).descs()[ns0].name,
                self.phase == old(self).phase,
                self.descriptors == old(self).descriptors,
                self.max_duration_mins == old(self).max_duration_mins,
                self.security_groups == old(self).security_groups,
                self.key_name == old(self).key_name,
                self.next_submit == old(self).next_submit,
                self.instance_ids == old(self).instance_ids,
                self.fleet == old(self).fleet,
                self.setup_group == old(self).setup_group,
                self.setup_machine == old(self).setup_machine,
                self.fault == old(self).fault,
                self.callback_ok == old(self).callback_ok,
                self.teardown_failed == old(self).teardown_failed,
                self.id_to_name@.len() == m0.len() + t,
                forall|j: int| 0 <= j < m0.len() ==> self.id_map()[j] == m0[j],
                forall|u: int|
                    m0.len() <= u < m0.len() + t ==> #[trigger] self.id_map()[u] == (
                    ids_v[u - m0.len()],
                    name@,
                    ),
                self.request_ids@.len() == old(self).request_ids@.len() + t,
                forall|j: int|
                    0 <= j < old(self).request_ids@.len() ==> self.request_ids@[j] == old(
                        self,
                    ).request_ids@[j],
                forall|u: int|
                    old(self).request_ids@.len() <= u < self.request_ids@.len() ==> (
                    #[trigger] self.request_ids@[u])@ == ids_v[u - old(self).request_ids@.len()],
                forall|k: int|
                    0 <= k < ns0 ==> count_for(
                        self.id_map(),
                        (#[trigger] old(self).descs()[k]).name,
                    ) == count_for(m0, old(self).descs()[k].name),
                count_for(self.id_map(), name@) == t,
            decreases n - t,
        {
            let ghost prev = self.id_map();
            self.request_ids.push(ids[t].clone());
            self.id_to_name.push((ids[t].clone(), name.clone()));
            proof {
                assert(self.id_map() =~= prev.push((ids_v[t as int], name@)));
                assert forall|k: int| 0 <= k < ns0 implies count_for(
                    self.id_map(),
                    (#[trigger] old(self).descs()[k]).name,
                ) == count_for(prev, old(self).descs()[k].name) by {
                    lemma_count_push(prev, (ids_v[t as int], name@), old(self).descs()[k].name);
                    assert(name@ != old(self).descs()[k].name);
                }
                lemma_count_push(prev, (ids_v[t as int], name@), name@);
            }
            t += 1;
        }
        let dlen = self.descriptors.len();
        proof {
            assert(self.next_submit < dlen);
        }
        self.next_submit = self.next_submit + 1;
        if self.next_submit == dlen {
            self.phase = Phase::AwaitActive;
        }
        proof {
            assert(count_for(self.id_map(), name@) == want);
            // new keys never collide: old unique, fresh, pairwise distinct
            assert forall|x: int, y: int|
                0 <= x < y < self.id_map().len() implies (#[trigger] self.id_map()[x]).0 != (
            #[trigger] self.id_map()[y]).0 by {
                if y < m0.len() {
                    assert(self.id_map()[x] == m0[x]);
                    assert(self.id_map()[y] == m0[y]);
                } else if x < m0.len() {
                    assert(self.id_map()[x] == m0[x]);
                    assert(self.id_map()[y] == (ids_v[y - m0.len()], name@));
                    assert(key_absent(m0, ids_v[y - m0.len()]));
                    assert(m0[x].0 != ids_v[y - m0.len()]);
                } else {
                    assert(self.id_map()[x] == (ids_v[x - m0.len()], name@));
                    assert(self.id_map()[y] == (ids_v[y - m0.len()], name@));
                    assert(ids_v[x - m0.len()] != ids_v[y - m0.len()]);
                }
            }
            assert(self.groups_known()) by {
                assert forall|j: int|
                    0 <= j < self.id_map().len() implies 0 <= find_name(
                    self.descs(),
                    (#[trigger] self.id_map()[j]).1,
                ) < self.next_submit by {
                    assert(self.descs() == old(self).descs());
                    if j >= m0.len() {
                        assert(self.id_map()[j].1 == name@);
                        assert(find_name(old(self).descs(), name@) == ns0);
                    } else {
                        assert(self.id_map()[j] == m0[j]);
                        assert(old(self).id_map()[j] == m0[j]);
                        assert(0 <= find_name(old(self).descs(), old(self).id_map()[j].1) < ns0);
                    }
                }
            }
            assert(self.group_counts_hold()) by {
                assert forall|k: int|
                    0 <= k < self.next_submit implies count_for(
                    self.id_map(),
                    (#[trigger] self.descs()[k]).name,
                ) == self.descs()[k].count by {
                    if k < ns0 {
                        assert(count_for(m0, old(self).descs()[k].name) == old(
                            self,
                        ).descs()[k].count);
                    } else {
                        assert(self.descs()[k].name == name@);
                    }
                }
            }
        }
        Ok(())
    }

    /// Submitting the current descriptor's capacity request failed:
    /// fatal, straight to teardown (which covers whatever instances
    /// exist — none yet in this phase).
    pub fn on_submission_error(&mut self)
        requires
            old(self).wf(),
            old(self).phase == Phase::Requesting,
        ensures
            final(self).wf(),
            final(self).phase == Phase::Teardown,
            final(self).fault == Some(Error::SubmissionFailed),
            !final(self).teardown_failed,
            Self::same_run_state(*final(self), *old(self)),
    {
        self.fault = Option::Some(Error::SubmissionFailed);
        self.phase = Phase::Teardown;
    }

    /// The retry policy, in one place: a provider fault during any
    /// polling or cancelling interaction either warrants an immediate
    /// retry (and changes nothing), or is fatal. A fatal fault before
    /// teardown records `PollFailed` and jumps to teardown; a fatal
    /// fault during teardown ends the run with the teardown marked
    /// failed.
    pub fn on_provider_error(&mut self, err: ProviderError) -> (retry: bool)
        requires
            old(self).wf(),
            old(self).phase == Phase::AwaitActive || old(self).phase == Phase::CancelRequests
                || old(self).phase == Phase::AwaitReady || old(self).phase == Phase::Teardown,
        ensures
            final(self).wf(),
            retry == transient_for(old(self).phase, err),
            retry ==> *final(self) == *old(self),
            !retry ==> Self::same_run_state(*final(self), *old(self)),
            !retry && old(self).phase != Phase::Teardown ==> final(self).phase == Phase::Teardown
                && final(self).fault == Some(Error::PollFailed) && !final(self).teardown_failed,
            !retry && old(self).phase == Phase::Teardown ==> final(self).phase == Phase::Done
                && final(self).fault == old(self).fault && final(self).teardown_failed,
    {
        let transient = (self.phase == Phase::AwaitActive && err == ProviderError::RequestNotVisible)
            || (self.phase == Phase::Teardown && err == ProviderError::TransportDisconnect);
        if transient {
            return true;
        }
        if self.phase == Phase::Teardown {
            self.teardown_failed = true;
            self.phase = Phase::Done;
        } else {
            self.fault = Option::Some(Error::PollFailed);
            self.phase = Phase::Teardown;
        }
        false
    }

    /// One answer to the active-state poll. Ready iff every outstanding
    /// request has a status in the batch that is active and carries its
    /// instance — then the identifier map is rewritten one-for-one from
    /// request keys to instance keys (each group fact moves intact), the
    /// run's instance set is fixed, and the run advances to cancelling
    /// the requests. A batch with any request still pending changes
    /// nothing. An all-active batch whose reported instances collide is
    /// malformed: the run aborts through teardown with a poll fault.
    #[verifier::loop_isolation(false)]
    pub fn on_describe_requests(&mut self, statuses: &Vec<RequestStatus>) -> (r: ActivePoll)
        requires
            old(self).wf(),
            old(self).phase == Phase::AwaitActive,
        ensures
            final(self).wf(),
            ({
                let ss = statuses@.map(|i: int, s: RequestStatus| s@);
                let m = old(self).id_map();
                let all = forall|j: int|
                    0 <= j < m.len() ==> status_ready(ss, (#[trigger] m[j]).0);
                let distinct = forall|x: int, y: int|
                    0 <= x < y < m.len() ==> reported_instance(ss, m[x].0) != reported_instance(
                        ss,
                        m[y].0,
                    );
                &&& (r == ActivePoll::NotReady <==> !all)
                &&& (r == ActivePoll::Ready <==> all && distinct)
                &&& (r == ActivePoll::NotReady ==> *final(self) == *old(self))
                &&& (r == ActivePoll::Ready ==> {
                    &&& final(self).phase == Phase::CancelRequests
                    &&& final(self).id_map().len() == m.len()
                    &&& (forall|j: int|
                        0 <= j < m.len() ==> (#[trigger] final(self).id_map()[j]).1 == m[j].1)
                    &&& (forall|j: int|
                        0 <= j < m.len() ==> (#[trigger] final(self).id_map()[j]).0
                            == reported_instance(ss, m[j].0))
                    &&& final(self).instances_aligned()
                    &&& final(self).descs() == old(self).descs()
                    &&& final(self).request_ids == old(self).request_ids
                    &&& final(self).fleet == old(self).fleet
                    &&& final(self).fault is None
                    &&& !final(self).teardown_failed
                    &&& final(self).next_submit == old(self).next_submit
                    &&& final(self).max_duration_mins == old(self).max_duration_mins
                    &&& final(self).security_groups == old(self).security_groups
                    &&& final(self).key_name == old(self).key_name
                    &&& final(self).callback_ok == old(self).callback_ok
                })
                &&& (r == ActivePoll::Malformed ==> {
                    &&& final(self).phase == Phase::Teardown
                    &&& final(self).fault == Some(Error::PollFailed)
                    &&& !final(self).teardown_failed
                    &&& Self::same_run_state(*final(self), *old(self))
                })
            }),
    {
        let ghost ss = statuses@.map(|i: int, s: RequestStatus| s@);
        let ghost m = old(self).id_map();
        let n = self.id_to_name.len();
        let mut new_ids: Vec<String> = Vec::new();
        let mut j: usize = 0;
        while j < n
            invariant
                *self == *old(self),
                0 <= j <= n,
                n == m.len(),
                new_ids@.len() == j,
                forall|u: int| 0 <= u < j ==> status_ready(ss, (#[trigger] m[u]).0),
                forall|u: int|
                    0 <= u < j ==> (#[trigger] new_ids@[u])@ == reported_instance(ss, m[u].0),
            decreases n - j,
        {
            let req = &self.id_to_name[j].0;
            proof {
                assert(req@ == m[j as int].0);
            }
            match find_status_exec(statuses, req) {
                Option::None => {
                    proof {
                        assert(!status_ready(ss, m[j as int].0));
                    }
                    return ActivePoll::NotReady;
                },
                Option::Some(t) => {
                    proof {
                        assert(ss[t as int] == statuses@[t as int]@);
                    }
                    if !statuses[t].active {
                        proof {
                            assert(!status_ready(ss, m[j as int].0));
                        }
                        return ActivePoll::NotReady;
                    }
                    match &statuses[t].instance_id {
                        Option::None => {
                            proof {
                                assert(!status_ready(ss, m[j as int].0));
                            }
                            return ActivePoll::NotReady;
                        },
                        Option::Some(iid) => {
                            proof {
                                assert(status_ready(ss, m[j as int].0));
                                assert(iid@ == reported_instance(ss, m[j as int].0));
                            }
                            new_ids.push(iid.clone());
                        },
                    }
                },
            }
            j += 1;
        }
        // every request is active; the reported instances must not collide
        let mut b: usize = 0;
        while b < n
            invariant
                *self == *old(self),
                0 <= b <= n,
                n == m.len(),
                new_ids@.len() == n,
                forall|u: int| 0 <= u < n ==> status_ready(ss, (#[trigger] m[u]).0),
                forall|u: int|
                    0 <= u < n ==> (#[trigger] new_ids@[u])@ == reported_instance(ss, m[u].0),
                forall|x: int, y: int| 0 <= x < y < b ==> (#[trigger] new_ids@[x])@ != (
                #[trigger] new_ids@[y])@,
            decreases n - b,
        {
            let mut a: usize = 0;
            while a < b
                invariant
                    *self == *old(self),
                    0 <= a <= b < n,
                    n == m.len(),
                    new_ids@.len() == n,
                    forall|u: int| 0 <= u < n ==> status_ready(ss, (#[trigger] m[u]).0),
                    forall|u: int|
                        0 <= u < n ==> (#[trigger] new_ids@[u])@ == reported_instance(ss, m[u].0),
                    forall|x: int| 0 <= x < a ==> (#[trigger] new_ids@[x])@ != new_ids@[b as int]@,
                decreases b - a,
            {
                if new_ids[a] == new_ids[b] {
                    proof {
                        assert(reported_instance(ss, m[a as int].0) == reported_instance(
                            ss,
                            m[b as int].0,
                        ));
                    }
                    self.fault = Option::Some(Error::PollFailed);
                    self.phase = Phase::Teardown;
                    return ActivePoll::Malformed;
                }
                a += 1;
            }
            b += 1;
        }
        // rewrite the map: request keys become instance keys
        let mut k: usize = 0;
        while k < n
            invariant
                0 <= k <= n,
                n == m.len(),
                new_ids@.len() == n,
                self.id_to_name@.len() == n,
                self.phase == old(self).phase,
                self.descriptors == old(self).descriptors,
                self.max_duration_mins == old(self).max_duration_mins,
                self.security_groups == old(self).security_groups,
                self.key_name == old(self).key_name,
                self.next_submit == old(self).next_submit,
                self.request_ids == old(self).request_ids,
                self.instance_ids == old(self).instance_ids,
                self.fleet == old(self).fleet,
                self.setup_group == old(self).setup_group,
                self.setup_machine == old(self).setup_machine,
                self.fault == old(self).fault,
                self.callback_ok == old(self).callback_ok,
                self.teardown_failed == old(self).teardown_failed,
                forall|x: int, y: int| 0 <= x < y < n ==> (#[trigger] new_ids@[x])@ != (
                #[trigger] new_ids@[y])@,
                forall|u: int|
                    0 <= u < n ==> (#[trigger] new_ids@[u])@ == reported_instance(ss, m[u].0),
                forall|u: int|
                    0 <= u < k ==> #[trigger] self.id_map()[u] == (new_ids@[u]@, m[u].1),
                forall|u: int| k <= u < n ==> #[trigger] self.id_map()[u] == m[u],
            decreases n - k,
        {
            let ghost prev = self.id_map();
            let iid = new_ids[k].clone();
            let gname = self.id_to_name[k].1.clone();
            proof {
                assert(self.id_map()[k as int] == m[k as int]);
                assert(gname@ == m[k as int].1);
                assert(iid@ == new_ids@[k as int]@);
            }
            self.id_to_name.set(k, (iid, gname));
            proof {
                assert(self.id_map() =~= prev.update(
                    k as int,
                    (new_ids@[k as int]@, m[k as int].1),
                ));
            }
            k += 1;
        }
        let ghost mfinal = self.id_map();
        proof {
            assert(mfinal.len() == n);
            assert forall|u: int| 0 <= u < n implies #[trigger] mfinal[u] == (
                new_ids@[u]@,
                m[u].1,
            ) by {
                assert(self.id_map()[u] == (new_ids@[u]@, m[u].1));
            }
        }
        proof {
            assert forall|x: int, y: int|
                0 <= x < y < n implies reported_instance(ss, m[x].0) != reported_instance(
                ss,
                m[y].0,
            ) by {
                assert((new_ids@[x])@ == reported_instance(ss, m[x].0));
                assert((new_ids@[y])@ == reported_instance(ss, m[y].0));
                assert((new_ids@[x])@ != (new_ids@[y])@);
            }
        }
        self.instance_ids = new_ids;
        self.phase = Phase::CancelRequests;
        proof {
            assert(self.id_map() == mfinal);
            assert(self.descs() == old(self).descs());
            assert forall|x: int, y: int|
                0 <= x < y < mfinal.len() implies (#[trigger] mfinal[x]).0 != (
            #[trigger] mfinal[y]).0 by {
                assert(mfinal[x].0 == self.instance_ids@[x]@);
                assert(mfinal[y].0 == self.instance_ids@[y]@);
            }
            assert(self.instances_aligned()) by {
                assert forall|u: int|
                    0 <= u < mfinal.len() implies (#[trigger] self.instance_ids@[u])@
                    == mfinal[u].0 by {
                    assert(mfinal[u] == (self.instance_ids@[u]@, m[u].1));
                }
            }
            assert(self.group_counts_hold()) by {
                assert forall|kk: int|
                    0 <= kk < self.next_submit implies count_for(
                    self.id_map(),
                    (#[trigger] self.descs()[kk]).name,
                ) == self.descs()[kk].count by {
                    lemma_count_pointwise(mfinal, m, self.descs()[kk].name);
                    assert(old(self).descs()[kk].name == self.descs()[kk].name);
                }
            }
            assert(self.groups_known()) by {
                assert forall|u: int|
                    0 <= u < self.id_map().len() implies 0 <= find_name(
                    self.descs(),
                    (#[trigger] self.id_map()[u]).1,
                ) < self.next_submit by {
                    assert(self.id_map()[u].1 == m[u].1);
                    assert(old(self).id_map()[u] == m[u]);
                    assert(0 <= find_name(old(self).descs(), old(self).id_map()[u].1) < old(
                        self,
                    ).next_submit);
                }
            }
        }
        ActivePoll::Ready
    }

    /// Cancelling the satisfied capacity requests succeeded: on to the
    /// readiness poll. (The instances persist independently of the
    /// request objects.)
    pub fn on_cancel_ok(&mut self)
        requires
            old(self).wf(),
            old(self).phase == Phase::CancelRequests,
        ensures
            final(self).wf(),
            final(self).phase == Phase::AwaitReady,
            final(self).fault is None,
            !final(self).teardown_failed,
            Self::same_run_state(*final(self), *old(self)),
    {
        self.phase = Phase::AwaitReady;
    }

    /// One answer to the readiness poll: the provider's metadata for
    /// the assigned instances. Ready iff every assigned instance is
    /// described with full metadata — then the fleet is rebuilt from
    /// scratch, one entry per descriptor, every machine under the group
    /// its identifier belongs to, in assignment order, no session
    /// attached yet, and the run advances to remote setup (or straight
    /// to the callback when nothing was registered). Anything less
    /// leaves the state untouched for the next poll. No iteration bound
    /// is placed on the readiness poll here; the duration budget bounds
    /// the reservation on the provider's side.
    #[verifier::loop_isolation(false)]
    #[verifier::rlimit(100)]
    #[verifier::spinoff_prover]
    pub fn on_describe_instances(&mut self, descs: &Vec<InstanceDescription>) -> (r: bool)
        requires
            old(self).wf(),
            old(self).phase == Phase::AwaitReady,
        ensures
            final(self).wf(),
            ({
                let ds = descs@.map(|i: int, d: InstanceDescription| d@);
                let m = old(self).id_map();
                &&& (r <==> forall|j: int|
                    0 <= j < m.len() ==> instance_ready(ds, (#[trigger] m[j]).0))
                &&& (!r ==> *final(self) == *old(self))
                &&& (r ==> {
                    &&& final(self).phase == (if old(self).descs().len() == 0 {
                        Phase::Callback
                    } else {
                        Phase::Setup
                    })
                    &&& final(self).fleet_complete()
                    &&& final(self).descs() == old(self).descs()
                    &&& (forall|j: int|
                        #![trigger m[j]]
                        0 <= j < m.len() ==> (final(self).fleet@[find_name(
                            old(self).descs(),
                            m[j].1,
                        )].1@[count_for(m.take(j), m[j].1) as int])@ == machine_for(ds, m[j].0))
                    &&& final(self).setup_group == 0
                    &&& final(self).setup_machine == 0
                    &&& final(self).id_to_name == old(self).id_to_name
                    &&& final(self).instance_ids == old(self).instance_ids
                    &&& final(self).request_ids == old(self).request_ids
                    &&& final(self).descriptors == old(self).descriptors
                    &&& final(self).max_duration_mins == old(self).max_duration_mins
                    &&& final(self).security_groups == old(self).security_groups
                    &&& final(self).key_name == old(self).key_name
                    &&& final(self).next_submit == old(self).next_submit
                    &&& final(self).fault is None
                    &&& !final(self).teardown_failed
                    &&& final(self).callback_ok == old(self).callback_ok
                })
            }),
    {
        let ghost ds = descs@.map(|i: int, d: InstanceDescription| d@);
        let ghost m = old(self).id_map();
        let dn = self.descriptors.len();
        let mut groups: Vec<(String, Vec<Machine>)> = Vec::new();
        let mut k: usize = 0;
        while k < dn
            invariant
                *self == *old(self),
                0 <= k <= dn,
                dn == self.descs().len(),
                groups@.len() == k,
                forall|u: int|
                    0 <= u < k ==> (#[trigger] groups@[u]).0@ == self.descs()[u].name
                        && groups@[u].1@.len() == 0,
            decreases dn - k,
        {
            groups.push((self.descriptors[k].0.clone(), Vec::new()));
            k += 1;
        }
        let n = self.instance_ids.len();
        proof {
            assert(n == m.len());
            assert forall|u: int| 0 <= u < dn implies groups@[u].1@.len() == count_for(
                m.take(0),
                self.descs()[u].name,
            ) by {
                assert(m.take(0) =~= Seq::empty());
            }
        }
        let mut j: usize = 0;
        while j < n
            invariant
                *self == *old(self),
                0 <= j <= n,
                n == m.len(),
                groups@.len() == dn,
                dn == self.descs().len(),
                forall|u: int| 0 <= u < dn ==> (#[trigger] groups@[u]).0@ == self.descs()[u].name,
                forall|u: int|
                    0 <= u < dn ==> (#[trigger] groups@[u]).1@.len() == count_for(
                        m.take(j as int),
                        self.descs()[u].name,
                    ),
                forall|u: int| 0 <= u < j ==> instance_ready(ds, (#[trigger] m[u]).0),
                forall|u: int|
                    #![trigger m[u]]
                    0 <= u < j ==> (groups@[find_name(self.descs(), m[u].1)].1@[count_for(
                        m.take(u),
                        m[u].1,
                    ) as int])@ == machine_for(ds, m[u].0),
                forall|u: int, v: int|
                    0 <= u < dn && 0 <= v < groups@[u].1@.len() ==> (#[trigger] groups@[u].1@[v])
                        .session is None,
            decreases n - j,
        {
            let iid = &self.instance_ids[j];
            proof {
                assert(iid@ == m[j as int].0);
            }
            let found = find_inst_exec(descs, iid);
            if found.is_none() {
                proof {
                    assert(!instance_ready(ds, m[j as int].0));
                }
                return false;
            }
            let t = found.unwrap();
            proof {
                assert(ds[t as int] == descs@[t as int]@);
            }
            let d = &descs[t];
            let complete = d.instance_type.is_some() && d.private_ip.is_some()
                && d.public_dns.is_some();
            if !complete {
                proof {
                    assert(!inst_complete(ds[t as int]));
                    assert(!instance_ready(ds, m[j as int].0));
                }
                return false;
            }
            let ty = match &d.instance_type {
                Option::Some(s) => s.clone(),
                Option::None => {
                    return false;
                },
            };
            let pip = match &d.private_ip {
                Option::Some(s) => s.clone(),
                Option::None => {
                    return false;
                },
            };
            let dns = match &d.public_dns {
                Option::Some(s) => s.clone(),
                Option::None => {
                    return false;
                },
            };
            let gname = &self.id_to_name[j].1;
            let ghost g = find_name(self.descs(), m[j as int].1);
            proof {
                assert(gname@ == m[j as int].1);
                assert(0 <= g < dn);
                lemma_find_name_props(self.descs(), m[j as int].1);
                assert(self.descs()[g].name == m[j as int].1);
                assert(groups@[g].0@ == gname@);
            }
            let gi = find_group_exec(&groups, gname);
            proof {
                assert(self.descs()[gi as int].name == gname@);
                if gi as int != g {
                    if (gi as int) < g {
                        assert(self.descs()[gi as int].name != self.descs()[g].name);
                    } else {
                        assert(self.descs()[g].name != self.descs()[gi as int].name);
                    }
                }
                assert(gi as int == g);
            }
            let machine = Machine {
                instance_id: iid.clone(),
                instance_type: ty,
                private_ip: pip,
                public_dns: dns,
                session: Option::None,
            };
            proof {
                assert(instance_ready(ds, m[j as int].0));
                assert(machine@ == machine_for(ds, m[j as int].0));
            }
            let ghost groups_pre = groups@;
            let gm = &mut groups[gi];
            gm.1.push(machine);
            proof {
                assert(groups@ =~= groups_pre.update(
                    gi as int,
                    (groups_pre[gi as int].0, groups@[gi as int].1),
                ));
                assert(groups@[gi as int].1@ =~= groups_pre[gi as int].1@.push(machine));
                assert forall|u: int| 0 <= u < dn implies (#[trigger] groups@[u]).1@.len()
                    == count_for(m.take(j as int + 1), self.descs()[u].name) by {
                    lemma_count_take_step(m, j as int, self.descs()[u].name);
                    if u != g {
                        if u < g {
                            assert(self.descs()[u].name != self.descs()[g].name);
                        } else {
                            assert(self.descs()[g].name != self.descs()[u].name);
                        }
                        assert(m[j as int].1 != self.descs()[u].name);
                    }
                }
                assert forall|u: int|
                    #![trigger m[u]]
                    0 <= u < j + 1 implies (groups@[find_name(self.descs(), m[u].1)].1@[count_for(
                    m.take(u),
                    m[u].1,
                ) as int])@ == machine_for(ds, m[u].0) by {
                    if u == j as int {
                        assert(groups@[g].1@[groups_pre[g].1@.len() as int] == machine);
                        assert(groups_pre[g].1@.len() == count_for(
                            m.take(j as int),
                            m[j as int].1,
                        ));
                    } else {
                        assert(self.id_map()[u] == m[u]);
                        let gu = find_name(self.descs(), m[u].1);
                        assert(0 <= gu < dn);
                        assert((groups_pre[gu].1@[count_for(m.take(u), m[u].1) as int])@
                            == machine_for(ds, m[u].0));
                        if gu != g {
                            assert(groups@[gu] == groups_pre[gu]);
                        } else {
                            lemma_find_name_props(self.descs(), m[u].1);
                            assert(self.descs()[g].name == m[u].1);
                            assert(m[u].1 == m[j as int].1);
                            lemma_count_take_step(m, u, m[u].1);
                            lemma_count_take_mono(m, u + 1, j as int, m[u].1);
                            assert(count_for(m.take(u), m[u].1) < count_for(
                                m.take(j as int),
                                m[u].1,
                            ));
                            assert(groups@[g].1@[count_for(m.take(u), m[u].1) as int]
                                == groups_pre[g].1@[count_for(m.take(u), m[u].1) as int]);
                        }
                    }
                }
            }
            j += 1;
        }
        proof {
            assert forall|u: int| 0 <= u < dn implies (#[trigger] groups@[u]).1@.len()
                == self.descs()[u].count by {
                lemma_count_take_all(m, self.descs()[u].name);
                assert(count_for(m, self.descs()[u].name) == self.descs()[u].count);
            }
        }
        let ghost groups_final = groups@;
        self.fleet = groups;
        self.setup_group = 0;
        self.setup_machine = 0;
        if dn == 0 {
            self.phase = Phase::Callback;
        } else {
            self.phase = Phase::Setup;
        }
        proof {
            assert(self.fleet@ == groups_final);
            assert(self.descs() == old(self).descs());
            assert(self.id_map() == m);
            if dn > 0 {
                assert(self.fleet@[0].1@.len() == self.descs()[0].count);
                assert(self.descs()[0].count > 0);
            }
        }
        true
    }

    /// The machine to configure next: its group's name (by which the
    /// shell picks the setup routine) and its public address (to open
    /// the session to).
    pub fn next_setup_target(&self) -> (r: (String, String))
        requires
            self.wf(),
            self.phase == Phase::Setup,
        ensures
            r.0@ == self.fleet@[self.setup_group as int].0@,
            r.1@ == self.fleet@[self.setup_group as int].1@[self.setup_machine as int]@.public_dns,
    {
        let g = &self.fleet[self.setup_group];
        (g.0.clone(), g.1[self.setup_machine].public_dns.clone())
    }

    /// The shell opened a session to the current machine and the group's
    /// setup routine succeeded over it: attach the session's handle and
    /// move to the next machine — or, after the last one, hand over to
    /// the callback with every machine carrying a session.
    pub fn on_session_attached(&mut self, session: u64)
        requires
            old(self).wf(),
            old(self).phase == Phase::Setup,
        ensures
            final(self).wf(),
            ({
                let g = old(self).setup_group as int;
                let mi = old(self).setup_machine as int;
                let fleet0 = old(self).fleet@;
                &&& final(self).fleet@.len() == fleet0.len()
                &&& (forall|k: int|
                    0 <= k < fleet0.len() && k != g ==> final(self).fleet@[k] == fleet0[k])
                &&& final(self).fleet@[g].0 == fleet0[g].0
                &&& final(self).fleet@[g].1@.len() == fleet0[g].1@.len()
                &&& (forall|v: int|
                    0 <= v < fleet0[g].1@.len() && v != mi ==> final(self).fleet@[g].1@[v]
                        == fleet0[g].1@[v])
                &&& (final(self).fleet@[g].1@[mi])@ == (MachineView {
                    instance_id: (fleet0[g].1@[mi])@.instance_id,
                    instance_type: (fleet0[g].1@[mi])@.instance_type,
                    private_ip: (fleet0[g].1@[mi])@.private_ip,
                    public_dns: (fleet0[g].1@[mi])@.public_dns,
                    session: Some(session),
                })
                &&& (if mi + 1 < fleet0[g].1@.len() {
                    final(self).phase == Phase::Setup && final(self).setup_group == g
                        && final(self).setup_machine == mi + 1
                } else if g + 1 < fleet0.len() {
                    final(self).phase == Phase::Setup && final(self).setup_group == g + 1
                        && final(self).setup_machine == 0
                } else {
                    final(self).phase == Phase::Callback
                })
                &&& final(self).id_to_name == old(self).id_to_name
                &&& final(self).instance_ids == old(self).instance_ids
                &&& final(self).request_ids == old(self).request_ids
                &&& final(self).descriptors == old(self).descriptors
                &&& final(self).max_duration_mins == old(self).max_duration_mins
                &&& final(self).security_groups == old(self).security_groups
                &&& final(self).key_name == old(self).key_name
                &&& final(self).next_submit == old(self).next_submit
                &&& final(self).fault is None
                &&& !final(self).teardown_failed
                &&& final(self).callback_ok == old(self).callback_ok
            }),
    {
        let g = self.setup_group;
        let mi = self.setup_machine;
        let mach = &mut self.fleet[g].1[mi];
        mach.session = Option::Some(session);
        let glen = self.fleet[g].1.len();
        if mi + 1 < glen {
            self.setup_machine = mi + 1;
            proof {
                assert forall|u: int, v: int|
                    0 <= u < self.fleet@.len() && 0 <= v < self.fleet@[u].1@.len() implies ((
                #[trigger] self.fleet@[u].1@[v]).session is Some <==> self.before_cursor(
                    u,
                    v,
                )) by {
                    if !(u == g as int && v == mi as int) {
                        assert(self.fleet@[u].1@[v] == old(self).fleet@[u].1@[v]);
                    }
                }
            }
        } else if g + 1 < self.fleet.len() {
            self.setup_group = g + 1;
            self.setup_machine = 0;
            proof {
                assert(self.fleet@[g as int].1@.len() == mi + 1);
                assert forall|u: int, v: int|
                    0 <= u < self.fleet@.len() && 0 <= v < self.fleet@[u].1@.len() implies ((
                #[trigger] self.fleet@[u].1@[v]).session is Some <==> self.before_cursor(
                    u,
                    v,
                )) by {
                    if !(u == g as int && v == mi as int) {
                        assert(self.fleet@[u].1@[v] == old(self).fleet@[u].1@[v]);
                    }
                }
                assert(self.fleet@[g as int + 1].1@.len() == self.descs()[g as int + 1].count);
                assert(self.descs()[g as int + 1].count > 0);
            }
        } else {
            self.phase = Phase::Callback;
            proof {
                assert(self.fleet@[g as int].1@.len() == mi + 1);
                assert(self.fleet@.len() == g + 1);
                assert forall|u: int, v: int|
                    0 <= u < self.fleet@.len() && 0 <= v < self.fleet@[u].1@.len() implies (
                #[trigger] self.fleet@[u].1@[v]).session is Some by {
                    if !(u == g as int && v == mi as int) {
                        assert(self.fleet@[u].1@[v] == old(self).fleet@[u].1@[v]);
                        assert(old(self).before_cursor(u, v));
                    }
                }
            }
        }
    }

    /// Opening a session to the current machine, or running its setup
    /// routine, failed: fatal — but the run still goes through teardown,
    /// so the acquired instances are not left running.
    pub fn on_setup_failed(&mut self)
        requires
            old(self).wf(),
            old(self).phase == Phase::Setup,
        ensures
            final(self).wf(),
            final(self).phase == Phase::Teardown,
            final(self).fault == Some(Error::SetupFailed),
            !final(self).teardown_failed,
            Self::same_run_state(*final(self), *old(self)),
    {
        self.fault = Option::Some(Error::SetupFailed);
        self.phase = Phase::Teardown;
    }

    /// The callback returned. Whether it succeeded or not, teardown is
    /// attempted next.
    pub fn on_callback_done(&mut self, ok: bool)
        requires
            old(self).wf(),
            old(self).phase == Phase::Callback,
        ensures
            final(self).wf(),
            final(self).phase == Phase::Teardown,
            final(self).callback_ok == ok,
            final(self).fault == old(self).fault,
            !final(self).teardown_failed,
            final(self).descriptors == old(self).descriptors,
            final(self).id_to_name == old(self).id_to_name,
            final(self).request_ids == old(self).request_ids,
            final(self).instance_ids == old(self).instance_ids,
            final(self).fleet == old(self).fleet,
            final(self).max_duration_mins == old(self).max_duration_mins,
            final(self).security_groups == old(self).security_groups,
            final(self).key_name == old(self).key_name,
            final(self).next_submit == old(self).next_submit,
    {
        self.callback_ok = ok;
        self.phase = Phase::Teardown;
    }

    /// Terminating the assigned instances succeeded: the run is over.
    pub fn on_terminate_ok(&mut self)
        requires
            old(self).wf(),
            old(self).phase == Phase::Teardown,
        ensures
            final(self).wf(),
            final(self).phase == Phase::Done,
            final(self).fault == old(self).fault,
            !final(self).teardown_failed,
            Self::same_run_state(*final(self), *old(self)),
    {
        self.phase = Phase::Done;
    }

    /// How the finished run ended.
    pub fn outcome(&self) -> (r: Outcome)
        requires
            self.wf(),
            self.phase == Phase::Done,
        ensures
            r == Outcome::Completed <==> self.fault is None && !self.teardown_failed,
            r == Outcome::CleanupFailed <==> self.teardown_failed,
            r == Outcome::Aborted <==> self.fault is Some && !self.teardown_failed
                && self.instance_ids@.len() == 0,
            r == Outcome::AbortedWithCleanup <==> self.fault is Some && !self.teardown_failed
                && self.instance_ids@.len() > 0,
    {
        if self.teardown_failed {
            Outcome::CleanupFailed
        } else {
            match self.fault {
                Option::None => Outcome::Completed,
                Option::Some(_) => {
                    if self.instance_ids.len() == 0 {
                        Outcome::Aborted
                    } else {
                        Outcome::AbortedWithCleanup
                    }
                },
            }
        }
    }

    /// The error to report to the caller, if any: a failed teardown
    /// always surfaces — capacity may be left running — ahead of any
    /// earlier fault; otherwise the run's first fault, if one occurred.
    pub fn run_error(&self) -> (r: Option<Error>)
        requires
            self.wf(),
            self.phase == Phase::Done,
        ensures
            r == (if self.teardown_failed {
                Some(Error::TeardownFailed)
            } else {
                self.fault
            }),
    {
        if self.teardown_failed {
            Some(Error::TeardownFailed)
        } else {
            self.fault
        }
    }
}

/// Linear search for the status answering request `req`.
#[verifier::loop_isolation(false)]
fn find_status_exec(statuses: &Vec<RequestStatus>, req: &String) -> (r: Option<usize>)
    ensures
        ({
            let ss = statuses@.map(|i: int, s: RequestStatus| s@);
            match r {
                Option::Some(t) => t < ss.len() && find_status(ss, req@) == t,
                Option::None => find_status(ss, req@) == -1,
            }
        }),
{
    let ghost ss = statuses@.map(|i: int, s: RequestStatus| s@);
    let mut t: usize = 0;
    while t < statuses.len()
        invariant
            0 <= t <= ss.len(),
            forall|u: int| 0 <= u < t ==> (#[trigger] ss[u]).request_id != req@,
        decreases ss.len() - t,
    {
        if statuses[t].request_id == *req {
            proof {
                assert(ss[t as int].request_id == req@);
                lemma_find_status_props(ss, req@);
                let f = find_status(ss, req@);
                if f == -1 {
                    assert(ss[t as int].request_id != req@);
                }
                if 0 <= f < t {
                    assert(ss[f].request_id != req@);
                    assert(ss[f].request_id == req@);
                }
                if t < f {
                    assert(ss[t as int].request_id != req@);
                }
                assert(f == t);
            }
            return Some(t);
        }
        proof {
            assert(ss[t as int].request_id == statuses@[t as int].request_id@);
        }
        t += 1;
    }
    proof {
        lemma_find_status_props(ss, req@);
        let f = find_status(ss, req@);
        if f >= 0 {
            assert(ss[f].request_id != req@);
            assert(ss[f].request_id == req@);
        }
    }
    None
}

/// Linear search for the description of instance `id`.
#[verifier::loop_isolation(false)]
fn find_inst_exec(descs: &Vec<InstanceDescription>, id: &String) -> (r: Option<usize>)
    ensures
        ({
            let ds = descs@.map(|i: int, d: InstanceDescription| d@);
            match r {
                Option::Some(t) => t < ds.len() && find_inst(ds, id@) == t,
                Option::None => find_inst(ds, id@) == -1,
            }
        }),
{
    let ghost ds = descs@.map(|i: int, d: InstanceDescription| d@);
    let mut t: usize = 0;
    while t < descs.len()
        invariant
            0 <= t <= ds.len(),
            forall|u: int| 0 <= u < t ==> (#[trigger] ds[u]).instance_id != id@,
        decreases ds.len() - t,
    {
        if descs[t].instance_id == *id {
            proof {
                assert(ds[t as int].instance_id == id@);
                lemma_find_inst_props(ds, id@);
                let f = find_inst(ds, id@);
                if f == -1 {
                    assert(ds[t as int].instance_id != id@);
                }
                if 0 <= f < t {
                    assert(ds[f].instance_id != id@);
                    assert(ds[f].instance_id == id@);
                }
                if t < f {
                    assert(ds[t as int].instance_id != id@);
                }
                assert(f == t);
            }
            return Some(t);
        }
        proof {
            assert(ds[t as int].instance_id == descs@[t as int].instance_id@);
        }
        t += 1;
    }
    proof {
        lemma_find_inst_props(ds, id@);
        let f = find_inst(ds, id@);
        if f >= 0 {
            assert(ds[f].instance_id != id@);
            assert(ds[f].instance_id == id@);
        }
    }
    None
}

/// Linear search for the fleet entry named `name`; the caller knows one
/// is there.
#[verifier::loop_isolation(false)]
fn find_group_exec(groups: &Vec<(String, Vec<Machine>)>, name: &String) -> (r: usize)
    requires
        exists|k: int| 0 <= k < groups@.len() && (#[trigger] groups@[k]).0@ == name@,
    ensures
        r < groups@.len(),
        groups@[r as int].0@ == name@,
{
    let mut k: usize = 0;
    while k < groups.len()
        invariant
            0 <= k <= groups@.len(),
            forall|u: int| 0 <= u < k ==> (#[trigger] groups@[u]).0@ != name@,
        decreases groups@.len() - k,
    {
        if groups[k].0 == *name {
            return k;
        }
        k += 1;
    }
    proof {
        let w = choose|w: int| 0 <= w < groups@.len() && (#[trigger] groups@[w]).0@ == name@;
        assert(groups@[w].0@ != name@);
        assert(false);
    }
    0
}

/// A fresh vector holding the same strings.
fn clone_strings(v: &Vec<String>) -> (r: Vec<String>)
    ensures
        r@ == v@,
{
    let mut r: Vec<String> = Vec::new();
    let mut i: usize = 0;
    while i < v.len()
        invariant
            0 <= i <= v@.len(),
            r@ =~= v@.take(i as int),
        decreases v@.len() - i,
    {
        r.push(v[i].clone());
        proof {
            assert(r@ =~= v@.take(i as int + 1));
        }
        i += 1;
    }
    proof {
        assert(v@.take(v@.len() as int) =~= v@);
    }
    r
}

} // verus!
