//! Plain-value shapes that cross the boundary between the verified
//! orchestrator and the I/O shell: the capacity request it asks the
//! shell to submit, the poll answers the shell hands back, and the
//! machines of the assembled fleet.

use vstd::prelude::*;

verus! {

/// The sequence of characters behind an optional string, or the empty
/// sequence when it is absent.
pub open spec fn opt_seq(o: Option<Seq<char>>) -> Seq<char> {
    match o {
        Option::Some(s) => s,
        Option::None => Seq::empty(),
    }
}

/// One acquired machine: identity, shape, addresses, and the handle of
/// the remote session the shell attached (absent until remote setup
/// succeeds).
pub struct Machine {
    pub instance_id: String,
    pub instance_type: String,
    pub private_ip: String,
    pub public_dns: String,
    pub session: Option<u64>,
}

/// The mathematical image of a machine.
pub struct MachineView {
    pub instance_id: Seq<char>,
    pub instance_type: Seq<char>,
    pub private_ip: Seq<char>,
    pub public_dns: Seq<char>,
    pub session: Option<u64>,
}

impl View for Machine {
    type V = MachineView;

    open spec fn view(&self) -> MachineView {
        MachineView {
            instance_id: self.instance_id@,
            instance_type: self.instance_type@,
            private_ip: self.private_ip@,
            public_dns: self.public_dns@,
            session: self.session,
        }
    }
}

/// Network/security profile and access-credential reference, supplied
/// by the caller's configuration and copied into every capacity request.
pub struct ProvisionConfig {
    pub security_groups: Vec<String>,
    pub key_name: String,
}

/// One capacity request, ready for the shell to submit: which group it
/// provisions, what to launch, how many, and for how long.
pub struct CapacityRequest {
    pub group: String,
    pub instance_type: String,
    pub ami: String,
    pub count: u32,
    pub duration_mins: i64,
    pub security_groups: Vec<String>,
    pub key_name: String,
}

/// The provider's answer about one outstanding capacity request, as the
/// shell reports it: whether it is active yet, and the instance it was
/// satisfied with once it is.
pub struct RequestStatus {
    pub request_id: String,
    pub active: bool,
    pub instance_id: Option<String>,
}

/// The mathematical image of a request status.
pub struct StatusView {
    pub request_id: Seq<char>,
    pub active: bool,
    pub instance_id: Option<Seq<char>>,
}

impl View for RequestStatus {
    type V = StatusView;

    open spec fn view(&self) -> StatusView {
        StatusView {
            request_id: self.request_id@,
            active: self.active,
            instance_id: match self.instance_id {
                Option::Some(ref s) => Option::Some(s@),
                Option::None => Option::None,
            },
        }
    }
}

/// The provider's metadata about one instance, as the shell reports it.
/// A field the provider has not filled in yet is absent.
pub struct InstanceDescription {
    pub instance_id: String,
    pub instance_type: Option<String>,
    pub private_ip: Option<String>,
    pub public_dns: Option<String>,
}

/// The mathematical image of an instance description.
pub struct InstView {
    pub instance_id: Seq<char>,
    pub instance_type: Option<Seq<char>>,
    pub private_ip: Option<Seq<char>>,
    pub public_dns: Option<Seq<char>>,
}

impl View for InstanceDescription {
    type V = InstView;

    open spec fn view(&self) -> InstView {
        InstView {
            instance_id: self.instance_id@,
            instance_type: match self.instance_type {
                Option::Some(ref s) => Option::Some(s@),
                Option::None => Option::None,
            },
            private_ip: match self.private_ip {
                Option::Some(ref s) => Option::Some(s@),
                Option::None => Option::None,
            },
            public_dns: match self.public_dns {
                Option::Some(ref s) => Option::Some(s@),
                Option::None => Option::None,
            },
        }
    }
}

/// Index of the first status for request `req`, or -1 if none is.
pub open spec fn find_status(ss: Seq<StatusView>, req: Seq<char>) -> int
    decreases ss.len(),
{
    if ss.len() == 0 {
        -1
    } else if ss[0].request_id == req {
        0
    } else {
        let r = find_status(ss.drop_first(), req);
        if r < 0 {
            -1
        } else {
            r + 1
        }
    }
}

pub proof fn lemma_find_status_props(ss: Seq<StatusView>, req: Seq<char>)
    ensures
        find_status(ss, req) == -1 || (0 <= find_status(ss, req) < ss.len()),
        find_status(ss, req) == -1 ==> forall|i: int|
            0 <= i < ss.len() ==> (#[trigger] ss[i]).request_id != req,
        find_status(ss, req) >= 0 ==> ss[find_status(ss, req)].request_id == req,
        forall|i: int| 0 <= i < find_status(ss, req) ==> (#[trigger] ss[i]).request_id != req,
    decreases ss.len(),
{
    if ss.len() > 0 && ss[0].request_id != req {
        lemma_find_status_props(ss.drop_first(), req);
        assert forall|i: int| 1 <= i < ss.len() implies ss.drop_first()[i - 1] == ss[i] by {}
    }
}

/// The request `req` has an answer in the batch, it is active, and it
/// carries the instance it was satisfied with.
pub open spec fn status_ready(ss: Seq<StatusView>, req: Seq<char>) -> bool {
    let i = find_status(ss, req);
    i >= 0 && ss[i].active && ss[i].instance_id is Some
}

/// The instance the batch reports for request `req`.
pub open spec fn reported_instance(ss: Seq<StatusView>, req: Seq<char>) -> Seq<char> {
    opt_seq(ss[find_status(ss, req)].instance_id)
}

/// Index of the first description of instance `id`, or -1 if none is.
pub open spec fn find_inst(ds: Seq<InstView>, id: Seq<char>) -> int
    decreases ds.len(),
{
    if ds.len() == 0 {
        -1
    } else if ds[0].instance_id == id {
        0
    } else {
        let r = find_inst(ds.drop_first(), id);
        if r < 0 {
            -1
        } else {
            r + 1
        }
    }
}

pub proof fn lemma_find_inst_props(ds: Seq<InstView>, id: Seq<char>)
    ensures
        find_inst(ds, id) == -1 || (0 <= find_inst(ds, id) < ds.len()),
        find_inst(ds, id) == -1 ==> forall|i: int|
            0 <= i < ds.len() ==> (#[trigger] ds[i]).instance_id != id,
        find_inst(ds, id) >= 0 ==> ds[find_inst(ds, id)].instance_id == id,
        forall|i: int| 0 <= i < find_inst(ds, id) ==> (#[trigger] ds[i]).instance_id != id,
    decreases ds.len(),
{
    if ds.len() > 0 && ds[0].instance_id != id {
        lemma_find_inst_props(ds.drop_first(), id);
        assert forall|i: int| 1 <= i < ds.len() implies ds.drop_first()[i - 1] == ds[i] by {}
    }
}

/// Every field of the description is filled in.
pub open spec fn inst_complete(d: InstView) -> bool {
    d.instance_type is Some && d.private_ip is Some && d.public_dns is Some
}

/// The batch describes instance `id` with full metadata.
pub open spec fn instance_ready(ds: Seq<InstView>, id: Seq<char>) -> bool {
    let i = find_inst(ds, id);
    i >= 0 && inst_complete(ds[i])
}

/// The machine the batch yields for instance `id`: its full metadata,
/// with no session attached yet.
pub open spec fn machine_for(ds: Seq<InstView>, id: Seq<char>) -> MachineView {
    let d = ds[find_inst(ds, id)];
    MachineView {
        instance_id: id,
        instance_type: opt_seq(d.instance_type),
        private_ip: opt_seq(d.private_ip),
        public_dns: opt_seq(d.public_dns),
        session: Option::None,
    }
}

} // verus!
