//! The power lifecycle of the remote instance that hosts the server.
use vstd::prelude::*;
use crate::text::same_text;

verus! {

/// The state code the provider reports for a running instance.
pub const RUNNING: i64 = 16;

/// The state code the provider reports for a stopped instance.
pub const STOPPED: i64 = 80;

/// Where the remote instance is in its lifecycle.
#[derive(PartialEq, Eq, Structural, Clone, Copy, Debug)]
pub enum PowerState {
    Stopped,
    Starting,
    Running,
    Stopping,
}

/// One entry of a status answer: the instance it is about and its state
/// code, each as far as the provider gave it.
#[derive(Clone, Debug)]
pub struct InstanceStatus {
    pub instance_id: Option<String>,
    pub code: Option<i64>,
}

/// The entry is about instance `id` and its code, in its low byte, is `target`.
pub open spec fn entry_reports(e: InstanceStatus, id: Seq<char>, target: i64) -> bool {
    &&& e.instance_id is Some
    &&& e.instance_id->0@ == id
    &&& e.code is Some
    &&& e.code->0 & 0xff == target
}

/// Some entry of the answer reports `target` for instance `id`.
pub open spec fn reports(entries: Seq<InstanceStatus>, id: Seq<char>, target: i64) -> bool {
    exists|k: int| 0 <= k < entries.len() && #[trigger] entry_reports(entries[k], id, target)
}

/// A status query came back (`Some`) and reports `target` for instance `id`;
/// a failed query (`None`) reports nothing.
pub open spec fn answered(response: Option<Seq<InstanceStatus>>, id: Seq<char>, target: i64) -> bool {
    match response {
        Some(entries) => reports(entries, id, target),
        None => false,
    }
}

/// The state after one status response, and whether to poll again.
///
/// While starting, a response that reports the running code ends the
/// polling in `Running`; any other response, failed queries included, keeps
/// polling. Stopping works the same way with the stopped code. In the other
/// states no polling is under way and nothing changes.
pub open spec fn power_step(s: PowerState, response: Option<Seq<InstanceStatus>>, id: Seq<char>) -> (PowerState, bool) {
    match s {
        PowerState::Starting => if answered(response, id, RUNNING) {
            (PowerState::Running, false)
        } else {
            (PowerState::Starting, true)
        },
        PowerState::Stopping => if answered(response, id, STOPPED) {
            (PowerState::Stopped, false)
        } else {
            (PowerState::Stopping, true)
        },
        _ => (s, false),
    }
}

/// The state after a sequence of status responses.
pub open spec fn after_polls(s: PowerState, rs: Seq<Option<Seq<InstanceStatus>>>, id: Seq<char>) -> PowerState
    decreases rs.len(),
{
    if rs.len() == 0 {
        s
    } else {
        power_step(after_polls(s, rs.drop_last(), id), rs.last(), id).0
    }
}

/// The view of a borrowed response.
pub open spec fn response_view(response: Option<&Vec<InstanceStatus>>) -> Option<Seq<InstanceStatus>> {
    match response {
        Some(v) => Some(v@),
        None => None,
    }
}

/// Whether some entry of `entries` reports `target` for instance `id`.
pub fn reports_code(entries: &Vec<InstanceStatus>, id: &str, target: i64) -> (r: bool)
    ensures
        r == reports(entries@, id@, target),
{
    let mut k: usize = 0;
    while k < entries.len()
        invariant
            k <= entries@.len(),
            forall|u: int| 0 <= u < k ==> !#[trigger] entry_reports(entries@[u], id@, target),
        decreases entries@.len() - k,
    {
        let e = &entries[k];
        let hit = match (&e.instance_id, e.code) {
            (Some(name), Some(code)) => same_text(name.as_str(), id) && code & 0xff == target,
            _ => false,
        };
        if hit {
            assert(entry_reports(entries@[k as int], id@, target));
            return true;
        }
        k = k + 1;
    }
    false
}

/// Drives one instance through Stopped, Starting, Running, Stopping and back.
pub struct PowerController {
    state: PowerState,
    instance_id: String,
}

impl PowerController {
    /// The state the instance is in.
    pub closed spec fn spec_state(&self) -> PowerState {
        self.state
    }

    /// The instance this controller drives.
    pub closed spec fn spec_instance_id(&self) -> Seq<char> {
        self.instance_id@
    }

    /// A controller for instance `instance_id`, taken to be stopped.
    pub fn new(instance_id: String) -> (r: PowerController)
        ensures
            r.spec_state() == PowerState::Stopped,
            r.spec_instance_id() == instance_id@,
    {
        PowerController { state: PowerState::Stopped, instance_id }
    }

    /// The state the instance is in.
    pub fn state(&self) -> (r: PowerState)
        ensures
            r == self.spec_state(),
    {
        self.state
    }

    /// The instance this controller drives.
    pub fn instance_id(&self) -> (r: &str)
        ensures
            r@ == self.spec_instance_id(),
    {
        self.instance_id.as_str()
    }

    /// Begins a start: only from `Stopped`, which becomes `Starting`. Returns
    /// whether the caller must now issue the start call and poll.
    pub fn activate(&mut self) -> (r: bool)
        ensures
            r == (old(self).spec_state() == PowerState::Stopped),
            final(self).spec_state() == if r { PowerState::Starting } else { old(self).spec_state() },
            final(self).spec_instance_id() == old(self).spec_instance_id(),
    {
        if self.state == PowerState::Stopped {
            self.state = PowerState::Starting;
            true
        } else {
            false
        }
    }

    /// Begins a stop: only from `Running`, which becomes `Stopping`. Returns
    /// whether the caller must now issue the stop call and poll.
    pub fn deactivate(&mut self) -> (r: bool)
        ensures
            r == (old(self).spec_state() == PowerState::Running),
            final(self).spec_state() == if r { PowerState::Stopping } else { old(self).spec_state() },
            final(self).spec_instance_id() == old(self).spec_instance_id(),
    {
        if self.state == PowerState::Running {
            self.state = PowerState::Stopping;
            true
        } else {
            false
        }
    }

    /// Takes in the answer to a status query (`None` where the query failed);
    /// returns whether to poll again after the fixed interval.
    pub fn observe_status(&mut self, response: Option<&Vec<InstanceStatus>>) -> (r: bool)
        ensures
            (final(self).spec_state(), r) == power_step(
                old(self).spec_state(),
                response_view(response),
                old(self).spec_instance_id(),
            ),
            final(self).spec_instance_id() == old(self).spec_instance_id(),
    {
        let target = match self.state {
            PowerState::Starting => RUNNING,
            PowerState::Stopping => STOPPED,
            _ => {
                return false;
            },
        };
        let reached = match response {
            Some(entries) => reports_code(entries, self.instance_id.as_str(), target),
            None => false,
        };
        if reached {
            self.state = if self.state == PowerState::Starting {
                PowerState::Running
            } else {
                PowerState::Stopped
            };
            false
        } else {
            true
        }
    }
}

/// While starting, responses that do not report the running code for the
/// tracked instance keep the state at `Starting` and each asks for another
/// poll; the first one that does moves to `Running` and ends the polling.
pub proof fn lemma_start_polls_until_running(
    rs: Seq<Option<Seq<InstanceStatus>>>,
    last: Option<Seq<InstanceStatus>>,
    id: Seq<char>,
)
    requires
        forall|k: int| 0 <= k < rs.len() ==> !answered(#[trigger] rs[k], id, RUNNING),
        answered(last, id, RUNNING),
    ensures
        after_polls(PowerState::Starting, rs, id) == PowerState::Starting,
        forall|k: int| 0 <= k < rs.len() ==>
            #[trigger] power_step(after_polls(PowerState::Starting, rs.take(k), id), rs[k], id)
                == (PowerState::Starting, true),
        power_step(after_polls(PowerState::Starting, rs, id), last, id) == (PowerState::Running, false),
    decreases rs.len(),
{
    lemma_starting_kept(rs, id);
    assert forall|k: int| 0 <= k < rs.len() implies
        #[trigger] power_step(after_polls(PowerState::Starting, rs.take(k), id), rs[k], id)
            == (PowerState::Starting, true) by {
        lemma_starting_kept(rs.take(k), id);
        assert(!answered(rs[k], id, RUNNING));
    }
}

/// Responses that never report the running code leave a start in progress.
proof fn lemma_starting_kept(rs: Seq<Option<Seq<InstanceStatus>>>, id: Seq<char>)
    requires
        forall|k: int| 0 <= k < rs.len() ==> !answered(#[trigger] rs[k], id, RUNNING),
    ensures
        after_polls(PowerState::Starting, rs, id) == PowerState::Starting,
    decreases rs.len(),
{
    if rs.len() > 0 {
        let p = rs.drop_last();
        assert forall|k: int| 0 <= k < p.len() implies !answered(#[trigger] p[k], id, RUNNING) by {
            assert(p[k] == rs[k]);
        }
        lemma_starting_kept(p, id);
        assert(!answered(rs[rs.len() - 1], id, RUNNING));
    }
}

} // verus!
