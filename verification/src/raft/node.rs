//! What a node of the cluster decides: whether to found the cluster, and where a write goes.

use vstd::prelude::*;
use crate::store::model::{Command, StoreError, StoreErrorView, StoreResult};
use crate::text::{concat, concat3, push_str};
use super::types::{outcome_to_result, result_of, ApplyResult};

verus! {

/// Whether `id` is the least id among the peers; a node without peers counts itself.
pub open spec fn is_lowest(id: u64, peers: Seq<u64>) -> bool {
    if peers.len() == 0 {
        true
    } else {
        peers.contains(id) && forall|i: int| 0 <= i < peers.len() ==> id <= #[trigger] peers[i]
    }
}

/// Whether a node has to found the cluster: it is the lowest node, and no peer reports a cluster
/// that already exists. A node that lost its state must not found a second one.
pub fn must_initialize(id: u64, peers: &Vec<u64>, peer_reports_cluster: bool) -> (r: bool)
    ensures
        r == (is_lowest(id, peers@) && !peer_reports_cluster),
{
    if peer_reports_cluster {
        return false;
    }
    if peers.len() == 0 {
        return true;
    }
    let mut present = false;
    let mut i: usize = 0;
    while i < peers.len()
        invariant
            i <= peers@.len(),
            present == peers@.take(i as int).contains(id),
            forall|j: int| 0 <= j < i ==> id <= #[trigger] peers@[j],
        decreases peers@.len() - i,
    {
        let ghost held = peers@.take(i as int);
        assert(peers@.take(i as int + 1) =~= held.push(peers@[i as int]));
        if peers[i] < id {
            return false;
        }
        proof {
            let next = held.push(peers@[i as int]);
            if held.contains(id) {
                let j = held.index_of(id);
                assert(next[j] == id);
            }
            if next.contains(id) && peers@[i as int] != id {
                let j = next.index_of(id);
                assert(held[j] == id);
            }
            assert(next[i as int] == peers@[i as int]);
        }
        if peers[i] == id {
            present = true;
        }
        i = i + 1;
    }
    assert(peers@.take(i as int) =~= peers@);
    present
}

/// What came of proposing a write to the cluster.
pub enum WriteReply {
    Applied(ApplyResult),
    NotLeader { leader: Option<String> },
    Failed(String),
}

/// What to do next about a write.
pub enum WriteStep {
    Answer(StoreResult<()>),
    Forward { url: String },
}

/// The next step after a reply: an applied write is answered by its result, a write that another
/// node leads is forwarded to it, and without a leader or on another failure the writer is told.
pub open spec fn write_step(reply: WriteReply, step: WriteStep) -> bool {
    match reply {
        WriteReply::Applied(outcome) => match result_of(outcome@) {
            Ok(_) => step matches WriteStep::Answer(Ok(_)),
            Err(error) => step matches WriteStep::Answer(Err(e)) && e@ == error,
        },
        WriteReply::NotLeader { leader: Some(addr) } => step matches WriteStep::Forward { url }
            && url@ == "http://"@ + addr@ + "/raft/apply"@,
        WriteReply::NotLeader { leader: None } => step matches WriteStep::Answer(Err(e)) && e@
            == StoreErrorView::Internal("no raft leader currently available"@),
        WriteReply::Failed(message) => step matches WriteStep::Answer(Err(e)) && e@
            == StoreErrorView::Internal("raft write failed: "@ + message@),
    }
}

pub fn after_write(reply: WriteReply) -> (r: WriteStep)
    ensures
        write_step(reply, r),
{
    match reply {
        WriteReply::Applied(outcome) => WriteStep::Answer(outcome_to_result(outcome)),
        WriteReply::NotLeader { leader: Some(addr) } => WriteStep::Forward {
            url: concat3("http://", addr.as_str(), "/raft/apply"),
        },
        WriteReply::NotLeader { leader: None } => WriteStep::Answer(
            Err(StoreError::Internal("no raft leader currently available".to_owned())),
        ),
        WriteReply::Failed(message) => WriteStep::Answer(
            Err(StoreError::Internal(concat("raft write failed: ", message.as_str()))),
        ),
    }
}

/// What came of forwarding a write to the leader.
pub enum ForwardReply {
    Applied(ApplyResult),
    Rejected { status: String, body: String },
    Unreachable(String),
}

/// What the writer is told of a forwarded write.
pub open spec fn forward_answer(reply: ForwardReply) -> Result<(), StoreErrorView> {
    match reply {
        ForwardReply::Applied(outcome) => result_of(outcome@),
        ForwardReply::Rejected { status, body } => Err(
            StoreErrorView::Internal(
                "leader rejected write ("@ + status@ + "): "@ + body@,
            ),
        ),
        ForwardReply::Unreachable(message) => Err(StoreErrorView::Internal(message@)),
    }
}

pub fn after_forward(reply: ForwardReply) -> (r: StoreResult<()>)
    ensures
        match r {
            Ok(_) => forward_answer(reply) == Ok::<(), StoreErrorView>(()),
            Err(error) => forward_answer(reply) == Err::<(), StoreErrorView>(error@),
        },
{
    match reply {
        ForwardReply::Applied(outcome) => outcome_to_result(outcome),
        ForwardReply::Rejected { status, body } => {
            let mut text = concat3("leader rejected write (", status.as_str(), "): ");
            push_str(&mut text, body.as_str());
            Err(StoreError::Internal(text))
        },
        ForwardReply::Unreachable(message) => Err(StoreError::Internal(message)),
    }
}

/// Where a command is carried out.
#[derive(Debug, Clone, Copy, PartialEq, Eq, Structural)]
pub enum Route {
    Local,
    Replicated,
}

/// The audit log and the counts of failed attempts stay on the node, everything else is
/// replicated.
pub fn route_command(command: &Command) -> (r: Route)
    ensures
        r == (if command is AppendAudit || command is RecordAuthFailure {
            Route::Local
        } else {
            Route::Replicated
        }),
{
    if command.is_local() {
        Route::Local
    } else {
        Route::Replicated
    }
}

} // verus!
