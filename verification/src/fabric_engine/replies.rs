//! What a caller learns from the answer of a worker, or from its silence.
use vstd::prelude::*;

use crate::api::{PeerGroupHandle, UvmWatcherId};
use crate::domain_group::{DomainGroup, peer_bytes};
use crate::error::FabricLibError;
use crate::fabric_engine::registration::{LocalAnswer, RemoteAnswer};
use crate::provider::RdmaDomain;
use crate::worker::uvm::UvmWatcherReply;
use crate::worker::{WorkerCall, WorkerReply};

verus! {

/// The error for a worker that does not answer, or not to the question.
pub open spec fn worker_down() -> FabricLibError {
    FabricLibError::Custom("Worker is down")
}

/// What a reply says in answer to a registration for local access.
pub open spec fn local_answer(reply: Option<WorkerReply>) -> LocalAnswer {
    match reply {
        Some(WorkerReply::RegisteredLocal(registered)) => registered,
        _ => Err(worker_down()),
    }
}

/// The answer to a registration for local access.
pub fn local_reply(reply: Option<WorkerReply>) -> (answer: LocalAnswer)
    ensures
        answer == local_answer(reply),
{
    match reply {
        Some(WorkerReply::RegisteredLocal(registered)) => registered,
        _ => Err(FabricLibError::Custom("Worker is down")),
    }
}

/// What a reply says in answer to a registration for access by peers.
pub open spec fn remote_answer(reply: Option<WorkerReply>) -> RemoteAnswer {
    match reply {
        Some(WorkerReply::RegisteredRemote(registered)) => registered,
        _ => Err(worker_down()),
    }
}

/// The answer to a registration for access by peers.
pub fn remote_reply(reply: Option<WorkerReply>) -> (answer: RemoteAnswer)
    ensures
        answer == remote_answer(reply),
{
    match reply {
        Some(WorkerReply::RegisteredRemote(registered)) => registered,
        _ => Err(FabricLibError::Custom("Worker is down")),
    }
}

/// What a reply says in answer to the request to forget a region.
pub open spec fn unregister_answer(reply: Option<WorkerReply>) -> Result<(), FabricLibError> {
    match reply {
        Some(WorkerReply::Unregistered) => Ok::<(), FabricLibError>(()),
        _ => Err(worker_down()),
    }
}

/// The answer to the request to forget a region.
pub fn unregister_reply(reply: Option<WorkerReply>) -> (answer: Result<(), FabricLibError>)
    ensures
        answer == unregister_answer(reply),
{
    match reply {
        Some(WorkerReply::Unregistered) => Ok(()),
        _ => Err(FabricLibError::Custom("Worker is down")),
    }
}

/// What a reply says in answer to the announcement of peers.
pub open spec fn peer_group_answer(reply: Option<WorkerReply>) -> Result<PeerGroupHandle, FabricLibError> {
    match reply {
        Some(WorkerReply::PeerGroup(added)) => added,
        _ => Err(worker_down()),
    }
}

/// The answer to the announcement of peers.
pub fn peer_group_reply(reply: Option<WorkerReply>) -> (answer: Result<
    PeerGroupHandle,
    FabricLibError,
>)
    ensures
        answer == peer_group_answer(reply),
{
    match reply {
        Some(WorkerReply::PeerGroup(added)) => added,
        _ => Err(FabricLibError::Custom("Worker is down")),
    }
}

/// What a reply says in answer to the request for a watched word.
pub open spec fn acquire_answer(reply: Option<UvmWatcherReply>) -> Result<UvmWatcherId, FabricLibError> {
    match reply {
        Some(UvmWatcherReply::Acquired(Some(id))) => Ok::<UvmWatcherId, FabricLibError>(id),
        Some(UvmWatcherReply::Acquired(None)) => Err(
            FabricLibError::Custom("Failed to acquire UVM watcher"),
        ),
        _ => Err(worker_down()),
    }
}

/// The answer to the request for a watched word.
pub fn acquire_reply(reply: Option<UvmWatcherReply>) -> (answer: Result<
    UvmWatcherId,
    FabricLibError,
>)
    ensures
        answer == acquire_answer(reply),
{
    match reply {
        Some(UvmWatcherReply::Acquired(Some(id))) => Ok(id),
        Some(UvmWatcherReply::Acquired(None)) => Err(
            FabricLibError::Custom("Failed to acquire UVM watcher"),
        ),
        _ => Err(FabricLibError::Custom("Worker is down")),
    }
}

/// What a reply says in answer to the return of a watched word.
pub open spec fn release_answer(reply: Option<UvmWatcherReply>) -> Result<(), FabricLibError> {
    match reply {
        Some(UvmWatcherReply::Released) => Ok::<(), FabricLibError>(()),
        _ => Err(worker_down()),
    }
}

/// The answer to the return of a watched word.
pub fn release_reply(reply: Option<UvmWatcherReply>) -> (answer: Result<(), FabricLibError>)
    ensures
        answer == release_answer(reply),
{
    match reply {
        Some(UvmWatcherReply::Released) => Ok(()),
        _ => Err(FabricLibError::Custom("Worker is down")),
    }
}

/// What a group answers to a call is what the caller learns, whatever the call was; a caller
/// that gets no reply, or one to another question, learns that the worker is down.
pub proof fn answers_reach_the_caller<D: RdmaDomain, C, A, const N: usize>(
    after: DomainGroup<D, C, A, N>,
    before: DomainGroup<D, C, A, N>,
    call: WorkerCall,
    reply: WorkerReply,
)
    requires
        after.answered(&before, &call, reply),
    ensures
        match call {
            WorkerCall::RegisterMRLocal { region } => after.local_registration(
                &before,
                region,
                local_answer(Some(reply)),
            ) && remote_answer(Some(reply)) is Err,
            WorkerCall::RegisterMRAllowRemote { region } => after.remote_registration(
                &before,
                region,
                remote_answer(Some(reply)),
            ) && local_answer(Some(reply)) is Err,
            WorkerCall::UnregisterMR { ptr } => after.unregistered(&before, ptr)
                && unregister_answer(Some(reply)) is Ok,
            WorkerCall::AddPeerGroup { addrs } => after.peers_outcome(
                &before,
                peer_bytes(addrs@),
                peer_group_answer(Some(reply)),
            ) && unregister_answer(Some(reply)) is Err,
        },
        local_answer(None) is Err,
        remote_answer(None) is Err,
        unregister_answer(None) is Err,
        peer_group_answer(None) is Err,
{
}

/// Whoever asks for a watched word gets the word that was given out, or an error if none was.
pub proof fn watched_words_reach_the_caller(watcher: Option<UvmWatcherId>)
    ensures
        match acquire_answer(Some(UvmWatcherReply::Acquired(watcher))) {
            Ok(id) => watcher == Some(id),
            Err(_) => watcher is None,
        },
        acquire_answer(None) is Err,
        acquire_answer(Some(UvmWatcherReply::Released)) is Err,
        release_answer(Some(UvmWatcherReply::Released)) is Ok,
        release_answer(Some(UvmWatcherReply::Acquired(watcher))) is Err,
        release_answer(None) is Err,
{
}

} // verus!
