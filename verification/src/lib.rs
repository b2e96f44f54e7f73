//! Transfers over remote direct memory access.
//!
//! A [`TransferEngine`] gives every operation an id, remembers what is to be called when it is
//! over, and has its [`FabricEngine`] decide which worker carries it. A worker drives a
//! [`DomainGroup`], which divides transfers into writes for its domains and counts their
//! completions. All of these work on plain values; threads and queues are their users' affair.
pub mod api;
pub mod cuda_compat;
pub mod domain_group;
pub mod error;
pub mod fabric_engine;
pub mod provider;
pub mod provider_dispatch;
pub mod rdma_op;
pub mod segments;
pub mod sharding;
pub mod tables;
pub mod transfer_engine;
pub mod verbs;
pub mod worker;

pub use cuda_compat::{CudaDeviceId, CudaHostMemory, Device, GdrFlag};
pub use domain_group::DomainGroup;
pub use error::FabricLibError;
pub use fabric_engine::FabricEngine;
pub use provider::{EfaDomainInfo, RdmaDomain, RdmaDomainInfo, VerbsDeviceInfo};
pub use provider_dispatch::DomainInfo;
pub use transfer_engine::callbacks::TransferCallback;
pub use transfer_engine::{SendBuffer, TransferEngine};
pub use worker::{Worker, WorkerHandle};
