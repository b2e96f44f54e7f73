//! One description type over the providers.
use vstd::prelude::*;

use crate::provider::{EfaDomainInfo, RdmaDomainInfo, VerbsDeviceInfo};

verus! {

/// An endpoint of any provider.
#[derive(Clone, Debug)]
pub enum DomainInfo {
    Efa(EfaDomainInfo),
    Verbs(VerbsDeviceInfo),
}

impl RdmaDomainInfo for DomainInfo {
    open spec fn spec_name(&self) -> Seq<char> {
        match self {
            DomainInfo::Efa(info) => info.spec_name(),
            DomainInfo::Verbs(info) => info.spec_name(),
        }
    }

    open spec fn spec_link_speed(&self) -> u64 {
        match self {
            DomainInfo::Efa(info) => info.spec_link_speed(),
            DomainInfo::Verbs(info) => info.spec_link_speed(),
        }
    }

    fn name(&self) -> (name: &str) {
        match self {
            DomainInfo::Efa(info) => info.name(),
            DomainInfo::Verbs(info) => info.name(),
        }
    }

    fn link_speed(&self) -> (speed: u64) {
        match self {
            DomainInfo::Efa(info) => info.link_speed(),
            DomainInfo::Verbs(info) => info.link_speed(),
        }
    }
}

} // verus!
