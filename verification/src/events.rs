//! The events that the registry reports.

use crate::metadata::{NFT_METADATA_SPEC, NFT_STANDARD_NAME};
use crate::names::{names_of, optional_name, Name};
use vstd::prelude::*;

verus! {

/// The report of a mint.
pub struct NftMinLog {
    pub owner_id: String,
    pub token_id: Vec<String>,
    pub memo: Option<String>,
}

/// The report of a transfer.
pub struct NftTransferLog {
    pub authorized_id: Option<String>,
    pub old_owner_id: String,
    pub new_owner_id: String,
    pub token_ids: Vec<String>,
    pub memo: Option<String>,
}

/// The value of the report of a transfer.
pub struct NftTransferLogView {
    pub authorized_id: Option<Name>,
    pub old_owner_id: Name,
    pub new_owner_id: Name,
    pub token_ids: Seq<Name>,
    pub memo: Option<Name>,
}

impl View for NftTransferLog {
    type V = NftTransferLogView;

    open spec fn view(&self) -> NftTransferLogView {
        NftTransferLogView {
            authorized_id: optional_name(self.authorized_id),
            old_owner_id: self.old_owner_id@,
            new_owner_id: self.new_owner_id@,
            token_ids: names_of(self.token_ids@),
            memo: optional_name(self.memo),
        }
    }
}

/// What happened.
#[non_exhaustive]
pub enum EventLogVariant {
    NftMint(Vec<NftMinLog>),
    NftTransfer(Vec<NftTransferLog>),
}

/// An event with the standard and the version that it follows.
pub struct EventLog {
    pub standard: String,
    pub version: String,
    pub event: EventLogVariant,
}

impl EventLog {
    /// The event is the report of the one transfer `log`.
    pub open spec fn reports_transfer(&self, log: NftTransferLogView) -> bool {
        &&& self.standard@ == NFT_STANDARD_NAME@
        &&& self.version@ == NFT_METADATA_SPEC@
        &&& match self.event {
            EventLogVariant::NftTransfer(logs) => logs@.len() == 1 && logs@[0]@ == log,
            _ => false,
        }
    }

    /// The event that reports one transfer.
    pub fn nft_transfer(log: NftTransferLog) -> (e: EventLog)
        ensures
            e.reports_transfer(log@),
    {
        let mut logs: Vec<NftTransferLog> = Vec::new();
        logs.push(log);
        EventLog {
            standard: NFT_STANDARD_NAME.to_owned(),
            version: NFT_METADATA_SPEC.to_owned(),
            event: EventLogVariant::NftTransfer(logs),
        }
    }
}

} // verus!
