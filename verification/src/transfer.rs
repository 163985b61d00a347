//! File transfer between the requestor and a provider's container: the
//! command built for one transfer, the in-container addressing scheme, and
//! the transfer error taxonomy.  Staging the bytes (content-addressed
//! publish and fetch) is an outside collaborator and stays with the driver;
//! the collected outputs of a transfer batch fold through
//! `activity::collect_outputs`.

use vstd::prelude::*;
use vstd::string::StringExecFns;
use crate::batch::ExeCommand;

verus! {

/// A transfer command the provider failed to execute.
pub enum TransferCmdError {
    CommandError { src: String, dest: String, e: String },
}

/// A file could not be sent or fetched.
pub enum FileTransferError {
    Transfer(TransferCmdError),
    BadUrl { path: String, e: String },
    Gftp { src: String, dest: String, e: String },
}

/// The staging steps around a JSON transfer failed.
pub enum TransferInternalError {
    CreatingTemporary(String),
    PersistTemporary(String),
}

/// A JSON value could not be carried over a file transfer.
pub enum JsonTransferError {
    Transfer(FileTransferError),
    Serialization(String),
    Deserialization(String),
    Internal(TransferInternalError),
}

/// Addresses a path inside the provider's container.
pub fn container_url(path: &str) -> (r: String)
    ensures
        r@ == "container:"@ + path@,
{
    let mut s: String = "container:".to_owned();
    s.append(path);
    s
}

/// The one command a transfer executes on the provider.
pub fn transfer_command(from: &str, to: &str) -> (r: ExeCommand)
    ensures
        (r matches ExeCommand::Transfer { from: f, to: t } && f@ == from@ && t@ == to@),
{
    ExeCommand::Transfer { from: from.to_owned(), to: to.to_owned() }
}

} // verus!
