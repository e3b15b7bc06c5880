//! The requests that a client sends to the sequencer.

use vstd::prelude::*;

verus! {

/// What a user's cell edit looks like to the others in the room.
#[derive(Debug, PartialEq, Eq)]
pub struct CellEdit {
    pub active: bool,
    pub text: String,
    pub cursor: u32,
    pub code_editor: bool,
}

/// What has changed in how a user is seen by the others in the room; a field
/// that is `None` has not changed.
#[derive(Debug, PartialEq, Eq)]
pub struct UserStateUpdate {
    pub sheet_id: Option<u128>,
    pub selection: Option<String>,
    pub cell_edit: Option<CellEdit>,
    pub x: Option<i64>,
    pub y: Option<i64>,
    pub visible: Option<bool>,
    pub viewport: Option<String>,
    pub follow: Option<String>,
}

/// A request of a client.
#[derive(Debug, PartialEq, Eq)]
#[allow(inconsistent_fields)]
pub enum MessageRequest {
    EnterRoom {
        session_id: u128,
        user_id: String,
        file_id: u128,
        first_name: String,
        last_name: String,
        email: String,
        image: String,
        sheet_id: u128,
        selection: String,
        cell_edit: CellEdit,
        viewport: String,
        follow: Option<String>,
    },
    LeaveRoom { session_id: u128, file_id: u128 },
    UserUpdate { session_id: u128, file_id: u128, update: UserStateUpdate },
    /// A transaction, with its operations compressed and serialized.
    Transaction { id: u128, session_id: u128, file_id: u128, operations: Vec<u8> },
    /// Asks for the transactions from a sequence number on.
    GetTransactions { file_id: u128, session_id: u128, min_sequence_num: u64 },
    Heartbeat { session_id: u128, file_id: u128 },
}

impl MessageRequest {
    /// The document that the request is about.
    pub fn file_id(&self) -> (r: u128)
        ensures
            r == match *self {
                MessageRequest::EnterRoom { file_id, .. } => file_id,
                MessageRequest::LeaveRoom { file_id, .. } => file_id,
                MessageRequest::UserUpdate { file_id, .. } => file_id,
                MessageRequest::Transaction { file_id, .. } => file_id,
                MessageRequest::GetTransactions { file_id, .. } => file_id,
                MessageRequest::Heartbeat { file_id, .. } => file_id,
            },
    {
        match self {
            MessageRequest::EnterRoom { file_id, .. } => *file_id,
            MessageRequest::LeaveRoom { file_id, .. } => *file_id,
            MessageRequest::UserUpdate { file_id, .. } => *file_id,
            MessageRequest::Transaction { file_id, .. } => *file_id,
            MessageRequest::GetTransactions { file_id, .. } => *file_id,
            MessageRequest::Heartbeat { file_id, .. } => *file_id,
        }
    }

    /// The session that sent the request.
    pub fn session_id(&self) -> (r: u128)
        ensures
            r == match *self {
                MessageRequest::EnterRoom { session_id, .. } => session_id,
                MessageRequest::LeaveRoom { session_id, .. } => session_id,
                MessageRequest::UserUpdate { session_id, .. } => session_id,
                MessageRequest::Transaction { session_id, .. } => session_id,
                MessageRequest::GetTransactions { session_id, .. } => session_id,
                MessageRequest::Heartbeat { session_id, .. } => session_id,
            },
    {
        match self {
            MessageRequest::EnterRoom { session_id, .. } => *session_id,
            MessageRequest::LeaveRoom { session_id, .. } => *session_id,
            MessageRequest::UserUpdate { session_id, .. } => *session_id,
            MessageRequest::Transaction { session_id, .. } => *session_id,
            MessageRequest::GetTransactions { session_id, .. } => *session_id,
            MessageRequest::Heartbeat { session_id, .. } => *session_id,
        }
    }
}

} // verus!
