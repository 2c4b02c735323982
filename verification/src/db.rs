//! Records the app keeps in its database.
use vstd::prelude::*;
use crate::entity::ProviderBackendId;
use crate::provider::ConversationItem;

verus! {

/// How a backend authenticates.
#[derive(Clone, Copy, Debug, PartialEq, Eq, Structural)]
pub enum AuthKind {
    ApiKey,
    Oauth,
}

/// A provider backend the user connected.
#[derive(Debug, PartialEq, Eq)]
pub struct ConnectedBackend {
    pub id: ProviderBackendId,
    pub auth_kind: AuthKind,
    pub secret: String,
    pub model: String,
    pub effort: String,
    pub preferred: bool,
}

/// The model and effort to use with a provider.
#[derive(Clone, Debug, PartialEq, Eq)]
pub struct PreferModelConfig {
    pub model: String,
    pub effort: String,
}

/// A stored allow rule: a command prefix, matched exactly or as a glob.
#[derive(Clone, Debug, PartialEq, Eq)]
pub struct Permission {
    pub prefix: String,
    pub with_glob: bool,
    pub updated_at: i64,
}

/// A stored history entry as a session replays it: the backend that
/// produced it, the item, and whether the turn it belongs to finished.
#[derive(Debug)]
pub struct RestoreEntry {
    pub provider_backend_id: ProviderBackendId,
    pub payload: ConversationItem,
    pub finished: bool,
}

} // verus!
