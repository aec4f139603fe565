//! Cloud-sync data types, the in-memory authentication state, and the
//! newer-timestamp-wins merge of synchronized settings.

use vstd::prelude::*;

verus! {

/// A cloud account.
#[derive(Clone, Debug)]
pub struct CloudUser {
    pub id: i64,
    pub email: String,
    pub name: Option<String>,
    pub is_premium: bool,
    pub premium_until: Option<String>,
    pub created_at: String,
}

/// The server's answer to login and registration.
#[derive(Clone, Debug)]
pub struct AuthResponse {
    pub success: bool,
    pub token: Option<String>,
    pub user: Option<CloudUser>,
    pub error: Option<String>,
}

/// Synchronization status as reported by the server.
#[derive(Clone, Debug)]
pub struct SyncStatus {
    pub last_sync: Option<String>,
    pub device_count: i32,
    pub is_syncing: bool,
}

/// The outcome of a push or pull.
#[derive(Clone, Debug)]
pub struct SyncResult {
    pub success: bool,
    pub server_timestamp: Option<String>,
    pub conflicts: Vec<SyncConflict>,
    pub error: Option<String>,
}

/// One merge conflict and how it was resolved.
#[derive(Clone, Debug)]
pub struct SyncConflict {
    pub data_type: String,
    pub local_timestamp: String,
    pub server_timestamp: String,
    pub resolution: String,
}

/// Subscription details.
#[derive(Clone, Debug)]
pub struct SubscriptionInfo {
    pub is_premium: bool,
    pub plan: Option<String>,
    pub premium_until: Option<String>,
    pub cancel_at_period_end: bool,
}

/// The synchronized settings payloads; each section is carried opaquely.
#[derive(Clone, Debug)]
pub struct SyncData {
    pub accounts: Option<String>,
    pub ai_config: Option<String>,
    pub categories: Option<String>,
    pub client_timestamp: Option<String>,
    pub last_modified: Option<String>,
}

/// The process-wide login state; the hosting process keeps one instance
/// behind its lock.
pub struct AuthState {
    pub token: Option<String>,
    pub user: Option<CloudUser>,
}

impl AuthState {
    /// A logged-out state.
    pub fn new() -> (r: AuthState)
        ensures
            r.token is None,
            r.user is None,
    {
        AuthState { token: None, user: None }
    }

    /// The current auth token.
    pub fn get_token(&self) -> (r: Option<String>)
        ensures
            r is Some <==> self.token is Some,
            r matches Some(t) ==> self.token matches Some(u) && t@ == u@,
    {
        match &self.token {
            Some(t) => Some(t.clone()),
            None => None,
        }
    }

    /// The current user, if logged in.
    pub fn get_current_user(&self) -> (r: Option<CloudUser>)
        ensures
            r is Some <==> self.user is Some,
            r matches Some(u) ==> self.user matches Some(v) && u.id == v.id && u.email@ == v.email@
                && u.is_premium == v.is_premium,
    {
        match &self.user {
            Some(u) => Some(
                CloudUser {
                    id: u.id,
                    email: u.email.clone(),
                    name: match &u.name {
                        Some(n) => Some(n.clone()),
                        None => None,
                    },
                    is_premium: u.is_premium,
                    premium_until: match &u.premium_until {
                        Some(p) => Some(p.clone()),
                        None => None,
                    },
                    created_at: u.created_at.clone(),
                },
            ),
            None => None,
        }
    }

    /// Whether a token is held.
    pub fn is_logged_in(&self) -> (r: bool)
        ensures
            r == (self.token is Some),
    {
        self.token.is_some()
    }

    /// Whether the logged-in user has premium.
    pub fn is_premium(&self) -> (r: bool)
        ensures
            r == (match self.user {
                Some(u) => u.is_premium,
                None => false,
            }),
    {
        match &self.user {
            Some(u) => u.is_premium,
            None => false,
        }
    }

    /// Replaces the login state after authentication.
    pub fn set_auth_state(&mut self, token: Option<String>, user: Option<CloudUser>)
        ensures
            final(self).token == token,
            final(self).user == user,
    {
        self.token = token;
        self.user = user;
    }

    /// Drops the login state on logout or token expiry.
    pub fn clear_auth_state(&mut self)
        ensures
            final(self).token is None,
            final(self).user is None,
    {
        self.token = None;
        self.user = None;
    }
}

/// Whether the left timestamp is strictly newer; an absent timestamp never
/// wins.
pub open spec fn spec_ts_newer(a: Option<i64>, b: Option<i64>) -> bool {
    match (a, b) {
        (Some(x), Some(y)) => x > y,
        (Some(_), None) => true,
        _ => false,
    }
}

/// A conflict record as (data_type, local_timestamp, server_timestamp,
/// resolution).
pub open spec fn spec_conflict_v(c: SyncConflict) -> (Seq<char>, Seq<char>, Seq<char>, Seq<
    char,
>) {
    (c.data_type@, c.local_timestamp@, c.server_timestamp@, c.resolution@)
}

pub open spec fn spec_opt_str(s: Option<String>) -> Seq<char> {
    match s {
        Some(v) => v@,
        None => Seq::empty(),
    }
}

/// The conflicts a merge records: one per section both sides carry when the
/// local side is newer, naming the section, carrying both timestamps, and
/// resolved `local`.
pub open spec fn spec_merge_conflicts(local: SyncData, remote: SyncData, local_wins: bool) -> Seq<
    (Seq<char>, Seq<char>, Seq<char>, Seq<char>),
> {
    if !local_wins {
        Seq::empty()
    } else {
        let lts = spec_opt_str(local.client_timestamp);
        let sts = spec_opt_str(remote.last_modified);
        (if local.accounts is Some && remote.accounts is Some {
            seq![("accounts"@, lts, sts, "local"@)]
        } else {
            Seq::empty()
        }) + (if local.ai_config is Some && remote.ai_config is Some {
            seq![("ai_config"@, lts, sts, "local"@)]
        } else {
            Seq::empty()
        }) + (if local.categories is Some && remote.categories is Some {
            seq![("categories"@, lts, sts, "local"@)]
        } else {
            Seq::empty()
        })
    }
}

fn opt_string_copy(s: &Option<String>) -> (r: Option<String>)
    ensures
        r == *s,
{
    match s {
        Some(v) => Some(v.clone()),
        None => None,
    }
}

fn or_else_copy(a: &Option<String>, b: &Option<String>) -> (r: Option<String>)
    ensures
        a is Some ==> r == *a,
        a is None ==> r == *b,
{
    match a {
        Some(v) => Some(v.clone()),
        None => opt_string_copy(b),
    }
}

fn string_or_empty(s: &Option<String>) -> (r: String)
    ensures
        (match s {
            Some(v) => r@ == v@,
            None => r@ == Seq::<char>::empty(),
        }),
{
    match s {
        Some(v) => v.clone(),
        None => String::new(),
    }
}

/// Merges local and remote sync data: where both sides carry a section, the
/// newer timestamp wins and a local win is recorded as a conflict; a section
/// only one side carries is taken from the remote first, else the local.
/// `local_ts` and `remote_ts` are the parsed client and server timestamps.
pub fn merge_sync_data(
    local: &SyncData,
    remote: &SyncData,
    local_ts: Option<i64>,
    remote_ts: Option<i64>,
) -> (r: (SyncData, Vec<SyncConflict>))
    ensures
        ({
            let local_wins = spec_ts_newer(local_ts, remote_ts);
            &&& (local.accounts is Some && remote.accounts is Some) ==> r.0.accounts == (if local_wins {
                local.accounts
            } else {
                remote.accounts
            })
            &&& !(local.accounts is Some && remote.accounts is Some) ==> r.0.accounts == (if remote.accounts is Some {
                remote.accounts
            } else {
                local.accounts
            })
            &&& (local.ai_config is Some && remote.ai_config is Some) ==> r.0.ai_config == (if local_wins {
                local.ai_config
            } else {
                remote.ai_config
            })
            &&& !(local.ai_config is Some && remote.ai_config is Some) ==> r.0.ai_config == (if remote.ai_config is Some {
                remote.ai_config
            } else {
                local.ai_config
            })
            &&& (local.categories is Some && remote.categories is Some) ==> r.0.categories == (if local_wins {
                local.categories
            } else {
                remote.categories
            })
            &&& !(local.categories is Some && remote.categories is Some) ==> r.0.categories == (if remote.categories is Some {
                remote.categories
            } else {
                local.categories
            })
            &&& r.0.last_modified == remote.last_modified
            &&& r.0.client_timestamp is None
            &&& r.1@.map_values(|c: SyncConflict| spec_conflict_v(c)) == spec_merge_conflicts(
                *local,
                *remote,
                local_wins,
            )
        }),
{
    let local_wins = match (local_ts, remote_ts) {
        (Some(x), Some(y)) => x > y,
        (Some(_), None) => true,
        _ => false,
    };
    let mut conflicts: Vec<SyncConflict> = Vec::new();
    proof {
        assert(local_wins == spec_ts_newer(local_ts, remote_ts));
    }
    let accounts: Option<String>;
    if local.accounts.is_some() && remote.accounts.is_some() {
        if local_wins {
            accounts = opt_string_copy(&local.accounts);
            conflicts.push(
                SyncConflict {
                    data_type: "accounts".to_owned(),
                    local_timestamp: string_or_empty(&local.client_timestamp),
                    server_timestamp: string_or_empty(&remote.last_modified),
                    resolution: "local".to_owned(),
                },
            );
        } else {
            accounts = opt_string_copy(&remote.accounts);
        }
    } else {
        accounts = or_else_copy(&remote.accounts, &local.accounts);
    }
    let ai_config: Option<String>;
    if local.ai_config.is_some() && remote.ai_config.is_some() {
        if local_wins {
            ai_config = opt_string_copy(&local.ai_config);
            conflicts.push(
                SyncConflict {
                    data_type: "ai_config".to_owned(),
                    local_timestamp: string_or_empty(&local.client_timestamp),
                    server_timestamp: string_or_empty(&remote.last_modified),
                    resolution: "local".to_owned(),
                },
            );
        } else {
            ai_config = opt_string_copy(&remote.ai_config);
        }
    } else {
        ai_config = or_else_copy(&remote.ai_config, &local.ai_config);
    }
    let categories: Option<String>;
    if local.categories.is_some() && remote.categories.is_some() {
        if local_wins {
            categories = opt_string_copy(&local.categories);
            conflicts.push(
                SyncConflict {
                    data_type: "categories".to_owned(),
                    local_timestamp: string_or_empty(&local.client_timestamp),
                    server_timestamp: string_or_empty(&remote.last_modified),
                    resolution: "local".to_owned(),
                },
            );
        } else {
            categories = opt_string_copy(&remote.categories);
        }
    } else {
        categories = or_else_copy(&remote.categories, &local.categories);
    }
    let merged = SyncData {
        accounts,
        ai_config,
        categories,
        client_timestamp: None,
        last_modified: opt_string_copy(&remote.last_modified),
    };
    proof {
        assert(conflicts@.map_values(|c: SyncConflict| spec_conflict_v(c)) =~~= spec_merge_conflicts(
            *local,
            *remote,
            local_wins,
        ));
    }
    (merged, conflicts)
}

} // verus!
