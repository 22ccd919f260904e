//! Verification of an entered API key: a little state machine that animates
//! a waiting indicator and classifies the outcome of a token-information
//! call by the permissions the key carries.

use vstd::prelude::*;

use crate::entities::{Gw2ApiKey, Gw2Permission, LoadingState};

verus! {

/// How long the waiting indicator keeps one of its shapes, in
/// milliseconds.
pub const DOTS_STEP_MS: u64 = 500;

/// The verification state: when the waiting indicator last advanced, which
/// of its four shapes shows, and how far verification got.
pub struct ApiKeyLoader {
    pub last_update: u64,
    pub state: usize,
    pub loading_state: LoadingState<String>,
}

/// The permission list carries the given permission.
pub open spec fn has_permission(perms: Seq<Gw2Permission>, p: Gw2Permission) -> bool {
    exists|k: int| 0 <= k < perms.len() && perms[k] == p
}

impl ApiKeyLoader {
    /// A fresh loader at time `now_ms`: indicator at its first shape,
    /// verification not yet begun.
    pub fn new(now_ms: u64) -> (r: ApiKeyLoader)
        ensures
            r.last_update == now_ms,
            r.state == 0,
            r.loading_state is Init,
    {
        ApiKeyLoader { last_update: now_ms, state: 0, loading_state: LoadingState::Init }
    }

    /// How far verification got.
    pub fn loading_state(&self) -> (r: &LoadingState<String>)
        ensures
            r == &self.loading_state,
    {
        &self.loading_state
    }

    /// Advance the waiting indicator once its step has elapsed.
    pub fn update(&mut self, now_ms: u64)
        requires
            old(self).state < 4,
        ensures
            final(self).state == (if now_ms - old(self).last_update >= DOTS_STEP_MS {
                ((old(self).state + 1) as int % 4)
            } else {
                old(self).state as int
            }),
            final(self).last_update == (if now_ms - old(self).last_update >= DOTS_STEP_MS {
                now_ms
            } else {
                old(self).last_update
            }),
            final(self).state < 4,
            final(self).loading_state == old(self).loading_state,
    {
        if now_ms >= self.last_update && now_ms - self.last_update >= DOTS_STEP_MS {
            self.state = (self.state + 1) % 4;
            self.last_update = now_ms;
        }
    }

    /// The waiting indicator's current shape.
    pub fn curr_dots(&self) -> (r: &'static str)
        requires
            self.state < 4,
        ensures
            self.state == 0 ==> r@ == ""@,
            self.state == 1 ==> r@ == "."@,
            self.state == 2 ==> r@ == ".."@,
            self.state == 3 ==> r@ == "..."@,
    {
        if self.state == 0 {
            ""
        } else if self.state == 1 {
            "."
        } else if self.state == 2 {
            ".."
        } else {
            "..."
        }
    }

    /// Whether a verification may begin: one already running is not started
    /// again; otherwise the state turns to running.
    pub fn begin_verification(&mut self) -> (started: bool)
        ensures
            old(self).loading_state is Loading ==> !started && *final(self) == *old(self),
            !(old(self).loading_state is Loading) ==> started && final(self).loading_state
                is Loading && final(self).last_update == old(self).last_update && final(self).state
                == old(self).state,
    {
        match &self.loading_state {
            LoadingState::Loading => false,
            _ => {
                self.loading_state = LoadingState::Loading;
                true
            }
        }
    }

    /// Classify what the token-information call returned: a failed call
    /// means the key is invalid; a key that lacks the account or the
    /// inventories permission is rejected; any other key is accepted as it
    /// was entered.
    pub fn apply_verification(&mut self, check_api_key: String, result: Option<Gw2ApiKey>)
        ensures
            final(self).last_update == old(self).last_update,
            final(self).state == old(self).state,
            (match result {
                None => final(self).loading_state matches LoadingState::Error(m) && m@
                    == "Invalid Api Key!"@,
                Some(info) => {
                    if has_permission(info.permissions@, Gw2Permission::Inventories)
                        && has_permission(info.permissions@, Gw2Permission::Account) {
                        final(self).loading_state matches LoadingState::Success(k) && k@
                            == check_api_key@
                    } else {
                        final(self).loading_state matches LoadingState::Error(m) && m@
                            == "Invalid permissions!"@
                    }
                },
            }),
    {
        match result {
            None => {
                self.loading_state = LoadingState::Error("Invalid Api Key!");
            }
            Some(info) => {
                let inv = permissions_contain(&info.permissions, Gw2Permission::Inventories);
                let acc = permissions_contain(&info.permissions, Gw2Permission::Account);
                if inv && acc {
                    self.loading_state = LoadingState::Success(check_api_key);
                } else {
                    self.loading_state = LoadingState::Error("Invalid permissions!");
                }
            }
        }
    }
}

/// Whether the permission list carries the given permission.
fn permissions_contain(perms: &Vec<Gw2Permission>, p: Gw2Permission) -> (r: bool)
    ensures
        r == has_permission(perms@, p),
{
    let mut k: usize = 0;
    while k < perms.len()
        invariant
            k <= perms@.len(),
            forall|j: int| 0 <= j < k ==> perms@[j] != p,
        decreases perms@.len() - k,
    {
        if perms[k] == p {
            return true;
        }
        k = k + 1;
    }
    false
}

} // verus!
