//! Acceptor admission logic: the single-client gate, the handshake order,
//! password verification and the rolling-window rate limiter.
//!
//! The surrounding process owns the sockets; it feeds this state machine the
//! facts of a new connection (whether the Hello decoded, the supplied secret,
//! the clock) and performs the returned actions in order.

use argon2::PasswordVerifier;
use vstd::prelude::*;

verus! {

use crate::proto::ErrorCode;

/// Whether a secret matches an Argon2 PHC-format hash: a function of the two
/// strings alone.
pub uninterp spec fn argon2_accepts(hash: Seq<char>, secret: Seq<char>) -> bool;

/// Relies on argon2's PasswordVerifier::verify_password (through
/// PasswordHash parsing): acceptance depends only on the hash string and the
/// secret; a hash that does not parse accepts nothing.
#[verifier::external_body]
fn verify_secret(hash: &str, secret: &str) -> (r: bool)
    ensures
        r == argon2_accepts(hash@, secret@),
{
    argon2::Argon2::default().verify_password(secret.as_bytes(), hash).is_ok()
}

/// One step the caller must perform on the connection, in order.
#[derive(Debug, Clone, Copy, PartialEq, Eq, Structural)]
pub enum ConnAction {
    SendError(ErrorCode),
    Close,
    RunSession,
}

/// A connection timestamp lies in the rolling window ending at `now`.
pub open spec fn in_window(ts: u64, now: u64, window_ms: u64) -> bool {
    ts + window_ms > now
}

/// The acceptor: the single-client gate, the rate-limit window, and the
/// optional password hash.
pub struct Acceptor {
    active: bool,
    recent: Vec<u64>,
    limit_n: usize,
    window_ms: u64,
    secret_hash: Option<String>,
}

impl Acceptor {
    /// Whether a session currently holds the single-client gate.
    pub closed spec fn is_active(&self) -> bool {
        self.active
    }

    /// The recorded connection timestamps.
    pub closed spec fn recent_ts(&self) -> Seq<u64> {
        self.recent@
    }

    /// The rate limit: more than this many connections within the window are
    /// rejected.
    pub closed spec fn spec_limit(&self) -> usize {
        self.limit_n
    }

    /// The rolling window length in milliseconds.
    pub closed spec fn spec_window(&self) -> u64 {
        self.window_ms
    }

    /// The configured password hash, if any.
    pub closed spec fn spec_hash(&self) -> Option<String> {
        self.secret_hash
    }

    /// Create an acceptor with the given rate limit, window and optional
    /// password hash.
    pub fn new(limit_n: usize, window_ms: u64, secret_hash: Option<String>) -> (r: Acceptor)
        ensures
            !r.is_active(),
            r.recent_ts() == Seq::<u64>::empty(),
            r.spec_limit() == limit_n,
            r.spec_window() == window_ms,
            r.spec_hash() == secret_hash,
    {
        Acceptor { active: false, recent: Vec::new(), limit_n, window_ms, secret_hash }
    }

    /// Whether connections must authenticate.
    pub fn requires_auth(&self) -> (r: bool)
        ensures
            r == (self.spec_hash() is Some),
    {
        match &self.secret_hash {
            Some(_) => true,
            None => false,
        }
    }

    /// Release the single-client gate when a session ends, however it ends.
    pub fn end_session(&mut self)
        ensures
            !final(self).is_active(),
            final(self).recent_ts() == old(self).recent_ts(),
            final(self).spec_limit() == old(self).spec_limit(),
            final(self).spec_window() == old(self).spec_window(),
            final(self).spec_hash() == old(self).spec_hash(),
    {
        self.active = false;
    }

    /// Decide a freshly accepted connection, given whether its Hello decoded
    /// and the secret it supplied. Returns the actions to perform in order:
    /// a busy server sends exactly one Busy error and closes; a bad
    /// handshake closes; a bad secret sends Unauthorized and closes; a
    /// connection past the rate limit receives a RateLimit error and closes;
    /// otherwise the connection claims the single-client flag and the session
    /// runs.
    pub fn decide(&mut self, now_ms: u64, hello_ok: bool, secret: Option<&String>) -> (r: Vec<
        ConnAction,
    >)
        ensures
            final(self).spec_limit() == old(self).spec_limit(),
            final(self).spec_window() == old(self).spec_window(),
            final(self).spec_hash() == old(self).spec_hash(),
            old(self).is_active() ==> r@ == seq![
                ConnAction::SendError(ErrorCode::Busy),
                ConnAction::Close,
            ] && *final(self) == *old(self),
            !old(self).is_active() && !hello_ok ==> r@ == seq![ConnAction::Close] && *final(self)
                == *old(self),
            !old(self).is_active() && hello_ok ==> match old(self).spec_hash() {
                Some(hash) => {
                    match secret {
                        None => r@ == seq![ConnAction::Close] && *final(self) == *old(self),
                        Some(s) => {
                            if !argon2_accepts(hash@, s@) {
                                r@ == seq![
                                    ConnAction::SendError(ErrorCode::Unauthorized),
                                    ConnAction::Close,
                                ] && *final(self) == *old(self)
                            } else {
                                final(self).admitted_or_limited(old(self), now_ms, r@)
                            }
                        },
                    }
                },
                None => final(self).admitted_or_limited(old(self), now_ms, r@),
            },
    {
        if self.active {
            return two_actions(ConnAction::SendError(ErrorCode::Busy), ConnAction::Close);
        }
        if !hello_ok {
            return one_action(ConnAction::Close);
        }
        let authorized: bool = match (&self.secret_hash, secret) {
            (Some(hash), Some(s)) => {
                if verify_secret(hash.as_str(), s.as_str()) {
                    true
                } else {
                    return two_actions(
                        ConnAction::SendError(ErrorCode::Unauthorized),
                        ConnAction::Close,
                    );
                }
            },
            (Some(_), None) => {
                return one_action(ConnAction::Close);
            },
            (None, _) => true,
        };
        proof {
            assert(authorized);
        }
        // Rate limit: prune the window, count this connection, reject when
        // over the limit.
        let ghost pre = *self;
        let n = self.recent.len();
        let mut kept: Vec<u64> = Vec::new();
        let mut i: usize = 0;
        proof {
            reveal_with_fuel(Seq::<u64>::filter, 2);
            assert(self.recent@.take(0).filter(
                |t: u64| in_window(t, now_ms, self.window_ms),
            ) =~= Seq::<u64>::empty());
            assert(kept@ =~= Seq::<u64>::empty());
        }
        while i < n
            invariant
                i <= n,
                n == self.recent@.len(),
                *self == pre,
                kept@ == self.recent@.take(i as int).filter(
                    |t: u64| in_window(t, now_ms, self.window_ms),
                ),
            decreases n - i,
        {
            let ts = self.recent[i];
            proof {
                reveal_with_fuel(Seq::<u64>::filter, 2);
                let s1 = self.recent@.take(i as int + 1);
                assert(s1.drop_last() =~= self.recent@.take(i as int));
                assert(s1.last() == ts);
                assert(s1.filter(|t: u64| in_window(t, now_ms, self.window_ms)) == if in_window(
                    ts,
                    now_ms,
                    self.window_ms,
                ) {
                    self.recent@.take(i as int).filter(
                        |t: u64| in_window(t, now_ms, self.window_ms),
                    ).push(ts)
                } else {
                    self.recent@.take(i as int).filter(
                        |t: u64| in_window(t, now_ms, self.window_ms),
                    )
                });
            }
            if ts > u64::MAX - self.window_ms || ts + self.window_ms > now_ms {
                proof {
                    assert(in_window(ts, now_ms, self.window_ms));
                }
                kept.push(ts);
            } else {
                proof {
                    assert(!in_window(ts, now_ms, self.window_ms));
                }
            }
            i = i + 1;
        }
        proof {
            assert(self.recent@.take(n as int) =~= self.recent@);
        }
        let over = kept.len() >= self.limit_n;
        self.recent = kept;
        self.recent.push(now_ms);
        if over {
            return two_actions(ConnAction::SendError(ErrorCode::RateLimit), ConnAction::Close);
        }
        self.active = true;
        one_action(ConnAction::RunSession)
    }

    /// The admitted-or-rate-limited outcome: the window is pruned to live
    /// timestamps plus this connection; past the limit the connection gets
    /// exactly one RateLimit error and a close; otherwise the connection
    /// claims the single-client flag and the session runs.
    pub open spec fn admitted_or_limited(
        &self,
        pre: &Acceptor,
        now_ms: u64,
        r: Seq<ConnAction>,
    ) -> bool {
        let live = pre.recent_ts().filter(|ts: u64| in_window(ts, now_ms, pre.spec_window()));
        &&& self.recent_ts() == live.push(now_ms)
        &&& if live.len() + 1 > pre.spec_limit() {
            r == seq![ConnAction::SendError(ErrorCode::RateLimit), ConnAction::Close]
                && self.is_active() == pre.is_active()
        } else {
            r == seq![ConnAction::RunSession] && self.is_active()
        }
    }
}

/// A single-action list.
fn one_action(a: ConnAction) -> (r: Vec<ConnAction>)
    ensures
        r@ == seq![a],
{
    let mut v: Vec<ConnAction> = Vec::new();
    v.push(a);
    proof {
        assert(v@ =~= seq![a]);
    }
    v
}

/// A two-action list.
fn two_actions(a: ConnAction, b: ConnAction) -> (r: Vec<ConnAction>)
    ensures
        r@ == seq![a, b],
{
    let mut v: Vec<ConnAction> = Vec::new();
    v.push(a);
    v.push(b);
    proof {
        assert(v@ =~= seq![a, b]);
    }
    v
}

} // verus!
