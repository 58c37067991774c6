//! The discovery resolver: permit filtering and backoff recovery.
//!
//! A resolution for a concrete target is granted only when the target
//! satisfies the configured allow-list — name targets must match a
//! configured suffix, socket targets must fall in a configured network of
//! the same address family. The filter is evaluated once per resolution
//! request; a refused target never reaches the discovery call. A granted
//! resolution survives transient discovery failures through jittered
//! exponential backoff, while a failure whose status marks the request
//! itself as invalid ends the resolution at once, with no retry.

use vstd::prelude::*;
use crate::addr::{Addr, AddrView};
use crate::backoff::{BackoffStream, ExponentialBackoff, spec_delay};
use crate::name::{Suffix, spec_in_suffixes, in_suffixes};
use crate::net::{Network, networks_wf, spec_in_networks, in_networks};

verus! {

/// A resolvable destination, the key of one endpoint-discovery stream.
#[derive(Debug, PartialEq, Eq)]
pub struct ConcreteTarget {
    pub dst: Addr,
}

/// The non-retryable refusal of a discovery request.
#[derive(Clone, Copy, Debug, PartialEq, Eq, Structural)]
pub struct DiscoveryRejected;

/// The allow-list of targets for which discovery may be attempted.
#[derive(Debug)]
pub struct PermitConfiguredDsts {
    pub name_suffixes: Vec<Suffix>,
    pub networks: Vec<Network>,
}

impl PermitConfiguredDsts {
    pub open spec fn wf(self) -> bool {
        networks_wf(self.networks@)
    }

    pub fn new(name_suffixes: Vec<Suffix>, networks: Vec<Network>) -> (r: PermitConfiguredDsts)
        requires
            networks_wf(networks@),
        ensures
            r.name_suffixes@ == name_suffixes@,
            r.networks@ == networks@,
            r.wf(),
    {
        PermitConfiguredDsts { name_suffixes, networks }
    }

    /// Whether the allow-list permits a target: a name matching a
    /// configured suffix, or an address inside a configured network of the
    /// same family.
    pub open spec fn spec_permitted(self, t: AddrView) -> bool {
        match t {
            AddrView::Name(na) => spec_in_suffixes(self.name_suffixes@, na.name),
            AddrView::Socket(sa) => spec_in_networks(self.networks@, sa.ip),
        }
    }

    /// Passes a permitted target through unchanged; refuses any other with
    /// a non-retryable rejection.
    pub fn filter(&self, t: ConcreteTarget) -> (r: Result<ConcreteTarget, DiscoveryRejected>)
        requires
            self.wf(),
        ensures
            self.spec_permitted(t.dst@) ==> (r matches Ok(t2) && t2.dst@ == t.dst@),
            !self.spec_permitted(t.dst@) ==> (r matches Err(e) && e == DiscoveryRejected),
    {
        let permitted = match &t.dst {
            Addr::Name(na) => in_suffixes(&self.name_suffixes, &na.name),
            Addr::Socket(sa) => in_networks(&self.networks, &sa.ip),
        };
        if permitted {
            Ok(t)
        } else {
            Err(DiscoveryRejected)
        }
    }
}

/// What a discovery stream failed with: a status carrying a code, or a
/// transport-level error with no status.
#[derive(Clone, Copy, Debug, PartialEq, Eq, Structural)]
pub enum DiscoveryError {
    Status { code: u32 },
    Transport,
}

/// The status code that marks a discovery request itself as malformed.
pub const CODE_INVALID_ARGUMENT: u32 = 3;

/// A failure is terminal exactly when its status says the request itself
/// is invalid: delay will not change a request-shape error.
pub open spec fn is_terminal(e: DiscoveryError) -> bool {
    e matches DiscoveryError::Status { code } && code == CODE_INVALID_ARGUMENT
}

/// The recovery policy: back off on any failure unless its status is
/// invalid-argument, which aborts recovery.
#[derive(Clone, Copy, Debug, PartialEq, Eq, Structural)]
pub struct BackoffUnlessInvalidArgument(pub ExponentialBackoff);

impl From<ExponentialBackoff> for BackoffUnlessInvalidArgument {
    fn from(eb: ExponentialBackoff) -> Self {
        BackoffUnlessInvalidArgument(eb)
    }
}

impl vstd::std_specs::convert::FromSpecImpl<ExponentialBackoff> for BackoffUnlessInvalidArgument {
    open spec fn obeys_from_spec() -> bool {
        true
    }

    open spec fn from_spec(eb: ExponentialBackoff) -> Self {
        BackoffUnlessInvalidArgument(eb)
    }
}

impl BackoffUnlessInvalidArgument {
    /// Classifies a failure: a terminal one aborts with a rejection, any
    /// other yields a fresh backoff stream to retry with.
    pub fn recover(&self, err: DiscoveryError) -> (r: Result<BackoffStream, DiscoveryRejected>)
        ensures
            is_terminal(err) ==> (r matches Err(e) && e == DiscoveryRejected),
            !is_terminal(err) ==> (r matches Ok(s) && s.backoff == self.0 && s.attempt == 0),
    {
        match err {
            DiscoveryError::Status { code } => {
                if code == CODE_INVALID_ARGUMENT {
                    return Err(DiscoveryRejected);
                }
            },
            DiscoveryError::Transport => {},
        }
        Ok(self.0.stream())
    }
}

/// The phase a resolution is in.
#[derive(Clone, Copy, Debug, PartialEq, Eq, Structural)]
pub enum ResolvePhase {
    /// A discovery stream is (being) established and may deliver events.
    Active,
    /// The last stream failed transiently; the resolution waits out the
    /// computed delay before reconnecting.
    BackingOff { delay_ms: u64 },
    /// A terminal failure ended the resolution.
    Failed,
}

/// What the driver of a resolution must do after a step.
#[derive(Clone, Copy, Debug, PartialEq, Eq, Structural)]
pub enum ResolveStep {
    /// Wait out the given delay, then report it elapsed.
    Backoff { delay_ms: u64 },
    /// Establish a fresh discovery stream for the target.
    Reconnect,
    /// Surface the rejection to the consumer; nothing is retried.
    Terminate,
}

/// One granted resolution: its target, its recovery policy, and its
/// progress through failures and reconnects.
#[derive(Debug)]
pub struct Resolution {
    pub target: ConcreteTarget,
    pub backoff: ExponentialBackoff,
    pub phase: ResolvePhase,
    pub attempt: u64,
    pub reconnects: u64,
}

/// The mathematical state of a resolution's recovery loop.
#[verifier::ext_equal]
pub ghost struct RecoveryModel {
    pub phase: ResolvePhase,
    pub attempt: int,
    pub reconnects: int,
}

impl Resolution {
    pub open spec fn model(self) -> RecoveryModel {
        RecoveryModel {
            phase: self.phase,
            attempt: self.attempt as int,
            reconnects: self.reconnects as int,
        }
    }
}

/// A failure step: terminal failures end the resolution; any other failure
/// moves it into backoff for its next attempt.
pub open spec fn fail_step(m: RecoveryModel, terminal: bool, delay_ms: u64) -> RecoveryModel {
    if terminal {
        RecoveryModel { phase: ResolvePhase::Failed, attempt: m.attempt, reconnects: m.reconnects }
    } else {
        RecoveryModel {
            phase: ResolvePhase::BackingOff { delay_ms },
            attempt: m.attempt + 1,
            reconnects: m.reconnects,
        }
    }
}

/// An elapsed backoff: the resolution reconnects.
pub open spec fn elapse_step(m: RecoveryModel) -> RecoveryModel {
    RecoveryModel {
        phase: ResolvePhase::Active,
        attempt: m.attempt,
        reconnects: m.reconnects + 1,
    }
}

impl Resolution {
    /// Handles a failure of the discovery stream.
    ///
    /// A terminal failure (invalid argument) terminates at once: no backoff
    /// delay is ever observed. Any other failure computes the next jittered
    /// backoff delay from the caller's entropy and waits it out.
    pub fn on_failure(&mut self, err: DiscoveryError, entropy: u64) -> (a: ResolveStep)
        requires
            old(self).phase is Active,
            old(self).backoff.wf(),
            old(self).attempt < u64::MAX,
        ensures
            final(self).target.dst@ == old(self).target.dst@,
            final(self).backoff == old(self).backoff,
            is_terminal(err) ==> (a is Terminate && final(self).model() == fail_step(
                old(self).model(),
                true,
                0,
            )),
            !is_terminal(err) ==> (a matches ResolveStep::Backoff { delay_ms }
                && delay_ms == spec_delay(old(self).backoff, old(self).attempt as nat)
                    + entropy as int % (spec_delay(
                    old(self).backoff,
                    old(self).attempt as nat,
                ) + 1)
                && final(self).model() == fail_step(old(self).model(), false, delay_ms)),
    {
        let terminal = match err {
            DiscoveryError::Status { code } => code == CODE_INVALID_ARGUMENT,
            DiscoveryError::Transport => false,
        };
        if terminal {
            self.phase = ResolvePhase::Failed;
            ResolveStep::Terminate
        } else {
            let delay_ms = self.backoff.jittered_delay_ms(self.attempt, entropy);
            self.phase = ResolvePhase::BackingOff { delay_ms };
            self.attempt = self.attempt + 1;
            ResolveStep::Backoff { delay_ms }
        }
    }

    /// Handles the end of a backoff delay: the resolution reconnects, and
    /// one more reconnect is on record.
    pub fn on_backoff_elapsed(&mut self) -> (a: ResolveStep)
        requires
            old(self).phase is BackingOff,
            old(self).reconnects < u64::MAX,
        ensures
            a is Reconnect,
            final(self).target.dst@ == old(self).target.dst@,
            final(self).backoff == old(self).backoff,
            final(self).model() == elapse_step(old(self).model()),
    {
        self.phase = ResolvePhase::Active;
        self.reconnects = self.reconnects + 1;
        ResolveStep::Reconnect
    }
}

/// The resolver: the allow-list in front of the recovering discovery call.
#[derive(Debug)]
pub struct Resolve {
    pub permit: PermitConfiguredDsts,
    pub recover: BackoffUnlessInvalidArgument,
}

/// Builds a resolver from the configured suffixes, networks and backoff.
pub fn new(
    name_suffixes: Vec<Suffix>,
    networks: Vec<Network>,
    backoff: ExponentialBackoff,
) -> (r: Resolve)
    requires
        networks_wf(networks@),
    ensures
        r.permit.name_suffixes@ == name_suffixes@,
        r.permit.networks@ == networks@,
        r.permit.wf(),
        r.recover == BackoffUnlessInvalidArgument(backoff),
{
    Resolve {
        permit: PermitConfiguredDsts::new(name_suffixes, networks),
        recover: BackoffUnlessInvalidArgument(backoff),
    }
}

impl Resolve {
    /// Grants a resolution for a permitted target, or refuses at once.
    ///
    /// The allow-list is evaluated here, once per resolution request, and a
    /// target outside it gets no resolution: the underlying discovery call,
    /// which is only ever driven through a granted resolution, is never
    /// reached for such a target.
    pub fn resolve(&self, target: ConcreteTarget) -> (r: Result<Resolution, DiscoveryRejected>)
        requires
            self.permit.wf(),
        ensures
            self.permit.spec_permitted(target.dst@) ==> (r matches Ok(res)
                && res.target.dst@ == target.dst@
                && res.backoff == self.recover.0
                && res.phase is Active
                && res.model() == (RecoveryModel {
                    phase: ResolvePhase::Active,
                    attempt: 0,
                    reconnects: 0,
                })),
            !self.permit.spec_permitted(target.dst@) ==> (r matches Err(e)
                && e == DiscoveryRejected),
    {
        match self.permit.filter(target) {
            Ok(t) => Ok(Resolution {
                target: t,
                backoff: self.recover.0,
                phase: ResolvePhase::Active,
                attempt: 0,
                reconnects: 0,
            }),
            Err(e) => Err(e),
        }
    }
}

/// One transient failure per delay, each waited out and reconnected from.
pub open spec fn run_transients(m: RecoveryModel, delays: Seq<u64>) -> RecoveryModel
    decreases delays.len(),
{
    if delays.len() == 0 {
        m
    } else {
        elapse_step(fail_step(run_transients(m, delays.drop_last()), false, delays.last()))
    }
}

/// Recovery bounds retries to genuinely transient conditions and recovers
/// from all of them: after any sequence of transient failures, each waited
/// out, the resolution is active again and the number of reconnects on
/// record equals the number of failures; a terminal failure instead ends
/// the resolution immediately, with no reconnect and no backoff.
pub proof fn lemma_recovery_counts(m: RecoveryModel, delays: Seq<u64>, e: DiscoveryError)
    ensures
        run_transients(m, delays).phase is Active || (delays.len() == 0 && run_transients(
            m,
            delays,
        ) == m),
        run_transients(m, delays).reconnects == m.reconnects + delays.len(),
        run_transients(m, delays).attempt == m.attempt + delays.len(),
        is_terminal(e) ==> fail_step(run_transients(m, delays), true, 0).phase is Failed
            && fail_step(run_transients(m, delays), true, 0).reconnects == m.reconnects
                + delays.len(),
    decreases delays.len(),
{
    if delays.len() > 0 {
        lemma_recovery_counts(m, delays.drop_last(), e);
    }
}

} // verus!
