//! Making a stereo hop through the CLI backend: check whether it is already
//! live, run `pw-link` on its port pairs (two tries), verify against the
//! native registry when that is up, and fall back to a Pulse
//! `module-loopback` only when the registry is down or the escape hatch
//! allows it (never for FX sinks). The caller performs each action and
//! reports what came of it.
use vstd::prelude::*;

use crate::backend::touches_fx;
use crate::text::{concat, concat3, opt_view, own};

verus! {

/// Where a link request stands.
#[derive(Debug, Clone, Copy, PartialEq, Eq, Structural)]
pub enum LinkStage {
    /// Waiting for the report of `Check`.
    Check,
    /// Waiting for the outcome of a `pw-link` run.
    Trying,
    /// Waiting for the live check after a `pw-link` run took.
    Verifying,
    /// Waiting for the outcome of the Pulse loopback load.
    Loading,
    /// Done.
    Finished,
}

/// What the caller does next.
#[derive(Debug, PartialEq, Eq)]
pub enum LinkAction {
    /// Report whether the hop is live in the native registry (when it is
    /// up), whether a Pulse loopback for it is loaded, and whether
    /// `pw-link -l` shows it live.
    Check,
    /// Force-unload the hop's Pulse loopbacks (and, when `unlink`, remove the
    /// hop), then run `pw-link` on its port pairs.
    Clear { unlink: bool },
    /// Run `pw-link` on the hop's port pairs (after a 25 ms pause when `pause`).
    Try { pause: bool },
    /// Record the hop as owned, drop the CLI probe caches, and report whether
    /// the hop is live in the native registry (now, or after a 15 ms beat in
    /// the registry or by `pw-link -l`).
    RecordThenVerify,
    /// Load a Pulse `module-loopback` for the hop; `reason` is why `pw-link`
    /// did not do.
    LoadLoopback { reason: String },
    /// Success; record the hop as owned when `record`, and drop the CLI
    /// probe caches when `invalidate`.
    Succeed { record: bool, invalidate: bool },
    /// Failure with this message.
    Fail(String),
}

/// What an action says, as character sequences.
pub enum ActionView {
    Check,
    Clear(bool),
    Try(bool),
    RecordThenVerify,
    LoadLoopback(Seq<char>),
    Succeed(bool, bool),
    Fail(Seq<char>),
}

pub open spec fn action_view(a: LinkAction) -> ActionView {
    match a {
        LinkAction::Check => ActionView::Check,
        LinkAction::Clear { unlink } => ActionView::Clear(unlink),
        LinkAction::Try { pause } => ActionView::Try(pause),
        LinkAction::RecordThenVerify => ActionView::RecordThenVerify,
        LinkAction::LoadLoopback { reason } => ActionView::LoadLoopback(reason@),
        LinkAction::Succeed { record, invalidate } => ActionView::Succeed(record, invalidate),
        LinkAction::Fail(m) => ActionView::Fail(m@),
    }
}

/// A link request for the hop `source → sink`.
#[derive(Debug)]
pub struct CliLink {
    pub source: String,
    pub sink: String,
    /// The native registry was up when the request started.
    pub native_up: bool,
    /// The Pulse escape hatch (`BUSCHAIN_ALLOW_PULSE_CAPTURE`) is set.
    pub pulse_escape: bool,
    pub stage: LinkStage,
    /// `pw-link` runs so far.
    pub tries: u32,
    /// Why the last run did not make a live hop.
    pub last_err: Option<String>,
    /// The caller was told to record the hop as BusChain-owned.
    pub recorded: bool,
}

impl CliLink {
    /// A request waiting on its live check has had the hop recorded.
    pub open spec fn inv(&self) -> bool {
        self.stage == LinkStage::Verifying ==> self.recorded
    }

    /// Ownership across a step: once recorded, a hop stays recorded, and no
    /// step ends in success (or waits on a live check) without the hop
    /// having been recorded.
    pub open spec fn owns_on_success(&self, next: &CliLink, a: LinkAction) -> bool {
        &&& self.recorded ==> next.recorded
        &&& (action_view(a) is Succeed || action_view(a) is RecordThenVerify) ==> next.recorded
        &&& next.inv()
    }
}

/// The message when `pw-link` succeeded but the hop is not live.
pub open spec fn not_live_msg(source: Seq<char>, sink: Seq<char>) -> Seq<char> {
    "pw-link reported ok but hop not live "@ + source + "→"@ + sink
}

/// Where the request goes after the second failed run: fail for FX sinks
/// and when Pulse is demoted (registry up, no escape hatch), else load a
/// Pulse loopback.
pub open spec fn fallthrough(
    source: Seq<char>,
    sink: Seq<char>,
    native_up: bool,
    pulse_escape: bool,
    last_err: Option<Seq<char>>,
) -> (LinkStage, ActionView) {
    if touches_fx(source, sink) {
        (LinkStage::Finished, ActionView::Fail(match last_err {
            Some(e) => e,
            None => "pw-link ports not ready for host FX `"@ + source + "` → `"@ + sink + "`"@,
        }))
    } else if native_up && !pulse_escape {
        (LinkStage::Finished, ActionView::Fail(match last_err {
            Some(e) => e,
            None => "native capture hop failed "@ + source + "→"@ + sink + " (Pulse demoted)"@,
        }))
    } else {
        (LinkStage::Loading, ActionView::LoadLoopback(match last_err {
            Some(e) => e,
            None => "pw-link failed"@,
        }))
    }
}

/// What the report of `Check` leads to.
pub open spec fn check_outcome(native_up: bool, native_live: bool, pulse_exists: bool, cli_live: bool) -> (
    LinkStage,
    ActionView,
) {
    if native_up {
        if native_live {
            (LinkStage::Finished, ActionView::Succeed(true, false))
        } else if pulse_exists {
            (LinkStage::Trying, ActionView::Clear(false))
        } else {
            (LinkStage::Trying, ActionView::Try(false))
        }
    } else if pulse_exists || cli_live {
        (LinkStage::Finished, ActionView::Succeed(true, false))
    } else {
        (LinkStage::Trying, ActionView::Clear(false))
    }
}

/// With the native registry up, only a hop the registry shows live counts
/// as already made: a loaded Pulse loopback or a `pw-link -l` line alone
/// never ends the request in success.
pub proof fn law_registry_decides_liveness(pulse_exists: bool, cli_live: bool)
    ensures
        !(check_outcome(true, false, pulse_exists, cli_live).1 is Succeed),
        check_outcome(true, false, pulse_exists, cli_live).0 == LinkStage::Trying,
{
}

/// After the runs fail, an FX hop fails outright and, with the registry up
/// and no escape hatch, so does any hop: only otherwise is a Pulse loopback
/// loaded.
pub proof fn law_pulse_fallback_only_when_allowed(
    source: Seq<char>,
    sink: Seq<char>,
    native_up: bool,
    pulse_escape: bool,
    last_err: Option<Seq<char>>,
)
    ensures
        (fallthrough(source, sink, native_up, pulse_escape, last_err).1 is LoadLoopback) <==> (!touches_fx(
            source,
            sink,
        ) && (!native_up || pulse_escape)),
        touches_fx(source, sink) ==> fallthrough(source, sink, native_up, pulse_escape, last_err).1 is Fail,
{
}

/// The request's identity is kept across a step.
pub open spec fn same_request(a: CliLink, b: CliLink) -> bool {
    &&& a.source@ == b.source@
    &&& a.sink@ == b.sink@
    &&& a.native_up == b.native_up
    &&& a.pulse_escape == b.pulse_escape
}

fn start(source: &str, sink: &str, native_up: bool, pulse_escape: bool, force: bool) -> (r: (CliLink, LinkAction))
    ensures
        r.0.source@ == source@,
        r.0.sink@ == sink@,
        r.0.native_up == native_up,
        r.0.pulse_escape == pulse_escape,
        r.0.tries == 0,
        r.0.last_err is None,
        !r.0.recorded,
        force ==> r.0.stage == LinkStage::Trying && action_view(r.1) == ActionView::Clear(true),
        !force ==> r.0.stage == LinkStage::Check && action_view(r.1) == ActionView::Check,
{
    let link = CliLink {
        source: own(source),
        sink: own(sink),
        native_up,
        pulse_escape,
        stage: if force {
            LinkStage::Trying
        } else {
            LinkStage::Check
        },
        tries: 0,
        last_err: None,
        recorded: false,
    };
    if force {
        (link, LinkAction::Clear { unlink: true })
    } else {
        (link, LinkAction::Check)
    }
}

/// Ensure a stereo link for `source → sink` through the CLI backend:
/// `native_up` says whether the native registry is up (then a Pulse module
/// alone never counts as success), `pulse_escape` whether the Pulse escape
/// hatch is set. Starts with a check of what is live.
pub fn ensure_link(source: &str, sink: &str, native_up: bool, pulse_escape: bool) -> (r: (CliLink, LinkAction))
    ensures
        r.0.source@ == source@,
        r.0.sink@ == sink@,
        r.0.native_up == native_up,
        r.0.pulse_escape == pulse_escape,
        r.0.tries == 0,
        r.0.last_err is None,
        !r.0.recorded,
        r.0.stage == LinkStage::Check,
        action_view(r.1) == ActionView::Check,
{
    start(source, sink, native_up, pulse_escape, false)
}

/// Force-recreate the hop (Add after mute): tear down any stale hop first,
/// then run `pw-link`.
pub fn ensure_link_force(source: &str, sink: &str, native_up: bool, pulse_escape: bool) -> (r: (CliLink, LinkAction))
    ensures
        r.0.source@ == source@,
        r.0.sink@ == sink@,
        r.0.native_up == native_up,
        r.0.pulse_escape == pulse_escape,
        r.0.tries == 0,
        r.0.last_err is None,
        !r.0.recorded,
        r.0.stage == LinkStage::Trying,
        action_view(r.1) == ActionView::Clear(true),
{
    start(source, sink, native_up, pulse_escape, true)
}

impl CliLink {
    fn fall_through(&mut self) -> (r: LinkAction)
        ensures
            same_request(*final(self), *old(self)),
            final(self).recorded == old(self).recorded,
            final(self).tries == old(self).tries,
            opt_view(final(self).last_err) == opt_view(old(self).last_err),
            (final(self).stage, action_view(r)) == fallthrough(
                old(self).source@,
                old(self).sink@,
                old(self).native_up,
                old(self).pulse_escape,
                opt_view(old(self).last_err),
            ),
    {
        let dst = crate::text::drop_suffix(self.sink.as_str(), ".monitor");
        let src = crate::text::drop_suffix(self.source.as_str(), ".monitor");
        let fx = crate::text::starts_with(dst.as_str(), "buschain_fx_") || crate::text::starts_with(
            src.as_str(),
            "buschain_fx_",
        );
        if fx {
            self.stage = LinkStage::Finished;
            return match &self.last_err {
                Some(e) => LinkAction::Fail(own(e.as_str())),
                None => {
                    let a = concat3("pw-link ports not ready for host FX `", self.source.as_str(), "` → `");
                    LinkAction::Fail(concat3(a.as_str(), self.sink.as_str(), "`"))
                },
            };
        }
        if self.native_up && !self.pulse_escape {
            self.stage = LinkStage::Finished;
            return match &self.last_err {
                Some(e) => LinkAction::Fail(own(e.as_str())),
                None => {
                    let a = concat3("native capture hop failed ", self.source.as_str(), "→");
                    LinkAction::Fail(concat3(a.as_str(), self.sink.as_str(), " (Pulse demoted)"))
                },
            };
        }
        self.stage = LinkStage::Loading;
        match &self.last_err {
            Some(e) => LinkAction::LoadLoopback { reason: own(e.as_str()) },
            None => LinkAction::LoadLoopback { reason: own("pw-link failed") },
        }
    }

    /// The report of `Check`: with the registry up only a registry-live hop
    /// is already done (a Pulse module alone is a stale ghost to unload);
    /// with it down a Pulse module or a live `pw-link -l` hop counts, and
    /// otherwise any leftover loopback is unloaded before `pw-link` runs.
    pub fn checked(&mut self, native_live: bool, pulse_exists: bool, cli_live: bool) -> (r: LinkAction)
        requires
            old(self).stage == LinkStage::Check,
        ensures
            same_request(*final(self), *old(self)),
            old(self).owns_on_success(&*final(self), r),
            final(self).tries == old(self).tries,
            opt_view(final(self).last_err) == opt_view(old(self).last_err),
            (final(self).stage, action_view(r)) == check_outcome(old(self).native_up, native_live, pulse_exists, cli_live),
    {
        if self.native_up {
            if native_live {
                self.stage = LinkStage::Finished;
                self.recorded = true;
                return LinkAction::Succeed { record: true, invalidate: false };
            }
            self.stage = LinkStage::Trying;
            if pulse_exists {
                return LinkAction::Clear { unlink: false };
            }
            return LinkAction::Try { pause: false };
        }
        if pulse_exists || cli_live {
            self.stage = LinkStage::Finished;
            self.recorded = true;
            return LinkAction::Succeed { record: true, invalidate: false };
        }
        self.stage = LinkStage::Trying;
        LinkAction::Clear { unlink: false }
    }

    /// The outcome of a `pw-link` run (`Err` carries its message). A run
    /// that took is recorded and, with the registry up, verified; a failed
    /// run is retried once after a pause, then the request falls through.
    pub fn tried(&mut self, outcome: Result<(), String>) -> (r: LinkAction)
        requires
            old(self).stage == LinkStage::Trying,
            old(self).tries < 2,
        ensures
            same_request(*final(self), *old(self)),
            old(self).owns_on_success(&*final(self), r),
            final(self).tries == old(self).tries + 1,
            match outcome {
                Ok(()) => opt_view(final(self).last_err) == opt_view(old(self).last_err) && if old(self).native_up {
                    final(self).stage == LinkStage::Verifying && action_view(r) == ActionView::RecordThenVerify
                } else {
                    final(self).stage == LinkStage::Finished && action_view(r) == ActionView::Succeed(true, true)
                },
                Err(e) => opt_view(final(self).last_err) == Some(e@) && if old(self).tries + 1 < 2 {
                    final(self).stage == LinkStage::Trying && action_view(r) == ActionView::Try(true)
                } else {
                    (final(self).stage, action_view(r)) == fallthrough(
                        old(self).source@,
                        old(self).sink@,
                        old(self).native_up,
                        old(self).pulse_escape,
                        Some(e@),
                    )
                },
            },
    {
        self.tries = self.tries + 1;
        match outcome {
            Ok(()) => {
                self.recorded = true;
                if self.native_up {
                    self.stage = LinkStage::Verifying;
                    LinkAction::RecordThenVerify
                } else {
                    self.stage = LinkStage::Finished;
                    LinkAction::Succeed { record: true, invalidate: true }
                }
            },
            Err(e) => {
                self.last_err = Some(e);
                if self.tries < 2 {
                    LinkAction::Try { pause: true }
                } else {
                    self.fall_through()
                }
            },
        }
    }

    /// Whether the hop showed live after a run took: done if so; otherwise
    /// the run counts as failed ("reported ok but not live") and the next
    /// run follows at once, or the request falls through.
    pub fn verified(&mut self, live: bool) -> (r: LinkAction)
        requires
            old(self).stage == LinkStage::Verifying,
            old(self).inv(),
        ensures
            same_request(*final(self), *old(self)),
            old(self).owns_on_success(&*final(self), r),
            final(self).tries == old(self).tries,
            live ==> final(self).stage == LinkStage::Finished && action_view(r) == ActionView::Succeed(false, false)
                && opt_view(final(self).last_err) == opt_view(old(self).last_err),
            !live ==> opt_view(final(self).last_err) == Some(not_live_msg(old(self).source@, old(self).sink@)) && if old(
                self,
            ).tries < 2 {
                final(self).stage == LinkStage::Trying && action_view(r) == ActionView::Try(false)
            } else {
                (final(self).stage, action_view(r)) == fallthrough(
                    old(self).source@,
                    old(self).sink@,
                    old(self).native_up,
                    old(self).pulse_escape,
                    Some(not_live_msg(old(self).source@, old(self).sink@)),
                )
            },
    {
        if live {
            self.stage = LinkStage::Finished;
            return LinkAction::Succeed { record: false, invalidate: false };
        }
        let a = concat3("pw-link reported ok but hop not live ", self.source.as_str(), "→");
        self.last_err = Some(concat(a.as_str(), self.sink.as_str()));
        if self.tries < 2 {
            self.stage = LinkStage::Trying;
            return LinkAction::Try { pause: false };
        }
        self.fall_through()
    }

    /// The outcome of the Pulse loopback load: recorded on success; on
    /// failure the error joins the last `pw-link` error.
    pub fn loaded(&mut self, outcome: Result<(), String>) -> (r: LinkAction)
        requires
            old(self).stage == LinkStage::Loading,
        ensures
            same_request(*final(self), *old(self)),
            old(self).owns_on_success(&*final(self), r),
            final(self).tries == old(self).tries,
            opt_view(final(self).last_err) == opt_view(old(self).last_err),
            final(self).stage == LinkStage::Finished,
            match outcome {
                Ok(()) => action_view(r) == ActionView::Succeed(true, false),
                Err(e) => action_view(r) == ActionView::Fail(match opt_view(old(self).last_err) {
                    Some(pe) => pe + "; pulse fallback: "@ + e@,
                    None => e@,
                }),
            },
    {
        self.stage = LinkStage::Finished;
        match outcome {
            Ok(()) => {
                self.recorded = true;
                LinkAction::Succeed { record: true, invalidate: false }
            },
            Err(e) => match &self.last_err {
                Some(pe) => LinkAction::Fail(concat3(pe.as_str(), "; pulse fallback: ", e.as_str())),
                None => LinkAction::Fail(e),
            },
        }
    }
}

/// Ownership over a whole link request: along any run of the request's
/// steps (each step's before / after states and its action, as the steps
/// ensure), once a step ends in success the hop is recorded as owned in
/// that state and in every later one, whichever path got there (already
/// live, made by `pw-link`, or the Pulse loopback fallback).
pub proof fn law_success_records_hop(states: Seq<CliLink>, actions: Seq<LinkAction>)
    requires
        states.len() == actions.len() + 1,
        forall|i: int| 0 <= i < actions.len() ==> states[i].owns_on_success(&states[i + 1], #[trigger] actions[i]),
    ensures
        forall|i: int, j: int|
            0 <= i < actions.len() && i < j < states.len() && (action_view(#[trigger] actions[i]) is Succeed)
                ==> (#[trigger] states[j]).recorded,
{
    assert forall|i: int, j: int|
        0 <= i < actions.len() && i < j < states.len() && (action_view(#[trigger] actions[i]) is Succeed) implies (#[trigger] states[j]).recorded by {
        lemma_recorded_stays(states, actions, i + 1, j);
    }
}

proof fn lemma_recorded_stays(states: Seq<CliLink>, actions: Seq<LinkAction>, a: int, b: int)
    requires
        states.len() == actions.len() + 1,
        forall|i: int| 0 <= i < actions.len() ==> states[i].owns_on_success(&states[i + 1], #[trigger] actions[i]),
        1 <= a <= b < states.len(),
        action_view(actions[a - 1]) is Succeed,
    ensures
        states[b].recorded,
    decreases b - a,
{
    let x = actions[a - 1];
    assert(states[a - 1].owns_on_success(&states[a - 1 + 1], x));
    if a < b {
        lemma_recorded_stays(states, actions, a, b - 1);
        let y = actions[b - 1];
        assert(states[b - 1].owns_on_success(&states[b - 1 + 1], y));
    }
}

} // verus!
