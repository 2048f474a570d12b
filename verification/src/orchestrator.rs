//! The run itself, as a step machine: the caller performs each action
//! (resolve, save, fetch, update, notify) and reports what happened;
//! the machine decides every branch. Short-circuiting on an unchanged
//! outside address, dry runs and the notify-regardless ending are all
//! pinned by the step contracts.
use vstd::prelude::*;
use crate::ip::Ipv4;
use crate::state::Config;
use crate::resolver::ResolveError;
use crate::dns::DnsError;

verus! {

/// How a successful run ended.
#[derive(Clone, Copy, Debug, PartialEq, Eq, Structural)]
pub enum Outcome {
    /// The outside address equals the persisted one; nothing was asked
    /// of the provider.
    UnchangedOutside,
    /// The provider's record already holds the outside address.
    AlreadyCurrent,
    /// An update was due but withheld: dry run.
    DryRun,
    /// The record was updated.
    Updated,
}

/// What aborted a run.
#[derive(Clone, Debug, PartialEq, Eq)]
pub enum RunError {
    Resolve(ResolveError),
    Dns(DnsError),
    /// Writing the state file failed.
    SaveFailed,
}

/// Where the run stands.
#[derive(Clone, Debug, PartialEq, Eq)]
pub enum Phase {
    Resolving,
    SavingOutside,
    Fetching,
    Updating,
    SavingProvider,
    Notifying,
    Done(Outcome),
    Failed,
}

/// What the caller is asked to do next.
#[derive(Clone, Debug, PartialEq, Eq)]
pub enum Action {
    /// Write the serialized configuration to the state file.
    SaveState,
    /// Fetch the domain's record list from the provider.
    FetchRecord,
    /// Send the update call carrying this address.
    UpdateRecord { ip: Ipv4 },
    /// Post the webhook message.
    Notify,
    /// Stop: the run succeeded.
    Finish(Outcome),
    /// Stop: the run failed.
    Abort(RunError),
}

/// One run's state: the configuration as it evolves, the inputs fixed
/// at start, the address resolved, and the phase.
pub struct Orchestrator {
    pub config: Config,
    pub domain: String,
    pub dry_run: bool,
    pub resolved: Option<Ipv4>,
    pub phase: Phase,
}

impl Orchestrator {
    /// A run about to resolve the outside address.
    pub fn start(config: Config, domain: String, dry_run: bool) -> (r: Orchestrator)
        ensures
            r.config == config,
            r.domain == domain,
            r.dry_run == dry_run,
            r.resolved is None,
            r.phase == Phase::Resolving,
    {
        Orchestrator { config, domain, dry_run, resolved: None, phase: Phase::Resolving }
    }

    /// Takes the resolver's outcome. A failure aborts. An address equal
    /// to the persisted outside address ends the run at once, unchanged:
    /// no fetch, no update, no save. A new address is recorded in the
    /// configuration, which is then saved.
    pub fn on_resolved(&mut self, res: Result<Ipv4, ResolveError>) -> (a: Action)
        requires
            old(self).phase == Phase::Resolving,
        ensures
            final(self).domain == old(self).domain,
            final(self).dry_run == old(self).dry_run,
            match res {
                Err(e) => {
                    &&& final(self).phase == Phase::Failed
                    &&& a == Action::Abort(RunError::Resolve(e))
                    &&& final(self).config == old(self).config
                },
                Ok(ip) => if old(self).config.outside_ip == Some(ip) {
                    &&& final(self).phase == Phase::Done(Outcome::UnchangedOutside)
                    &&& a == Action::Finish(Outcome::UnchangedOutside)
                    &&& final(self).config == old(self).config
                } else {
                    &&& final(self).phase == Phase::SavingOutside
                    &&& a == Action::SaveState
                    &&& final(self).resolved == Some(ip)
                    &&& final(self).config == Config {
                        outside_ip: Some(ip),
                        ..old(self).config
                    }
                },
            },
    {
        match res {
            Err(e) => {
                self.phase = Phase::Failed;
                Action::Abort(RunError::Resolve(e))
            },
            Ok(ip) => {
                let unchanged = match &self.config.outside_ip {
                    Some(prev) => *prev == ip,
                    None => false,
                };
                if unchanged {
                    self.phase = Phase::Done(Outcome::UnchangedOutside);
                    Action::Finish(Outcome::UnchangedOutside)
                } else {
                    self.config.outside_ip = Some(ip);
                    self.resolved = Some(ip);
                    self.phase = Phase::SavingOutside;
                    Action::SaveState
                }
            },
        }
    }

    /// Takes the result of writing the state file. A failed write is
    /// fatal. After the first save the record is fetched; after the
    /// save that follows an update, the webhook is notified when one is
    /// configured, else the run is done.
    pub fn on_state_saved(&mut self, ok: bool) -> (a: Action)
        requires
            old(self).phase == Phase::SavingOutside || old(self).phase == Phase::SavingProvider,
        ensures
            final(self).config == old(self).config,
            final(self).domain == old(self).domain,
            final(self).dry_run == old(self).dry_run,
            final(self).resolved == old(self).resolved,
            !ok ==> final(self).phase == Phase::Failed && a == Action::Abort(
                RunError::SaveFailed,
            ),
            ok && old(self).phase == Phase::SavingOutside ==> final(self).phase
                == Phase::Fetching && a == Action::FetchRecord,
            ok && old(self).phase == Phase::SavingProvider ==> match old(
                self,
            ).config.webhook_url {
                Some(_) => final(self).phase == Phase::Notifying && a == Action::Notify,
                None => final(self).phase == Phase::Done(Outcome::Updated) && a
                    == Action::Finish(Outcome::Updated),
            },
    {
        if !ok {
            self.phase = Phase::Failed;
            return Action::Abort(RunError::SaveFailed);
        }
        let after_outside = match &self.phase {
            Phase::SavingOutside => true,
            _ => false,
        };
        if after_outside {
            self.phase = Phase::Fetching;
            Action::FetchRecord
        } else {
            match &self.config.webhook_url {
                Some(_) => {
                    self.phase = Phase::Notifying;
                    Action::Notify
                },
                None => {
                    self.phase = Phase::Done(Outcome::Updated);
                    Action::Finish(Outcome::Updated)
                },
            }
        }
    }

    /// Takes the provider's current record content. A failure aborts.
    /// A record already holding the resolved address ends the run; a
    /// differing one leads to the update, withheld in a dry run with
    /// the configuration untouched.
    pub fn on_record(&mut self, res: Result<Ipv4, DnsError>) -> (a: Action)
        requires
            old(self).phase == Phase::Fetching,
            old(self).resolved is Some,
        ensures
            final(self).config == old(self).config,
            final(self).domain == old(self).domain,
            final(self).dry_run == old(self).dry_run,
            final(self).resolved == old(self).resolved,
            match res {
                Err(e) => final(self).phase == Phase::Failed && a == Action::Abort(
                    RunError::Dns(e),
                ),
                Ok(provider_ip) => {
                    let ip = old(self).resolved->Some_0;
                    if provider_ip == ip {
                        final(self).phase == Phase::Done(Outcome::AlreadyCurrent) && a
                            == Action::Finish(Outcome::AlreadyCurrent)
                    } else if old(self).dry_run {
                        final(self).phase == Phase::Done(Outcome::DryRun) && a
                            == Action::Finish(Outcome::DryRun)
                    } else {
                        final(self).phase == Phase::Updating && a == Action::UpdateRecord { ip }
                    }
                },
            },
    {
        match res {
            Err(e) => {
                self.phase = Phase::Failed;
                Action::Abort(RunError::Dns(e))
            },
            Ok(provider_ip) => {
                let ip = self.resolved.unwrap();
                if provider_ip == ip {
                    self.phase = Phase::Done(Outcome::AlreadyCurrent);
                    Action::Finish(Outcome::AlreadyCurrent)
                } else if self.dry_run {
                    self.phase = Phase::Done(Outcome::DryRun);
                    Action::Finish(Outcome::DryRun)
                } else {
                    self.phase = Phase::Updating;
                    Action::UpdateRecord { ip }
                }
            },
        }
    }

    /// Takes the provider's answer to the update. A refusal aborts,
    /// carrying the provider's words. Success records the new provider
    /// address in the configuration, which is then saved.
    pub fn on_updated(&mut self, res: Result<(), DnsError>) -> (a: Action)
        requires
            old(self).phase == Phase::Updating,
            old(self).resolved is Some,
        ensures
            final(self).domain == old(self).domain,
            final(self).dry_run == old(self).dry_run,
            final(self).resolved == old(self).resolved,
            match res {
                Err(e) => {
                    &&& final(self).phase == Phase::Failed
                    &&& a == Action::Abort(RunError::Dns(e))
                    &&& final(self).config == old(self).config
                },
                Ok(_) => {
                    &&& final(self).phase == Phase::SavingProvider
                    &&& a == Action::SaveState
                    &&& final(self).config == Config {
                        cloudflare_ip: Some(old(self).resolved->Some_0),
                        ..old(self).config
                    }
                },
            },
    {
        match res {
            Err(e) => {
                self.phase = Phase::Failed;
                Action::Abort(RunError::Dns(e))
            },
            Ok(_) => {
                let ip = self.resolved.unwrap();
                self.config.cloudflare_ip = Some(ip);
                self.phase = Phase::SavingProvider;
                Action::SaveState
            },
        }
    }

    /// Takes the webhook delivery report. Delivery is best effort: the
    /// run ends updated whether or not the message arrived.
    pub fn on_notified(&mut self, _delivered: bool) -> (a: Action)
        requires
            old(self).phase == Phase::Notifying,
        ensures
            final(self).config == old(self).config,
            final(self).domain == old(self).domain,
            final(self).dry_run == old(self).dry_run,
            final(self).resolved == old(self).resolved,
            final(self).phase == Phase::Done(Outcome::Updated),
            a == Action::Finish(Outcome::Updated),
    {
        self.phase = Phase::Done(Outcome::Updated);
        Action::Finish(Outcome::Updated)
    }
}

} // verus!
