//! Decisions of the distribution pipeline.  A dedicated polling thread owns
//! the `Snapshot` and a `Distributor`; after every poll it hands the result
//! to `on_poll` and performs the returned action: publish the cached latest
//! frame to the fan-out channel, do nothing, or send every subscriber a
//! terminal close notification.  Once the distributor has stopped it never
//! publishes again.

use vstd::prelude::*;
use crate::errors::PollError;

verus! {

/// What the serving layer must do after the distributor handled an event.
#[derive(Debug, Clone, Copy, PartialEq, Eq, Structural)]
pub enum DistributorAction {
    /// Nothing to do: the poll was suppressed, or the pipeline has stopped.
    Idle,
    /// Publish the new latest frame to every subscriber.
    Publish,
    /// Send every subscriber a terminal close notification; no frame will
    /// ever be published again.
    CloseAll,
}

/// The shared distribution state: the cached latest frame and catalog that a
/// late subscriber receives on attach, and whether the pipeline has stopped
/// for good.
pub struct Distributor {
    /// Set once, by a failed poll or an external stop; never cleared.
    pub stopped: bool,
    /// The latest non-empty frame, for late subscribers.
    pub latest_frame: Vec<u8>,
    /// The latest catalog, for late subscribers.
    pub latest_catalog: Option<Vec<u8>>,
}

impl Distributor {
    /// Before the first poll: running, with nothing cached.
    pub fn new() -> (d: Distributor)
        ensures
            !d.stopped,
            d.latest_frame@.len() == 0,
            d.latest_catalog is None,
    {
        Distributor { stopped: false, latest_frame: Vec::new(), latest_catalog: None }
    }

    /// Handles one poll result: caches a non-empty frame and any catalog and
    /// asks for a publish; ignores a suppressed poll; stops permanently on
    /// any poll error.  After a stop every result is ignored.
    pub fn on_poll(&mut self, outcome: Result<(Vec<u8>, Option<Vec<u8>>), PollError>) -> (a:
        DistributorAction)
        ensures
            old(self).stopped ==> a == DistributorAction::Idle && *final(self) == *old(self),
            !old(self).stopped ==> (outcome matches Ok(p) ==> {
                &&& (p.0@.len() == 0 ==> a == DistributorAction::Idle && *final(self) == *old(
                    self,
                ))
                &&& (p.0@.len() > 0 ==> {
                    &&& a == DistributorAction::Publish
                    &&& !final(self).stopped
                    &&& final(self).latest_frame@ == p.0@
                    &&& (p.1 matches Some(c) ==> final(self).latest_catalog matches Some(d)
                        && d@ == c@)
                    &&& (p.1 is None ==> final(self).latest_catalog == old(
                        self,
                    ).latest_catalog)
                })
            }),
            !old(self).stopped && outcome is Err ==> {
                &&& a == DistributorAction::CloseAll
                &&& final(self).stopped
                &&& final(self).latest_frame == old(self).latest_frame
                &&& final(self).latest_catalog == old(self).latest_catalog
            },
    {
        if self.stopped {
            return DistributorAction::Idle;
        }
        match outcome {
            Ok((frame, cat)) => {
                if frame.len() == 0 {
                    DistributorAction::Idle
                } else {
                    self.latest_frame = frame;
                    match cat {
                        Some(c) => {
                            self.latest_catalog = Some(c);
                        },
                        None => {},
                    }
                    DistributorAction::Publish
                }
            },
            Err(_) => {
                self.stopped = true;
                DistributorAction::CloseAll
            },
        }
    }

    /// An external stop (interrupt or normal exit): the pipeline stops and
    /// every subscriber is told to close.
    pub fn on_stop(&mut self) -> (a: DistributorAction)
        ensures
            a == DistributorAction::CloseAll,
            final(self).stopped,
            final(self).latest_frame == old(self).latest_frame,
            final(self).latest_catalog == old(self).latest_catalog,
    {
        self.stopped = true;
        DistributorAction::CloseAll
    }

    /// The cached latest frame, for a late subscriber's first message.
    pub fn latest_frame(&self) -> (f: &Vec<u8>)
        ensures
            f@ == self.latest_frame@,
    {
        &self.latest_frame
    }

    /// The cached latest catalog.
    pub fn latest_catalog(&self) -> (c: &Option<Vec<u8>>)
        ensures
            *c == self.latest_catalog,
    {
        &self.latest_catalog
    }
}

} // verus!
