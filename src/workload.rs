//! The handle of a running workload: the command channel to its execution
//! task and the slot of its control interface.
use vstd::prelude::*;
use std::path::PathBuf;
use tokio::sync::mpsc::Sender;
use crate::objects::WorkloadSpec;

verus! {

/// Declares std's `PathBuf`, carried opaque from a control interface into an
/// update command.
#[verifier::external_type_specification]
#[verifier::external_body]
pub struct ExPathBuf(std::path::PathBuf);

/// Declares tokio's bounded `mpsc::Sender`, held by a handle and handed back
/// to the caller, who sends the commands on it.
#[verifier::external_type_specification]
#[verifier::external_body]
#[verifier::reject_recursive_types(T)]
pub struct ExSender<T>(tokio::sync::mpsc::Sender<T>);

/// A command for the execution task of a workload.
#[derive(Debug)]
pub enum WorkloadCommand {
    /// Release all runtime resources and exit.
    Stop,
    /// Reconcile the workload with the spec, using the control interface at
    /// the path if one is given.
    Update(Box<WorkloadSpec>, Option<PathBuf>),
}

/// Failure to hand a command to the execution task, with the reason.
#[derive(Debug, Clone, PartialEq, Eq)]
pub enum RuntimeError {
    Update(String),
    Delete(String),
}

impl WorkloadCommand {
    /// The error for this command when the channel refused it: a refused stop
    /// fails a delete, a refused update fails an update.
    pub fn failure(&self, reason: String) -> (e: RuntimeError)
        ensures
            e == (match self {
                WorkloadCommand::Stop => RuntimeError::Delete(reason),
                WorkloadCommand::Update(..) => RuntimeError::Update(reason),
            }),
    {
        match self {
            WorkloadCommand::Stop => RuntimeError::Delete(reason),
            WorkloadCommand::Update(..) => RuntimeError::Update(reason),
        }
    }
}

/// A live control interface granted to a running workload.
pub trait ControlInterface: Sized {
    /// Where the workload reaches the interface.
    fn get_api_location(&self) -> PathBuf;

    /// Asks the interface to stop relaying; does not wait for it.
    fn abort_pipes_channel_task(self);
}

/// What happened to the control-interface slot of a handle.
pub enum InterfaceEvent<C> {
    CancelRequested(C),
    Installed(C),
}

/// The events of replacing `current` with `next`: the current interface, if
/// any, is cancelled first; then the next one, if any, is installed.
pub open spec fn replacement_events<C>(current: Option<C>, next: Option<C>) -> Seq<
    InterfaceEvent<C>,
> {
    let cancelled = match current {
        Some(c) => seq![InterfaceEvent::CancelRequested(c)],
        None => Seq::empty(),
    };
    let installed = match next {
        Some(c) => seq![InterfaceEvent::Installed(c)],
        None => Seq::empty(),
    };
    cancelled + installed
}

/// The caller's handle on one workload's execution task. It owns the command
/// channel and at most one control interface.
pub struct Workload<C: ControlInterface> {
    channel: Sender<WorkloadCommand>,
    control_interface: Option<C>,
    history: Ghost<Seq<InterfaceEvent<C>>>,
}

impl<C: ControlInterface> Workload<C> {
    /// The installed control interface.
    pub closed spec fn installed(&self) -> Option<C> {
        self.control_interface
    }

    /// Every cancellation and installation on this handle, in order.
    pub closed spec fn history(&self) -> Seq<InterfaceEvent<C>> {
        self.history@
    }

    /// The command channel.
    pub closed spec fn channel_spec(&self) -> Sender<WorkloadCommand> {
        self.channel
    }

    /// A handle on `channel`, with `control_interface` installed.
    pub fn new(channel: Sender<WorkloadCommand>, control_interface: Option<C>) -> (r: Self)
        ensures
            r.channel_spec() == channel,
            r.installed() == control_interface,
            r.history() == replacement_events(None, control_interface),
    {
        Workload {
            channel,
            history: Ghost(replacement_events(None, control_interface)),
            control_interface,
        }
    }

    /// The channel on which this handle's commands are sent.
    pub fn channel(&self) -> (r: &Sender<WorkloadCommand>)
        ensures
            *r == self.channel_spec(),
    {
        &self.channel
    }

    /// Cancels the installed control interface, if any, and empties the slot.
    fn cancel_control_interface(&mut self)
        ensures
            final(self).installed() == None::<C>,
            final(self).history() == old(self).history() + replacement_events(
                old(self).installed(),
                None,
            ),
            final(self).channel_spec() == old(self).channel_spec(),
    {
        if let Some(control_interface) = self.control_interface.take() {
            let ghost cancelled = control_interface;
            control_interface.abort_pipes_channel_task();
            self.history = Ghost(self.history@.push(InterfaceEvent::CancelRequested(cancelled)));
        }
        assert(old(self).history() + replacement_events(old(self).installed(), None)
            =~= self.history@);
    }

    /// Replaces the control interface (the old one is cancelled before the new
    /// one is recorded) and returns the update command to send: it carries
    /// `spec`, and a path exactly when a new interface is given.
    pub fn update(&mut self, spec: WorkloadSpec, control_interface: Option<C>) -> (cmd:
        WorkloadCommand)
        ensures
            final(self).installed() == control_interface,
            final(self).history() == old(self).history() + replacement_events(
                old(self).installed(),
                control_interface,
            ),
            final(self).channel_spec() == old(self).channel_spec(),
            match cmd {
                WorkloadCommand::Update(s, path) => *s == spec && (path is Some
                    <==> control_interface is Some),
                WorkloadCommand::Stop => false,
            },
    {
        self.cancel_control_interface();
        let ghost next = control_interface;
        self.control_interface = control_interface;
        if let Some(c) = &self.control_interface {
            self.history = Ghost(self.history@.push(InterfaceEvent::Installed(*c)));
        }
        let control_interface_path = match &self.control_interface {
            Some(c) => Some(c.get_api_location()),
            None => None,
        };
        proof {
            assert(old(self).history() + replacement_events(old(self).installed(), next)
                =~= self.history@);
        }
        WorkloadCommand::Update(Box::new(spec), control_interface_path)
    }

    /// Consumes the handle: cancels the control interface, if any, and returns
    /// the channel with the stop command to send on it, and the handle's
    /// history closed by that cancellation.
    pub fn delete(self) -> (r: (
        Sender<WorkloadCommand>,
        WorkloadCommand,
        Ghost<Seq<InterfaceEvent<C>>>,
    ))
        ensures
            r.0 == self.channel_spec(),
            r.1 is Stop,
            r.2@ == self.history() + replacement_events(self.installed(), None),
    {
        let mut handle = self;
        handle.cancel_control_interface();
        (handle.channel, WorkloadCommand::Stop, handle.history)
    }
}

/// Two updates in a row, with `first` and then `second`: the handle records
/// the installation of `first`, then the cancellation of `first`, and only
/// after that the installation of `second`.
pub proof fn lemma_cancel_before_install<C>(
    history: Seq<InterfaceEvent<C>>,
    current: Option<C>,
    first: C,
    second: C,
)
    ensures
        ({
            let after_first = history + replacement_events(current, Some(first));
            let after_second = after_first + replacement_events(Some(first), Some(second));
            &&& after_first.last() == InterfaceEvent::Installed(first)
            &&& after_second == after_first + seq![
                InterfaceEvent::CancelRequested(first),
                InterfaceEvent::Installed(second),
            ]
        }),
{
    let after_first = history + replacement_events(current, Some(first));
    assert(replacement_events(Some(first), Some(second)) =~= seq![
        InterfaceEvent::CancelRequested(first),
        InterfaceEvent::Installed(second),
    ]);
    assert(after_first.last() == InterfaceEvent::Installed(first));
}

} // verus!
