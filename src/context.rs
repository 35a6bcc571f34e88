//! The life of one evaluation: a fresh engine instance gets the call's
//! bindings as globals, compiles and runs the script, and hands back the
//! decoded completion value or the error that stopped it. The engine work is
//! done by the caller, which performs each `Action` and reports the outcome
//! as an `Event`; every decision is taken here.
use crate::decode::{decodable, decode, decodes, texts_known, value_fits};
use crate::encode::{encodable, encode_entries, encodes, entries_fit, entries_named};
use crate::term::{key_name, ConversionDetail, Direction, BridgeError, EngineValue, HostTerm};
use vstd::prelude::*;

verus! {

/// How many levels of nesting a conversion descends before it gives up.
pub const MAX_DEPTH: usize = 128;

/// Where an evaluation stands. The phases follow one another in this order,
/// except that `Failed` can follow any phase before the scope is released.
#[derive(Clone, Copy, Debug, PartialEq, Eq, Structural)]
pub enum Phase {
    /// The engine instance exists; its globals are being set.
    Created,
    /// Every binding is a global of the instance.
    BindingsInjected,
    /// The script text compiled.
    Compiled,
    /// The script ran and its completion value was decoded.
    Decoded,
    /// The evaluation stopped with an error.
    Failed,
    /// The scope and the engine instance were released.
    Closed,
}

/// What the caller reports back after performing an action.
#[derive(Debug, PartialEq)]
pub enum Event {
    /// All globals were set.
    Injected,
    /// The engine could not create a global's name.
    InjectionRefused,
    /// The script compiled.
    CompileSucceeded,
    /// The script did not compile; the engine's diagnostic.
    CompileFailed(String),
    /// The script ran to completion with this value.
    Completed(EngineValue),
    /// The script threw; the text form of the thrown value.
    Threw(String),
    /// The scope and engine instance were released.
    Released,
}

/// What the caller is to do next.
#[derive(Debug, PartialEq)]
pub enum Action {
    /// Set each named value as a property of the global object.
    Inject(Vec<(String, EngineValue)>),
    /// Compile the script text.
    Compile,
    /// Run the compiled script.
    Run,
    /// Release the scope and the engine instance.
    Release,
    /// Hand the outcome to the host.
    Deliver,
    /// The event does not fit the phase; nothing is to be done.
    Ignore,
}

/// One evaluation in progress.
#[derive(Debug, PartialEq)]
pub struct Evaluation {
    pub phase: Phase,
    /// The result, once the evaluation has decoded a value or failed.
    pub outcome: Option<Result<HostTerm, BridgeError>>,
}

/// `globals` are the bindings, each named by its key's text and encoded.
pub open spec fn binds(bindings: Seq<(HostTerm, HostTerm)>, globals: Seq<(String, EngineValue)>) -> bool {
    globals.len() == bindings.len() && forall|j: int|
        #![trigger bindings[j]]
        0 <= j < bindings.len() ==> key_name(bindings[j].0) == Some(globals[j].0@)
            && encodable(bindings[j].1, MAX_DEPTH as nat) && encodes(
            bindings[j].1,
            globals[j].1,
            MAX_DEPTH as nat,
        )
}

/// Every binding has a key with a text form and a value that can be encoded.
pub open spec fn bindings_ok(bindings: Seq<(HostTerm, HostTerm)>) -> bool {
    forall|j: int|
        #![trigger bindings[j]]
        0 <= j < bindings.len() ==> key_name(bindings[j].0) is Some && encodable(
            bindings[j].1,
            MAX_DEPTH as nat,
        )
}

impl Evaluation {
    /// The outcome matches the phase: none before the script's value is
    /// decoded or the evaluation fails, a value once decoded, an error once
    /// failed, and one or the other once closed.
    pub open spec fn wf(&self) -> bool {
        match self.phase {
            Phase::Created | Phase::BindingsInjected | Phase::Compiled => self.outcome is None,
            Phase::Decoded => self.outcome is Some && self.outcome->Some_0 is Ok,
            Phase::Failed => self.outcome is Some && self.outcome->Some_0 is Err,
            Phase::Closed => self.outcome is Some,
        }
    }

    /// Starts an evaluation with the call's bindings: either the globals to
    /// inject, or, where a binding cannot be encoded, a failed evaluation and
    /// the release of the scope.
    pub fn start(bindings: &Vec<(HostTerm, HostTerm)>) -> (r: (Evaluation, Action))
        ensures
            r.0.wf(),
            bindings_ok(bindings@) ==> r.0.phase == Phase::Created && r.0.outcome is None
                && r.1 is Inject && binds(bindings@, r.1->Inject_0@),
            !bindings_ok(bindings@) ==> r.0.phase == Phase::Failed && r.1 is Release
                && r.0.outcome is Some && r.0.outcome->Some_0 is Err && {
                let e = r.0.outcome->Some_0->Err_0;
                (e == BridgeError::DepthExceeded && !entries_fit(bindings@, MAX_DEPTH as nat)) || (e
                    == BridgeError::Conversion(Direction::Encode, ConversionDetail::UnnamedKey)
                    && !entries_named(bindings@, MAX_DEPTH as nat))
            },
    {
        match encode_entries(bindings, MAX_DEPTH) {
            Ok(globals) => {
                (Evaluation { phase: Phase::Created, outcome: None }, Action::Inject(globals))
            },
            Err(e) => (Evaluation { phase: Phase::Failed, outcome: Some(Err(e)) }, Action::Release),
        }
    }

    /// Takes the evaluation one step on from what the caller reports.
    pub fn step(&mut self, event: Event) -> (a: Action)
        requires
            old(self).wf(),
        ensures
            final(self).wf(),
            match (old(self).phase, event) {
                (Phase::Created, Event::Injected) => final(self).phase == Phase::BindingsInjected
                    && final(self).outcome == old(self).outcome && a is Compile,
                (Phase::Created, Event::InjectionRefused) => final(self).phase == Phase::Failed
                    && final(self).outcome == Some(
                    Err::<HostTerm, BridgeError>(
                        BridgeError::Conversion(Direction::Encode, ConversionDetail::CreationRefused),
                    ),
                ) && a is Release,
                (Phase::BindingsInjected, Event::CompileSucceeded) => final(self).phase
                    == Phase::Compiled && final(self).outcome == old(self).outcome && a is Run,
                (Phase::BindingsInjected, Event::CompileFailed(d)) => final(self).phase
                    == Phase::Failed && final(self).outcome == Some(
                    Err::<HostTerm, BridgeError>(BridgeError::Compile(d)),
                ) && a is Release,
                (Phase::Compiled, Event::Threw(d)) => final(self).phase == Phase::Failed
                    && final(self).outcome == Some(
                    Err::<HostTerm, BridgeError>(BridgeError::RuntimeExecution(d)),
                ) && a is Release,
                (Phase::Compiled, Event::Completed(v)) => a is Release && final(self).outcome is Some
                    && if decodable(v, MAX_DEPTH as nat) {
                    final(self).phase == Phase::Decoded && final(self).outcome->Some_0 is Ok
                        && decodes(v, final(self).outcome->Some_0->Ok_0, MAX_DEPTH as nat)
                } else {
                    final(self).phase == Phase::Failed && final(self).outcome->Some_0 is Err && {
                        let e = final(self).outcome->Some_0->Err_0;
                        (e == BridgeError::DepthExceeded && !value_fits(v, MAX_DEPTH as nat)) || (e
                            == BridgeError::Conversion(Direction::Decode, ConversionDetail::NoTextForm)
                            && !texts_known(v, MAX_DEPTH as nat))
                    }
                },
                (Phase::Decoded, Event::Released) => final(self).phase == Phase::Closed
                    && final(self).outcome == old(self).outcome && a is Deliver,
                (Phase::Failed, Event::Released) => final(self).phase == Phase::Closed
                    && final(self).outcome == old(self).outcome && a is Deliver,
                _ => final(self).phase == old(self).phase && final(self).outcome == old(
                    self,
                ).outcome && a is Ignore,
            },
    {
        match (self.phase, event) {
            (Phase::Created, Event::Injected) => {
                self.phase = Phase::BindingsInjected;
                Action::Compile
            },
            (Phase::Created, Event::InjectionRefused) => {
                self.phase = Phase::Failed;
                self.outcome = Some(
                    Err(BridgeError::Conversion(Direction::Encode, ConversionDetail::CreationRefused)),
                );
                Action::Release
            },
            (Phase::BindingsInjected, Event::CompileSucceeded) => {
                self.phase = Phase::Compiled;
                Action::Run
            },
            (Phase::BindingsInjected, Event::CompileFailed(d)) => {
                self.phase = Phase::Failed;
                self.outcome = Some(Err(BridgeError::Compile(d)));
                Action::Release
            },
            (Phase::Compiled, Event::Threw(d)) => {
                self.phase = Phase::Failed;
                self.outcome = Some(Err(BridgeError::RuntimeExecution(d)));
                Action::Release
            },
            (Phase::Compiled, Event::Completed(v)) => {
                match decode(&v, MAX_DEPTH) {
                    Ok(t) => {
                        self.phase = Phase::Decoded;
                        self.outcome = Some(Ok(t));
                    },
                    Err(e) => {
                        self.phase = Phase::Failed;
                        self.outcome = Some(Err(e));
                    },
                }
                Action::Release
            },
            (Phase::Decoded, Event::Released) => {
                self.phase = Phase::Closed;
                Action::Deliver
            },
            (Phase::Failed, Event::Released) => {
                self.phase = Phase::Closed;
                Action::Deliver
            },
            _ => Action::Ignore,
        }
    }
}

} // verus!
