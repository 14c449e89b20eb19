//! The compiled form of the libraries that every script engine is given.
//!
//! The libraries are compiled once. Where that fails, or where the compiled form
//! does not run, every engine from then on evaluates their source.

use vstd::prelude::*;

verus! {

/// The state of one bundle of libraries.
#[derive(Debug)]
pub struct ShimBytecodeCache {
    /// The outcome of the compilation, once there is one.
    pub bytecode: Option<Option<Vec<u8>>>,
    pub compile_failed: bool,
    pub run_failed: bool,
}

/// Something that happened while an engine was set up.
#[derive(Debug)]
pub enum ShimEvent {
    /// An engine is to be set up.
    Begin,
    /// The compilation gave a compiled form, or failed.
    Compiled(Option<Vec<u8>>),
    /// The compiled form ran, or failed to.
    Ran(bool),
    /// The source was evaluated, with or without success.
    Evaluated,
}

/// What to do next.
#[derive(Debug, Clone, Copy, PartialEq, Eq, Structural)]
pub enum ShimAction {
    Compile,
    /// Run the compiled form.
    Run,
    /// Evaluate the source.
    EvalSource,
    Done,
}

/// Whether there is a compiled form that is not known to fail.
pub open spec fn runs(cache: ShimBytecodeCache) -> bool {
    !cache.run_failed && cache.bytecode matches Some(Some(_))
}

/// The state after an event.
pub open spec fn state_after(cache: ShimBytecodeCache, event: ShimEvent) -> ShimBytecodeCache {
    match event {
        ShimEvent::Begin => if cache.bytecode is None && cache.compile_failed {
            ShimBytecodeCache { bytecode: Some(None), ..cache }
        } else {
            cache
        },
        ShimEvent::Compiled(outcome) => if cache.bytecode is Some {
            cache
        } else {
            ShimBytecodeCache {
                bytecode: Some(outcome),
                compile_failed: cache.compile_failed || outcome is None,
                ..cache
            }
        },
        ShimEvent::Ran(ok) => ShimBytecodeCache { run_failed: cache.run_failed || !ok, ..cache },
        ShimEvent::Evaluated => cache,
    }
}

/// What to do after an event.
pub open spec fn action_after(cache: ShimBytecodeCache, event: ShimEvent) -> ShimAction {
    let next = state_after(cache, event);
    match event {
        ShimEvent::Begin => if next.bytecode is None {
            ShimAction::Compile
        } else if runs(next) {
            ShimAction::Run
        } else {
            ShimAction::EvalSource
        },
        ShimEvent::Compiled(_) => if runs(next) {
            ShimAction::Run
        } else {
            ShimAction::EvalSource
        },
        ShimEvent::Ran(ok) => if ok {
            ShimAction::Done
        } else {
            ShimAction::EvalSource
        },
        ShimEvent::Evaluated => ShimAction::Done,
    }
}

impl ShimBytecodeCache {
    pub fn new() -> (r: ShimBytecodeCache)
        ensures
            r.bytecode is None,
            !r.compile_failed,
            !r.run_failed,
    {
        ShimBytecodeCache { bytecode: None, compile_failed: false, run_failed: false }
    }

    fn usable(&self) -> (r: bool)
        ensures
            r == runs(*self),
    {
        match &self.bytecode {
            Some(Some(_)) => !self.run_failed,
            _ => false,
        }
    }

    /// Takes an event and says what to do next.
    pub fn next(&mut self, event: ShimEvent) -> (r: ShimAction)
        ensures
            *final(self) == state_after(*old(self), event),
            r == action_after(*old(self), event),
    {
        match event {
            ShimEvent::Begin => {
                if self.bytecode.is_none() {
                    if !self.compile_failed {
                        return ShimAction::Compile;
                    }
                    self.bytecode = Some(None);
                }
                if self.usable() {
                    ShimAction::Run
                } else {
                    ShimAction::EvalSource
                }
            },
            ShimEvent::Compiled(outcome) => {
                if self.bytecode.is_none() {
                    if outcome.is_none() {
                        self.compile_failed = true;
                    }
                    self.bytecode = Some(outcome);
                }
                if self.usable() {
                    ShimAction::Run
                } else {
                    ShimAction::EvalSource
                }
            },
            ShimEvent::Ran(ok) => {
                if ok {
                    ShimAction::Done
                } else {
                    self.run_failed = true;
                    ShimAction::EvalSource
                }
            },
            ShimEvent::Evaluated => ShimAction::Done,
        }
    }
}

// ── laws ──

/// The state after the events of a list, in order.
pub open spec fn state_after_all(cache: ShimBytecodeCache, events: Seq<ShimEvent>) -> ShimBytecodeCache
    decreases events.len(),
{
    if events.len() == 0 {
        cache
    } else {
        state_after(state_after_all(cache, events.drop_last()), events.last())
    }
}

/// Once there is an outcome, nothing is compiled again.
pub proof fn law_compiled_once(cache: ShimBytecodeCache, events: Seq<ShimEvent>)
    requires
        cache.bytecode is Some,
    ensures
        state_after_all(cache, events).bytecode == cache.bytecode,
        action_after(state_after_all(cache, events), ShimEvent::Begin) != ShimAction::Compile,
    decreases events.len(),
{
    if events.len() > 0 {
        law_compiled_once(cache, events.drop_last());
    }
}

/// Once the compiled form failed to run, every engine evaluates the source.
pub proof fn law_failed_run_is_not_repeated(cache: ShimBytecodeCache, events: Seq<ShimEvent>)
    requires
        cache.bytecode is Some,
        cache.run_failed,
    ensures
        action_after(state_after_all(cache, events), ShimEvent::Begin) == ShimAction::EvalSource,
        state_after_all(cache, events).run_failed,
    decreases events.len(),
{
    law_compiled_once(cache, events);
    if events.len() > 0 {
        law_failed_run_is_not_repeated(cache, events.drop_last());
    }
}

/// The first engine compiles. What was compiled is run, and where it runs that is
/// all; where it does not compile or does not run, the source is evaluated.
pub proof fn law_compiled_form_is_run(cache: ShimBytecodeCache, code: Vec<u8>)
    requires
        cache.bytecode is None,
        !cache.compile_failed,
        !cache.run_failed,
    ensures
        ({
            let compiled = state_after(cache, ShimEvent::Compiled(Some(code)));
            let failed = state_after(cache, ShimEvent::Compiled(None));
            &&& action_after(cache, ShimEvent::Begin) == ShimAction::Compile
            &&& action_after(cache, ShimEvent::Compiled(Some(code))) == ShimAction::Run
            &&& compiled.bytecode == Some(Some(code))
            &&& action_after(compiled, ShimEvent::Begin) == ShimAction::Run
            &&& action_after(compiled, ShimEvent::Ran(true)) == ShimAction::Done
            &&& state_after(compiled, ShimEvent::Ran(true)) == compiled
            &&& action_after(compiled, ShimEvent::Ran(false)) == ShimAction::EvalSource
            &&& state_after(compiled, ShimEvent::Ran(false)).run_failed
            &&& action_after(cache, ShimEvent::Compiled(None)) == ShimAction::EvalSource
            &&& failed.compile_failed
            &&& action_after(failed, ShimEvent::Begin) == ShimAction::EvalSource
        }),
{
}

/// A source that was evaluated, with success or not, is not evaluated again for the
/// same engine, and changes nothing for the others.
pub proof fn law_evaluation_ends(cache: ShimBytecodeCache)
    ensures
        action_after(cache, ShimEvent::Evaluated) == ShimAction::Done,
        state_after(cache, ShimEvent::Evaluated) == cache,
{
}

} // verus!
