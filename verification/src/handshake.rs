//! The start-up handshake: start the process, hand it the bootstrap script,
//! then connect to its listener, trying again until it answers.

use vstd::prelude::*;
use crate::failure::Failure;

verus! {

/// A step of the handshake that the caller carries out.
#[derive(Clone, Copy, Debug, PartialEq, Eq, Structural)]
pub enum Stage {
    /// Start the MAGIC process.
    Spawn,
    /// Write the port assignment and the bootstrap script to its input.
    Bootstrap,
    /// Open a connection to the listener.
    Connect,
}

/// What follows a step of the handshake.
#[derive(Clone, Copy, Debug, PartialEq, Eq, Structural)]
pub enum Verdict {
    /// Carry out this step next.
    Continue(Stage),
    /// The connection is open: the handshake is complete.
    Connected,
    /// The handshake has failed for good.
    Abort(Failure),
}

/// One of the three streams of the started process.
#[derive(Clone, Copy, Debug, PartialEq, Eq, Structural)]
pub enum Stream {
    /// Its standard input.
    Input,
    /// Its standard output.
    Output,
    /// Its standard error.
    Errors,
}

/// How a stream of the started process is set up.
#[derive(Clone, Copy, Debug, PartialEq, Eq, Structural)]
pub enum Wiring {
    /// A pipe that the client writes to.
    Piped,
    /// Discarded: what the process writes there is never seen.
    Discarded,
}

impl Stream {
    /// The input is a pipe; output and errors are discarded.
    pub open spec fn spec_wiring(self) -> Wiring {
        match self {
            Stream::Input => Wiring::Piped,
            Stream::Output => Wiring::Discarded,
            Stream::Errors => Wiring::Discarded,
        }
    }

    /// Returns how this stream of the process is set up.
    #[verifier::when_used_as_spec(spec_wiring)]
    pub fn wiring(self) -> (wiring: Wiring)
        ensures
            wiring == self.spec_wiring(),
    {
        match self {
            Stream::Input => Wiring::Piped,
            Stream::Output => Wiring::Discarded,
            Stream::Errors => Wiring::Discarded,
        }
    }
}

impl Stage {
    /// The step with which every handshake begins.
    pub open spec fn first() -> Stage {
        Stage::Spawn
    }

    /// What follows this step, given whether it succeeded.
    ///
    /// A process that does not start and a script that cannot be written are
    /// fatal. A connection that is refused is not: the listener may not be
    /// up yet, so connecting is tried again, at once and without a limit.
    pub open spec fn followed_by(self, succeeded: bool) -> Verdict {
        match self {
            Stage::Spawn => if succeeded {
                Verdict::Continue(Stage::Bootstrap)
            } else {
                Verdict::Abort(Failure::Spawn)
            },
            Stage::Bootstrap => if succeeded {
                Verdict::Continue(Stage::Connect)
            } else {
                Verdict::Abort(Failure::HandshakeWrite)
            },
            Stage::Connect => if succeeded {
                Verdict::Connected
            } else {
                Verdict::Continue(Stage::Connect)
            },
        }
    }

    /// Returns the step with which every handshake begins.
    pub fn start() -> (stage: Stage)
        ensures
            stage == Stage::first(),
    {
        Stage::Spawn
    }

    /// Decides what follows this step, given whether it succeeded.
    pub fn next(self, succeeded: bool) -> (verdict: Verdict)
        ensures
            verdict == self.followed_by(succeeded),
    {
        match self {
            Stage::Spawn => if succeeded {
                Verdict::Continue(Stage::Bootstrap)
            } else {
                Verdict::Abort(Failure::Spawn)
            },
            Stage::Bootstrap => if succeeded {
                Verdict::Continue(Stage::Connect)
            } else {
                Verdict::Abort(Failure::HandshakeWrite)
            },
            Stage::Connect => if succeeded {
                Verdict::Connected
            } else {
                Verdict::Continue(Stage::Connect)
            },
        }
    }
}

/// Where a handshake that stands at `verdict` stands after further steps
/// with the results `results`. Once it is connected or has failed, no step
/// changes that.
pub open spec fn after_steps(verdict: Verdict, results: Seq<bool>) -> Verdict
    decreases results.len(),
{
    if results.len() == 0 {
        verdict
    } else {
        match verdict {
            Verdict::Continue(stage) => after_steps(
                stage.followed_by(results[0]),
                results.drop_first(),
            ),
            ended => ended,
        }
    }
}

/// However often the connection is refused, the handshake goes on trying to
/// connect: it never gives up and never fails there.
pub proof fn lemma_refusals_are_retried(refusals: Seq<bool>)
    requires
        forall|i: int| 0 <= i < refusals.len() ==> !refusals[i],
    ensures
        after_steps(Verdict::Continue(Stage::Connect), refusals) == Verdict::Continue(
            Stage::Connect,
        ),
    decreases refusals.len(),
{
    if refusals.len() > 0 {
        lemma_refusals_are_retried(refusals.drop_first());
    }
}

/// A handshake whose process starts and takes the script is complete as soon
/// as a connection is accepted, however often one was refused before.
pub proof fn lemma_handshake_completes(refusals: Seq<bool>)
    requires
        forall|i: int| 0 <= i < refusals.len() ==> !refusals[i],
    ensures
        after_steps(
            Verdict::Continue(Stage::first()),
            seq![true, true] + refusals + seq![true],
        ) == Verdict::Connected,
{
    let results = seq![true, true] + refusals + seq![true];
    let connecting = Verdict::Continue(Stage::Connect);
    assert(results =~= seq![true, true] + (refusals + seq![true]));
    lemma_steps_in_two_parts(
        Verdict::Continue(Stage::Spawn),
        seq![true, true],
        refusals + seq![true],
    );
    assert(after_steps(Verdict::Continue(Stage::Spawn), seq![true, true]) == connecting) by {
        reveal_with_fuel(after_steps, 3);
        assert(seq![true, true].drop_first() =~= seq![true]);
        assert(seq![true].drop_first() =~= Seq::<bool>::empty());
    }
    lemma_steps_in_two_parts(connecting, refusals, seq![true]);
    lemma_refusals_are_retried(refusals);
    assert(after_steps(connecting, seq![true]) == Verdict::Connected) by {
        reveal_with_fuel(after_steps, 2);
        assert(seq![true].drop_first() =~= Seq::<bool>::empty());
    }
}

/// Steps carried out one after another lead where carrying out the first of
/// them, and from there the rest, leads.
pub proof fn lemma_steps_in_two_parts(verdict: Verdict, first: Seq<bool>, rest: Seq<bool>)
    ensures
        after_steps(verdict, first + rest) == after_steps(after_steps(verdict, first), rest),
    decreases first.len(),
{
    if first.len() == 0 {
        assert(first + rest =~= rest);
    } else {
        assert((first + rest).drop_first() =~= first.drop_first() + rest);
        match verdict {
            Verdict::Continue(stage) => {
                lemma_steps_in_two_parts(stage.followed_by(first[0]), first.drop_first(), rest);
            },
            _ => {
                lemma_ended_stays(verdict, rest);
            },
        }
    }
}

/// Once a handshake is connected or has failed, no step changes that.
pub proof fn lemma_ended_stays(verdict: Verdict, results: Seq<bool>)
    requires
        !(verdict is Continue),
    ensures
        after_steps(verdict, results) == verdict,
{
}

/// A handshake is complete only after a connection was opened: the last step
/// carried out was connecting, and it succeeded.
pub proof fn lemma_connected_by_connecting(stage: Stage, results: Seq<bool>)
    requires
        after_steps(Verdict::Continue(stage), results) == Verdict::Connected,
    ensures
        exists|n: int|
            0 <= n < results.len() && results[n] && after_steps(
                Verdict::Continue(stage),
                results.take(n),
            ) == Verdict::Continue(Stage::Connect),
    decreases results.len(),
{
    assert(results.len() > 0);
    let next = stage.followed_by(results[0]);
    let later = results.drop_first();
    assert(after_steps(next, later) == Verdict::Connected);
    match next {
        Verdict::Connected => {
            assert(results.take(0) =~= Seq::<bool>::empty());
            assert(results[0] && after_steps(Verdict::Continue(stage), results.take(0))
                == Verdict::Continue(Stage::Connect));
        },
        Verdict::Continue(following) => {
            lemma_connected_by_connecting(following, later);
            let m = choose|m: int|
                0 <= m < later.len() && later[m] && after_steps(
                    Verdict::Continue(following),
                    later.take(m),
                ) == Verdict::Continue(Stage::Connect);
            assert(results.take(m + 1).drop_first() =~= later.take(m));
            assert(results.take(m + 1)[0] == results[0]);
            assert(results[m + 1] && after_steps(Verdict::Continue(stage), results.take(m + 1))
                == Verdict::Continue(Stage::Connect));
        },
        Verdict::Abort(_) => {
            assert(after_steps(next, later) == next);
        },
    }
}

} // verus!
