//! Moving-average crossover signals.
use crate::trading::OrderSide;
use vstd::prelude::*;

verus! {

/// One step of the crossover state machine, given whether the fast average is
/// now definitively above or below the slow one: the first definitive position
/// is only recorded; afterwards, crossing below signals a sell and crossing
/// above a buy.
pub open spec fn crossover_step(last_was_above: Option<bool>, above: bool, below: bool) -> (
    Option<bool>,
    Option<OrderSide>,
) {
    match last_was_above {
        None => if above {
            (Some(true), None)
        } else if below {
            (Some(false), None)
        } else {
            (None, None)
        },
        Some(true) => if below {
            (Some(false), Some(OrderSide::Sell))
        } else {
            (Some(true), None)
        },
        Some(false) => if above {
            (Some(true), Some(OrderSide::Buy))
        } else {
            (Some(false), None)
        },
    }
}

/// Tracks on which side of the slow average the fast one was last seen.
#[derive(Clone, Copy, Debug)]
pub struct SignalGenerator {
    pub last_was_above: Option<bool>,
}

impl SignalGenerator {
    pub fn new() -> (r: Self)
        ensures
            r.last_was_above is None,
    {
        SignalGenerator { last_was_above: None }
    }

    /// Advance the crossover state with the latest comparison of the averages
    /// (`above`: fast above slow by more than the threshold; `below`: fast below
    /// slow by more than it) and return the signal, if any.
    pub fn crossover_signal(&mut self, above: bool, below: bool) -> (r: Option<OrderSide>)
        ensures
            (final(self).last_was_above, r) == crossover_step(old(self).last_was_above, above, below),
    {
        match self.last_was_above {
            None => {
                if above {
                    self.last_was_above = Some(true);
                } else if below {
                    self.last_was_above = Some(false);
                }
                None
            },
            Some(true) => {
                if below {
                    self.last_was_above = Some(false);
                    Some(OrderSide::Sell)
                } else {
                    None
                }
            },
            Some(false) => {
                if above {
                    self.last_was_above = Some(true);
                    Some(OrderSide::Buy)
                } else {
                    None
                }
            },
        }
    }
}

impl Default for SignalGenerator {
    fn default() -> (r: Self)
        ensures
            r.last_was_above is None,
    {
        Self::new()
    }
}

/// Crossover signals alternate: whatever steps without a signal come in between,
/// the signal after a buy is a sell and the signal after a sell is a buy.
pub proof fn lemma_signals_alternate(
    state: Option<bool>,
    first: (bool, bool),
    quiet: Seq<(bool, bool)>,
    next: (bool, bool),
)
    requires
        crossover_step(state, first.0, first.1).1 is Some,
        forall|i: int|
            0 <= i < quiet.len() ==> (#[trigger] crossover_step(
                run_steps(crossover_step(state, first.0, first.1).0, quiet.take(i)),
                quiet[i].0,
                quiet[i].1,
            )).1 is None,
        crossover_step(
            run_steps(crossover_step(state, first.0, first.1).0, quiet),
            next.0,
            next.1,
        ).1 is Some,
    ensures
        crossover_step(
            run_steps(crossover_step(state, first.0, first.1).0, quiet),
            next.0,
            next.1,
        ).1 != crossover_step(state, first.0, first.1).1,
{
    let s1 = crossover_step(state, first.0, first.1).0;
    lemma_quiet_steps_keep_state(s1, quiet);
}

/// The state after a sequence of comparisons.
pub open spec fn run_steps(state: Option<bool>, steps: Seq<(bool, bool)>) -> Option<bool>
    decreases steps.len(),
{
    if steps.len() == 0 {
        state
    } else {
        crossover_step(run_steps(state, steps.drop_last()), steps.last().0, steps.last().1).0
    }
}

/// From a known side, steps that signal nothing keep the side.
proof fn lemma_quiet_steps_keep_state(state: Option<bool>, quiet: Seq<(bool, bool)>)
    requires
        state is Some,
        forall|i: int|
            0 <= i < quiet.len() ==> (#[trigger] crossover_step(
                run_steps(state, quiet.take(i)),
                quiet[i].0,
                quiet[i].1,
            )).1 is None,
    ensures
        run_steps(state, quiet) == state,
    decreases quiet.len(),
{
    if quiet.len() > 0 {
        let prefix = quiet.drop_last();
        assert forall|i: int| 0 <= i < prefix.len() implies (#[trigger] crossover_step(
            run_steps(state, prefix.take(i)),
            prefix[i].0,
            prefix[i].1,
        )).1 is None by {
            assert(prefix.take(i) =~= quiet.take(i));
            assert(prefix[i] == quiet[i]);
            assert(crossover_step(run_steps(state, quiet.take(i)), quiet[i].0, quiet[i].1).1 is None);
        }
        lemma_quiet_steps_keep_state(state, prefix);
        let last = quiet.len() - 1;
        assert(quiet.take(last) =~= prefix);
        assert(crossover_step(run_steps(state, quiet.take(last)), quiet[last].0, quiet[last].1).1 is None);
    }
}

} // verus!
