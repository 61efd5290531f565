//! Cooperative shutdown between the keyboard listener and the acquisition
//! loop: a flag that the listener sets once and the loop reads at the top
//! of every cycle.
use vstd::prelude::*;

verus! {

/// A key event as the listener sees it.
#[derive(Debug, Clone, Copy, PartialEq, Eq, Structural)]
pub enum KeyInput {
    Char(char),
    Ctrl(char),
    Other,
}

/// The keys that ask for shutdown: the interrupt and the letter `q`.
pub open spec fn quit_key(k: KeyInput) -> bool {
    k == KeyInput::Ctrl('c') || k == KeyInput::Char('q')
}

/// Whether `k` asks for shutdown.
pub fn is_quit(k: KeyInput) -> (r: bool)
    ensures
        r == quit_key(k),
{
    match k {
        KeyInput::Ctrl(c) => c == 'c',
        KeyInput::Char(c) => c == 'q',
        KeyInput::Other => false,
    }
}

/// The shutdown flag: set at most once, never reset.
#[derive(Debug)]
pub struct Shutdown {
    requested: bool,
}

impl Shutdown {
    pub closed spec fn is_requested(&self) -> bool {
        self.requested
    }

    /// A flag that is not set.
    pub fn new() -> (r: Shutdown)
        ensures
            !r.is_requested(),
    {
        Shutdown { requested: false }
    }

    /// Whether shutdown was asked for.
    pub fn requested(&self) -> (r: bool)
        ensures
            r == self.is_requested(),
    {
        self.requested
    }

    /// The listener's reaction to a key: a quit key sets the flag and ends
    /// the listener (`true`); any other key is ignored (`false`).
    pub fn on_key(&mut self, k: KeyInput) -> (r: bool)
        ensures
            r == quit_key(k),
            final(self).is_requested() == (old(self).is_requested() || quit_key(k)),
    {
        let quit = is_quit(k);
        if quit {
            self.requested = true;
        }
        quit
    }

    /// The loop's decision at the top of a cycle: `true` to run one more
    /// cycle, `false` to stop.
    pub fn run_cycle(&self) -> (r: bool)
        ensures
            r == !self.is_requested(),
    {
        !self.requested
    }
}

/// What happens next, as seen from the flag: a key reaches the listener, or
/// the loop reaches the top of a cycle.
pub enum Step {
    Key(KeyInput),
    Top,
}

/// The number of cycles that the loop begins over `steps`, from a flag that
/// is `requested` or not. The loop ends at the first top of a cycle that
/// finds the flag set.
pub open spec fn cycles_begun(requested: bool, steps: Seq<Step>) -> nat
    decreases steps.len(),
{
    if steps.len() == 0 {
        0
    } else {
        match steps[0] {
            Step::Key(k) => cycles_begun(requested || quit_key(k), steps.drop_first()),
            Step::Top => if requested {
                0
            } else {
                1 + cycles_begun(requested, steps.drop_first())
            },
        }
    }
}

proof fn lemma_no_cycle_once_requested(steps: Seq<Step>)
    ensures
        cycles_begun(true, steps) == 0,
    decreases steps.len(),
{
    if steps.len() > 0 {
        lemma_no_cycle_once_requested(steps.drop_first());
    }
}

/// Once a quit key has been delivered, however the keys and the cycles
/// interleave afterwards, the loop begins no new cycle: only the cycle in
/// flight when the key came completes.
pub proof fn lemma_quit_stops_loop(requested: bool, k: KeyInput, steps: Seq<Step>)
    requires
        quit_key(k),
    ensures
        cycles_begun(requested, seq![Step::Key(k)] + steps) == 0,
{
    assert((seq![Step::Key(k)] + steps).drop_first() =~= steps);
    lemma_no_cycle_once_requested(steps);
}

} // verus!
