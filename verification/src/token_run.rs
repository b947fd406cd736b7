//! One token on an engine that leaves the experts of a layer on the device: which action comes
//! next, given what the last one brought.

use vstd::prelude::*;

use crate::schedule::{
    below, completions, law_pending_collected, layer_steps, plan_layer, LayerStep,
};

verus! {

/// How far a token has come.
#[derive(Clone, Copy, Debug, PartialEq, Eq, Structural)]
pub struct TokenRun {
    pub num_layers: usize,
    /// The layer that runs next.
    pub layer: usize,
    /// The signal was checked in front of that layer.
    pub checked: bool,
    /// The signal said stop.
    pub stopped: bool,
    /// Experts that are still on the device; whether their sum was normed there too.
    pub pending: Option<bool>,
}

/// What an action brought.
#[derive(Clone, Copy, Debug, PartialEq, Eq, Structural)]
pub enum TokenEvent {
    Signal { stop: bool },
    /// The layer's steps were performed; what its experts left on the device.
    LayerDone { pending: Option<bool> },
    /// The experts were waited for, and the hidden state was read.
    Collected,
}

/// What to do next.
#[derive(Clone, Copy, Debug, PartialEq, Eq, Structural)]
pub enum TokenAction {
    CheckSignal,
    /// Perform the steps of this layer.
    RunLayer { layer: usize },
    /// Wait for the experts, and read the hidden state.
    Collect,
    /// Give up: the token was interrupted.
    Interrupted,
    Finished,
}

impl TokenRun {
    /// Nothing was done yet.
    pub open spec fn fresh(num_layers: usize) -> TokenRun {
        TokenRun { num_layers, layer: 0, checked: false, stopped: false, pending: None }
    }

    /// Not more layers than there are.
    pub open spec fn wf(self) -> bool {
        self.layer <= self.num_layers
    }

    /// What to do next: check the signal in front of every fourth layer, then run it; behind
    /// the last layer collect what is pending.
    pub open spec fn action(self) -> TokenAction {
        if self.stopped {
            TokenAction::Interrupted
        } else if self.layer < self.num_layers {
            if self.layer % 4 == 0 && !self.checked {
                TokenAction::CheckSignal
            } else {
                TokenAction::RunLayer { layer: self.layer }
            }
        } else if self.pending is Some {
            TokenAction::Collect
        } else {
            TokenAction::Finished
        }
    }

    /// The event answers the action.
    pub open spec fn answers(self, e: TokenEvent) -> bool {
        match self.action() {
            TokenAction::CheckSignal => e is Signal,
            TokenAction::RunLayer { layer } => e is LayerDone,
            TokenAction::Collect => e is Collected,
            _ => false,
        }
    }

    /// The state behind an event.
    pub open spec fn after(self, e: TokenEvent) -> TokenRun {
        match e {
            TokenEvent::Signal { stop } => if stop {
                TokenRun { stopped: true, ..self }
            } else {
                TokenRun { checked: true, ..self }
            },
            TokenEvent::LayerDone { pending } => TokenRun {
                layer: (self.layer + 1) as usize,
                checked: false,
                pending,
                ..self
            },
            TokenEvent::Collected => TokenRun { pending: None, ..self },
        }
    }

    /// The steps of the layer that runs next.
    pub open spec fn steps(self, has_state: bool, fused: bool, eager: bool) -> Seq<LayerStep> {
        layer_steps(
            self.layer as int,
            self.pending is Some,
            self.pending == Some(true),
            has_state,
            fused,
            eager,
        )
    }

    /// Start a token.
    pub fn new(num_layers: usize) -> (r: Self)
        ensures
            r == Self::fresh(num_layers),
            r.wf(),
    {
        TokenRun { num_layers, layer: 0, checked: false, stopped: false, pending: None }
    }

    /// What to do next.
    pub fn next_action(&self) -> (r: TokenAction)
        ensures
            r == self.action(),
    {
        if self.stopped {
            TokenAction::Interrupted
        } else if self.layer < self.num_layers {
            if self.layer % 4 == 0 && !self.checked {
                TokenAction::CheckSignal
            } else {
                TokenAction::RunLayer { layer: self.layer }
            }
        } else if self.pending.is_some() {
            TokenAction::Collect
        } else {
            TokenAction::Finished
        }
    }

    /// Take up what the last action brought, and tell what to do next.
    pub fn process_token_inner(&mut self, event: TokenEvent) -> (r: TokenAction)
        requires
            old(self).wf(),
            old(self).answers(event),
        ensures
            *final(self) == old(self).after(event),
            final(self).wf(),
            r == final(self).action(),
    {
        match event {
            TokenEvent::Signal { stop } => {
                if stop {
                    self.stopped = true;
                } else {
                    self.checked = true;
                }
            },
            TokenEvent::LayerDone { pending } => {
                self.layer = self.layer + 1;
                self.checked = false;
                self.pending = pending;
            },
            TokenEvent::Collected => {
                self.pending = None;
            },
        }
        self.next_action()
    }

    /// The steps of the layer that runs next.
    pub fn layer_plan(&self, has_state: bool, fused: bool, eager: bool) -> (r: Vec<LayerStep>)
        requires
            self.layer < self.num_layers,
        ensures
            r@ == self.steps(has_state, fused, eager),
    {
        let combined = match self.pending {
            Some(c) => c,
            None => false,
        };
        plan_layer(self.layer, self.pending.is_some(), combined, has_state, fused, eager)
    }
}

/// The state behind the first `n` events of a token.
pub open spec fn run_state(num_layers: usize, events: Seq<TokenEvent>, n: int) -> TokenRun
    decreases n,
{
    if n <= 0 {
        TokenRun::fresh(num_layers)
    } else {
        run_state(num_layers, events, n - 1).after(events[n - 1])
    }
}

/// Each event answers the action in front of it.
pub open spec fn is_run(num_layers: usize, events: Seq<TokenEvent>) -> bool {
    forall|i: int|
        0 <= i < events.len() ==> #[trigger] run_state(num_layers, events, i).answers(events[i])
}

/// The layers that the first `n` events ran, in order.
pub open spec fn layers_done(num_layers: usize, events: Seq<TokenEvent>, n: int) -> Seq<int>
    decreases n,
{
    if n <= 0 {
        Seq::empty()
    } else {
        let before = layers_done(num_layers, events, n - 1);
        if events[n - 1] is LayerDone {
            before.push(run_state(num_layers, events, n - 1).layer as int)
        } else {
            before
        }
    }
}

/// How many layers of the first `n` events left experts on the device.
pub open spec fn left_pending(events: Seq<TokenEvent>, n: int) -> int
    decreases n,
{
    if n <= 0 {
        0
    } else {
        left_pending(events, n - 1) + match events[n - 1] {
            TokenEvent::LayerDone { pending } => if pending is Some {
                1int
            } else {
                0int
            },
            _ => 0int,
        }
    }
}

/// How often the first `n` events collected experts: within the steps of a layer, or behind
/// the last.
pub open spec fn collections(
    num_layers: usize,
    events: Seq<TokenEvent>,
    n: int,
    fused: bool,
    eager: bool,
) -> int
    decreases n,
{
    if n <= 0 {
        0
    } else {
        collections(num_layers, events, n - 1, fused, eager) + match events[n - 1] {
            TokenEvent::LayerDone { .. } => completions(
                run_state(num_layers, events, n - 1).steps(true, fused, eager),
            ),
            TokenEvent::Collected => 1,
            TokenEvent::Signal { .. } => 0,
        }
    }
}

/// At every point of a token the layers so far have run once each, in order, and every layer's
/// experts were collected exactly once, but for those that are pending.
pub proof fn law_token_progress(
    num_layers: usize,
    events: Seq<TokenEvent>,
    n: int,
    fused: bool,
    eager: bool,
)
    requires
        is_run(num_layers, events),
        0 <= n <= events.len(),
    ensures
        ({
            let t = run_state(num_layers, events, n);
            &&& t.num_layers == num_layers
            &&& t.wf()
            &&& layers_done(num_layers, events, n) == below(t.layer as int)
            &&& left_pending(events, n) == collections(num_layers, events, n, fused, eager)
                + if t.pending is Some {
                1int
            } else {
                0int
            }
        }),
    decreases n,
{
    if n == 0 {
        assert(layers_done(num_layers, events, 0) =~= below(0));
    } else {
        law_token_progress(num_layers, events, n - 1, fused, eager);
        let t = run_state(num_layers, events, n - 1);
        assert(t.answers(events[n - 1]));
        match events[n - 1] {
            TokenEvent::LayerDone { pending } => {
                law_pending_collected(
                    t.layer as int,
                    t.pending is Some,
                    t.pending == Some(true),
                    fused,
                    eager,
                );
                assert(below(t.layer as int).push(t.layer as int) =~= below(t.layer + 1));
            },
            _ => {},
        }
    }
}

/// A token that finishes has run every layer once, in order, and collected all experts.
pub proof fn law_token_finishes(
    num_layers: usize,
    events: Seq<TokenEvent>,
    fused: bool,
    eager: bool,
)
    requires
        is_run(num_layers, events),
        run_state(num_layers, events, events.len() as int).action() is Finished,
    ensures
        layers_done(num_layers, events, events.len() as int) == below(num_layers as int),
        left_pending(events, events.len() as int) == collections(
            num_layers,
            events,
            events.len() as int,
            fused,
            eager,
        ),
{
    law_token_progress(num_layers, events, events.len() as int, fused, eager);
}

/// Until it is stopped or finished, a token brings its end nearer with every event: it never
/// takes more than two events per layer and one more.
pub proof fn law_token_ends(num_layers: usize, events: Seq<TokenEvent>)
    requires
        is_run(num_layers, events),
    ensures
        events.len() <= 2 * num_layers + 1,
{
    lemma_measure(num_layers, events, events.len() as int);
}

/// Events that a token can still take.
spec fn measure(t: TokenRun) -> int {
    if t.stopped {
        0
    } else {
        2 * (t.num_layers - t.layer) + (if t.layer < t.num_layers && t.layer % 4 == 0
            && !t.checked {
            0int
        } else if t.layer < t.num_layers {
            -1int
        } else {
            0int
        }) + (if t.layer < t.num_layers || t.pending is Some {
            1int
        } else {
            0int
        })
    }
}

proof fn lemma_measure(num_layers: usize, events: Seq<TokenEvent>, n: int)
    requires
        is_run(num_layers, events),
        0 <= n <= events.len(),
    ensures
        n + measure(run_state(num_layers, events, n)) <= 2 * num_layers + 1,
        0 <= measure(run_state(num_layers, events, n)),
    decreases n,
{
    if n > 0 {
        lemma_measure(num_layers, events, n - 1);
        law_token_progress(num_layers, events, n - 1, true, true);
        let t = run_state(num_layers, events, n - 1);
        assert(t.answers(events[n - 1]));
    }
}

/// The signal is looked at in front of every fourth layer and nowhere else: such a layer runs only
/// once the signal was seen and did not say stop, the others run at once. After a stop nothing
/// runs any more.
pub proof fn law_signal_in_front(t: TokenRun)
    requires
        t.wf(),
    ensures
        t.action() is Interrupted <==> t.stopped,
        t.action() is CheckSignal <==> !t.stopped && t.layer < t.num_layers && t.layer % 4 == 0
            && !t.checked,
        t.action() matches TokenAction::RunLayer { layer } ==> layer == t.layer && (layer % 4 == 0
            ==> t.checked),
        t.action() is CheckSignal ==> {
            &&& t.after(TokenEvent::Signal { stop: true }).action() is Interrupted
            &&& t.after(TokenEvent::Signal { stop: false }).action() == (TokenAction::RunLayer {
                layer: t.layer,
            })
        },
        t.action() is RunLayer ==> forall|p: Option<bool>|
            {
                let next = #[trigger] t.after(TokenEvent::LayerDone { pending: p });
                next.layer == t.layer + 1 && next.pending == p && !next.checked
            },
        t.action() is Collect <==> !t.stopped && t.layer == t.num_layers && t.pending is Some,
        t.action() is Collect ==> t.after(TokenEvent::Collected).action() is Finished,
{
}

} // verus!
