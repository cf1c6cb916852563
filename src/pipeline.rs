use std::marker::PhantomData;

use vstd::prelude::*;

verus! {

/// Why a source could not hand over its next item.
#[derive(Debug, PartialEq, Eq, Structural, Clone, Copy)]
pub enum InputError {
    /// The device behind the source has stopped the stream.
    DeviceClosed,
    /// A finite source has nothing more to give.
    StreamEnded,
}

/// Why a sink could not take an item.
#[derive(Debug, PartialEq, Eq, Structural, Clone, Copy)]
pub enum OutputError {
    DeviceClosed,
}

/// A source of items, such as a capture device.
pub trait Input: Sized {
    type Item;

    /// Reading from the source in state `self` may give `r` and leave it in
    /// state `next`. Sources that do not say more may give anything.
    open spec fn reads(&self, r: Result<Self::Item, InputError>, next: Self) -> bool {
        true
    }

    /// Waits for the next item.
    fn read(&mut self) -> (r: Result<Self::Item, InputError>)
        ensures
            old(self).reads(r, *final(self)),
    ;

    /// Returns the next item if one is ready, without waiting.
    fn try_read(&mut self) -> Result<Option<Self::Item>, InputError>;
}

/// A sink of items, such as a playback device.
pub trait Output<T>: Sized {
    /// Taking `item` in state `self` may leave the sink in state `next`.
    /// Sinks that do not say more are taken to accept in any way.
    open spec fn accepts(&self, item: T, next: Self) -> bool {
        true
    }

    /// Refusing `item` in state `self` may leave the sink in state `next`.
    open spec fn refuses(&self, item: T, next: Self) -> bool {
        true
    }

    fn push(&mut self, item: T) -> (r: Result<(), OutputError>)
        ensures
            r is Ok ==> old(self).accepts(item, *final(self)),
            r is Err ==> old(self).refuses(item, *final(self)),
    ;
}

/// A transform from one input to an ordered, finite sequence of outputs
/// (often none or one).
pub trait Step: Sized {
    type Input;
    type Output;

    /// Taking `input` in state `self` may leave the step in state `next`
    /// having yielded `out`. Steps that do not say more may do anything.
    open spec fn step_ok(&self, input: Self::Input, next: Self, out: Seq<Self::Output>) -> bool {
        true
    }

    fn process(&mut self, input: Self::Input) -> (r: Vec<Self::Output>)
        ensures
            old(self).step_ok(input, *final(self), r@),
    ;
}

/// A run of the step through `ins`: `states[i]` is the state before
/// taking `ins[i]`, and that feed yields `outs[cuts[i]..cuts[i + 1]]`.
pub open spec fn is_run<T: Step>(
    s: T,
    ins: Seq<T::Input>,
    s2: T,
    outs: Seq<T::Output>,
    states: Seq<T>,
    cuts: Seq<int>,
) -> bool {
    &&& states.len() == ins.len() + 1
    &&& cuts.len() == ins.len() + 1
    &&& states[0] == s
    &&& states[ins.len() as int] == s2
    &&& cuts[0] == 0
    &&& cuts[ins.len() as int] == outs.len()
    &&& forall|i: int| 0 <= i < ins.len() ==> 0 <= #[trigger] cuts[i] <= cuts[i + 1] <= outs.len()
    &&& forall|i: int|
        0 <= i < ins.len() ==> (#[trigger] states[i]).step_ok(
            ins[i],
            states[i + 1],
            outs.subrange(cuts[i], cuts[i + 1]),
        )
}

/// Feeding `ins` one by one to the step in state `s` may leave it in state
/// `s2`, the outputs of all the feeds concatenated being `outs`.
pub open spec fn feeds<T: Step>(s: T, ins: Seq<T::Input>, s2: T, outs: Seq<T::Output>) -> bool {
    exists|states: Seq<T>, cuts: Seq<int>| #[trigger] is_run(s, ins, s2, outs, states, cuts)
}

proof fn lemma_feeds_empty<T: Step>(s: T, ins: Seq<T::Input>, outs: Seq<T::Output>)
    requires
        ins.len() == 0,
        outs.len() == 0,
    ensures
        feeds(s, ins, s, outs),
{
    let states = seq![s];
    let cuts = seq![0int];
    assert(is_run(s, ins, s, outs, states, cuts));
}

proof fn lemma_feeds_push<T: Step>(
    s: T,
    ins: Seq<T::Input>,
    m: T,
    outs: Seq<T::Output>,
    x: T::Input,
    s2: T,
    more: Seq<T::Output>,
)
    requires
        feeds(s, ins, m, outs),
        m.step_ok(x, s2, more),
    ensures
        feeds(s, ins.push(x), s2, outs + more),
{
    let (states, cuts) = choose|states: Seq<T>, cuts: Seq<int>| is_run(s, ins, m, outs, states, cuts);
    let ins2 = ins.push(x);
    let outs2 = outs + more;
    let states2 = states.push(s2);
    let cuts2 = cuts.push(outs2.len() as int);
    let n = ins.len() as int;
    assert forall|i: int| 0 <= i < ins2.len() implies 0 <= #[trigger] cuts2[i] <= cuts2[i + 1] <= outs2.len() by {
        if i < n {
            assert(0 <= cuts[i] <= cuts[i + 1] <= outs.len());
        }
    }
    assert forall|i: int| 0 <= i < ins2.len() implies (#[trigger] states2[i]).step_ok(
        ins2[i],
        states2[i + 1],
        outs2.subrange(cuts2[i], cuts2[i + 1]),
    ) by {
        assert(0 <= cuts2[i] <= cuts2[i + 1] <= outs2.len());
        if i < n {
            assert(0 <= cuts[i] <= cuts[i + 1] <= outs.len());
            assert(states[i].step_ok(ins[i], states[i + 1], outs.subrange(cuts[i], cuts[i + 1])));
            assert(outs2.subrange(cuts2[i], cuts2[i + 1]) =~= outs.subrange(cuts[i], cuts[i + 1]));
        } else {
            assert(outs2.subrange(cuts2[i], cuts2[i + 1]) =~= more);
        }
    }
    assert(states2.len() == ins2.len() + 1);
    assert(cuts2.len() == ins2.len() + 1);
    assert(states2[0] == s);
    assert(states2[ins2.len() as int] == s2);
    assert(cuts2[0] == 0);
    assert(cuts2[ins2.len() as int] == outs2.len());
    assert(is_run(s, ins2, s2, outs2, states2, cuts2));
}

/// A run of the sink through `items`: `states[i]` is its state before
/// taking `items[i]`.
pub open spec fn is_sink_run<T, O: Output<T>>(o: O, items: Seq<T>, o2: O, states: Seq<O>) -> bool {
    &&& states.len() == items.len() + 1
    &&& states[0] == o
    &&& states[items.len() as int] == o2
    &&& forall|i: int| 0 <= i < items.len() ==> (#[trigger] states[i]).accepts(items[i], states[i + 1])
}

/// Pushing `items` one by one, each accepted, may take the sink from state
/// `o` to state `o2`.
pub open spec fn sinks<T, O: Output<T>>(o: O, items: Seq<T>, o2: O) -> bool {
    exists|states: Seq<O>| #[trigger] is_sink_run(o, items, o2, states)
}

proof fn lemma_sinks_empty<T, O: Output<T>>(o: O, items: Seq<T>)
    requires
        items.len() == 0,
    ensures
        sinks(o, items, o),
{
    assert(is_sink_run(o, items, o, seq![o]));
}

proof fn lemma_sinks_push<T, O: Output<T>>(o: O, items: Seq<T>, m: O, x: T, o2: O)
    requires
        sinks(o, items, m),
        m.accepts(x, o2),
    ensures
        sinks(o, items.push(x), o2),
{
    let states = choose|states: Seq<O>| is_sink_run(o, items, m, states);
    let states2 = states.push(o2);
    let items2 = items.push(x);
    assert forall|i: int| 0 <= i < items2.len() implies (#[trigger] states2[i]).accepts(items2[i], states2[i + 1]) by {
        if i < items.len() {
            assert(states[i].accepts(items[i], states[i + 1]));
        }
    }
    assert(states2[0] == o);
    assert(states2[items2.len() as int] == o2);
    assert(is_sink_run(o, items2, o2, states2));
}

/// Running `item` through a step in state `step0` and pushing the outputs,
/// in order, to a sink in state `out0` may leave them in states `step1`
/// and `out1` with result `r`: on success every output was accepted; on a
/// sink failure the outputs before the refused one were accepted and stay
/// delivered, and the rest were never pushed.
pub open spec fn item_processed<St: Step, O: Output<St::Output>>(
    step0: St,
    out0: O,
    item: St::Input,
    step1: St,
    out1: O,
    r: Result<(), ProcessError>,
) -> bool {
    match r {
        Ok(()) => exists|outs: Seq<St::Output>|
            #[trigger] step0.step_ok(item, step1, outs) && sinks(out0, outs, out1),
        Err(ProcessError::OutputError(_)) => exists|outs: Seq<St::Output>, k: int, o: O|
            #![trigger step0.step_ok(item, step1, outs), sinks(out0, outs.take(k), o)]
            step0.step_ok(item, step1, outs) && 0 <= k < outs.len() && sinks(out0, outs.take(k), o)
                && o.refuses(outs[k], out1),
        Err(ProcessError::InputError(_)) => false,
    }
}

proof fn lemma_refused<St: Step, O: Output<St::Output>>(
    step0: St,
    out0: O,
    item: St::Input,
    step1: St,
    outs: Seq<St::Output>,
    k: int,
    o: O,
    out1: O,
    e: OutputError,
)
    requires
        step0.step_ok(item, step1, outs),
        0 <= k < outs.len(),
        sinks(out0, outs.take(k), o),
        o.refuses(outs[k], out1),
    ensures
        item_processed(step0, out0, item, step1, out1, Err(ProcessError::OutputError(e))),
{
}

/// Reads one item from a source, runs it through a step, and pushes every
/// output to a sink in order.
pub struct Pipeline<I, St, O> {
    input: I,
    step: St,
    output: O,
}

/// Which end of a pipeline failed.
#[derive(Debug, PartialEq, Eq, Structural, Clone, Copy)]
pub enum ProcessError {
    InputError(InputError),
    OutputError(OutputError),
}

impl<I: Input, St: Step<Input = I::Item>, O: Output<St::Output>> Pipeline<I, St, O> {
    pub closed spec fn input(&self) -> I {
        self.input
    }

    pub closed spec fn step(&self) -> St {
        self.step
    }

    pub closed spec fn output(&self) -> O {
        self.output
    }

    pub fn new(input: I, step: St, output: O) -> (r: Self)
        ensures
            r.input() == input,
            r.step() == step,
            r.output() == output,
    {
        Pipeline { input, step, output }
    }

    /// Runs one item through the step and pushes every output to the sink
    /// in order, stopping at the first output the sink refuses. Pushes
    /// already made stay made.
    #[verifier::loop_isolation(false)]
    pub fn process_item(&mut self, item: I::Item) -> (r: Result<(), ProcessError>)
        ensures
            final(self).input() == old(self).input(),
            item_processed(old(self).step(), old(self).output(), item, final(self).step(), final(self).output(), r),
            (forall|n: St, outs: Seq<St::Output>| #[trigger] old(self).step().step_ok(item, n, outs) ==> outs.len() == 0)
                ==> r is Ok,
    {
        let ghost x = item;
        let ghost o0 = self.output;
        let mut outs = self.step.process(item);
        let ghost all = outs@;
        let ghost s1 = self.step;
        proof {
            lemma_sinks_empty(o0, all.take(0));
        }
        let total = outs.len();
        let mut i: usize = 0;
        while outs.len() > 0
            invariant
                all.len() == total,
                self.step == s1,
                self.input == old(self).input,
                old(self).step.step_ok(x, s1, all),
                i <= all.len(),
                outs@ == all.skip(i as int),
                sinks(o0, all.take(i as int), self.output),
                o0 == old(self).output,
            decreases outs@.len(),
        {
            assert(i < all.len());
            let o = outs.remove(0);
            assert(o == all[i as int]);
            let ghost before = self.output;
            let pushed = self.output.push(o);
            match pushed {
                Err(e) => {
                    assert(old(self).step().step_ok(x, self.step(), all));
                    assert(sinks(old(self).output(), all.take(i as int), before));
                    assert(before.refuses(all[i as int], self.output()));
                    assert(0 <= i < all.len());
                    proof {
                        lemma_refused(old(self).step(), old(self).output(), x, self.step(), all, i as int, before, self.output(), e);
                    }
                    return Err(ProcessError::OutputError(e));
                },
                Ok(()) => {},
            }
            proof {
                assert(all.take(i + 1) =~= all.take(i as int).push(o));
                lemma_sinks_push(o0, all.take(i as int), before, o, self.output);
                assert(outs@ =~= all.skip(i + 1));
            }
            i = i + 1;
        }
        assert(all.take(i as int) =~= all);
        assert(old(self).step().step_ok(x, self.step(), all));
        Ok(())
    }

    /// One tick: reads one item from the source and processes it (see
    /// `process_item`); a failed read leaves step and sink untouched.
    pub fn process_once(&mut self) -> (r: Result<(), ProcessError>)
        ensures
            r matches Err(ProcessError::InputError(e)) ==> {
                &&& old(self).input().reads(Err(e), final(self).input())
                &&& final(self).step() == old(self).step()
                &&& final(self).output() == old(self).output()
            },
            !(r matches Err(ProcessError::InputError(_))) ==> exists|x: I::Item|
                #[trigger] old(self).input().reads(Ok(x), final(self).input())
                    && item_processed(old(self).step(), old(self).output(), x, final(self).step(), final(self).output(), r),
    {
        match self.input.read() {
            Ok(item) => {
                let ghost x = item;
                let r = self.process_item(item);
                assert(old(self).input().reads(Ok(x), self.input()));
                r
            },
            Err(e) => Err(ProcessError::InputError(e)),
        }
    }

    pub fn input_mut(&mut self) -> (r: &mut I)
        ensures
            *r == old(self).input(),
            final(self).input() == *final(r),
            final(self).step() == old(self).step(),
            final(self).output() == old(self).output(),
    {
        &mut self.input
    }

    pub fn step_mut(&mut self) -> (r: &mut St)
        ensures
            *r == old(self).step(),
            final(self).step() == *final(r),
            final(self).input() == old(self).input(),
            final(self).output() == old(self).output(),
    {
        &mut self.step
    }
}

/// A step that yields its input unchanged.
pub struct Identity<T>(PhantomData<T>);

impl<T> Identity<T> {
    pub fn new() -> (r: Identity<T>) {
        Identity(PhantomData)
    }
}

impl<T> Step for Identity<T> {
    type Input = T;
    type Output = T;

    open spec fn step_ok(&self, input: T, next: Self, out: Seq<T>) -> bool {
        out == seq![input]
    }

    fn process(&mut self, input: T) -> (r: Vec<T>) {
        let mut r = Vec::new();
        r.push(input);
        assert(r@ =~= seq![input]);
        r
    }
}

/// Two steps in sequence: every output of the first is fed, in order, to
/// the second, and the second's outputs are concatenated.
pub struct Chain<First, Second> {
    first: First,
    second: Second,
}

impl<First: Step, Second: Step<Input = First::Output>> Chain<First, Second> {
    pub closed spec fn first(&self) -> First {
        self.first
    }

    pub closed spec fn second(&self) -> Second {
        self.second
    }

    pub fn new(first: First, second: Second) -> (r: Self)
        ensures
            r.first() == first,
            r.second() == second,
    {
        Chain { first, second }
    }

    pub fn first_mut(&mut self) -> (r: &mut First)
        ensures
            *r == old(self).first(),
            final(self).first() == *final(r),
            final(self).second() == old(self).second(),
    {
        &mut self.first
    }

    pub fn second_mut(&mut self) -> (r: &mut Second)
        ensures
            *r == old(self).second(),
            final(self).second() == *final(r),
            final(self).first() == old(self).first(),
    {
        &mut self.second
    }
}

impl<First: Step, Second: Step<Input = First::Output>> Step for Chain<First, Second> {
    type Input = First::Input;
    type Output = Second::Output;

    open spec fn step_ok(&self, input: First::Input, next: Self, out: Seq<Second::Output>) -> bool {
        exists|mids: Seq<First::Output>|
            #[trigger] self.first().step_ok(input, next.first(), mids)
                && feeds(self.second(), mids, next.second(), out)
    }

    fn process(&mut self, input: First::Input) -> (r: Vec<Second::Output>) {
        let mut mids = self.first.process(input);
        let ghost all = mids@;
        let ghost s0 = self.second;
        let mut out: Vec<Second::Output> = Vec::new();
        proof {
            lemma_feeds_empty(s0, all.take(0), out@);
        }
        let total = mids.len();
        let mut i: usize = 0;
        while mids.len() > 0
            invariant
                all.len() == total,
                i <= all.len(),
                mids@ == all.skip(i as int),
                feeds(s0, all.take(i as int), self.second, out@),
                old(self).first.step_ok(input, self.first, all),
                s0 == old(self).second,
            decreases mids@.len(),
        {
            let m = mids.remove(0);
            let ghost before = self.second;
            let ghost out0 = out@;
            let mut more = self.second.process(m);
            let ghost got = more@;
            out.append(&mut more);
            proof {
                assert(all.take(i + 1) =~= all.take(i as int).push(m));
                lemma_feeds_push(s0, all.take(i as int), before, out0, m, self.second, got);
                assert(mids@ =~= all.skip(i + 1));
            }
            i = i + 1;
        }
        assert(all.take(i as int) =~= all);
        assert(self.first() == self.first);
        assert(old(self).first() == old(self).first);
        out
    }
}

} // verus!
