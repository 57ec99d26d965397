//! The pipeline protocol: the feed contract every stage implements, and the
//! composition of two stages.
//!
//! Contracts are stated over views: a stage's state, inputs and outputs each
//! have a mathematical view (for plain stages the value itself), and the
//! behaviour of a stage is a pure step function over those views.

use vstd::prelude::*;

use crate::errors::DatumErrorId;
use crate::errors::DatumOffset;
use crate::errors::DatumResult;

verus! {

/// What one step of a stage does, at specification level: the state after the
/// step, the outputs emitted (each with the offset it is reported at), and
/// the error signalled, if any.
#[verifier::ext_equal]
pub struct PipeStep<S, O> {
    /// The view of the stage's state after the step.
    pub state: S,
    /// The views of the outputs the step emitted, oldest first.
    pub emitted: Seq<(DatumOffset, O)>,
    /// The error the step signalled, if any. Outputs emitted before the
    /// error stay emitted.
    pub error: Option<DatumErrorId>,
}

/// The view of an optional input unit.
pub open spec fn opt_view<T: View>(i: Option<T>) -> Option<<T as View>::V> {
    match i {
        Some(v) => Some(v@),
        None => None,
    }
}

/// The views of emitted (offset, output) pairs.
pub open spec fn emitted_views<O: View>(s: Seq<(DatumOffset, O)>) -> Seq<
    (DatumOffset, <O as View>::V),
> {
    s.map_values(|p: (DatumOffset, O)| (p.0, p.1@))
}

/// The views of a sequence of values.
pub open spec fn value_views<O: View>(s: Seq<O>) -> Seq<<O as View>::V> {
    s.map_values(|v: O| v@)
}

/// Generic "feed an input unit, get output units" stage.
///
/// Feeding `None` signals end of input; a stage may still emit output or an
/// error in response. Offsets are caller-assigned and never reinterpreted; a
/// stage that buffers reports the offset at which the emitted construct
/// began, which may be earlier than the offset of the triggering input.
///
/// Every implementation is a pure state machine: what `feed` does is exactly
/// [`DatumPipe::pipe_step`] of the state's view and the input's view, so the
/// outcome of a parse does not depend on how the caller chunks its input
/// (see [`lemma_pipe_run_concat`]).
pub trait DatumPipe: Sized + View {
    /// Input unit.
    type Input: View;

    /// Output unit.
    type Output: View;

    /// The pure step function this stage implements: given the view of the
    /// state before the step, the offset, and the view of the input unit (or
    /// `None` for end of input), the state after, the emitted outputs, and
    /// the error, if any.
    spec fn pipe_step(
        pre: Self::V,
        at: DatumOffset,
        i: Option<<Self::Input as View>::V>,
    ) -> PipeStep<Self::V, <Self::Output as View>::V>;

    /// Feeds one input unit, or `None` for end of input. Emitted outputs are
    /// appended to `out` with the offsets they are reported at.
    fn feed(&mut self, at: DatumOffset, i: Option<Self::Input>, out: &mut Vec<
        (DatumOffset, Self::Output),
    >) -> (r: DatumResult<()>)
        ensures
            ({
                let step = Self::pipe_step(old(self)@, at, opt_view(i));
                &&& final(self)@ == step.state
                &&& emitted_views(final(out)@) == emitted_views(old(out)@) + step.emitted
                &&& match r {
                    Ok(()) => step.error is None,
                    Err(e) => step.error == Some(e.id()),
                }
            }),
    ;
}

/// A stage with bounded transient output fan-out: one step emits at most
/// [`DatumBoundedPipe::max_outputs_per_step`] outputs, whatever the state and
/// input. Composition loses the bound, since the second stage runs once per
/// output of the first; this is for running a stage with a fixed-size output
/// buffer.
pub trait DatumBoundedPipe: DatumPipe {
    /// The most outputs one step can emit.
    spec fn max_outputs_per_step() -> nat;

    /// Proof that no step emits more than
    /// [`DatumBoundedPipe::max_outputs_per_step`] outputs.
    proof fn lemma_output_bounded(
        pre: Self::V,
        at: DatumOffset,
        i: Option<<Self::Input as View>::V>,
    )
        ensures
            Self::pipe_step(pre, at, i).emitted.len() <= Self::max_outputs_per_step(),
    ;
}

/// The outcome of feeding a sequence of input units (each with its offset,
/// `None` meaning end of input) to a stage, stopping at the first error:
/// the fold of [`DatumPipe::pipe_step`] over the sequence.
pub open spec fn pipe_run<P: DatumPipe>(
    p: P::V,
    inputs: Seq<(DatumOffset, Option<<P::Input as View>::V>)>,
) -> PipeStep<P::V, <P::Output as View>::V>
    decreases inputs.len(),
{
    if inputs.len() == 0 {
        PipeStep { state: p, emitted: Seq::empty(), error: None }
    } else {
        let first = P::pipe_step(p, inputs[0].0, inputs[0].1);
        if first.error is Some {
            first
        } else {
            let rest = pipe_run::<P>(first.state, inputs.drop_first());
            PipeStep {
                state: rest.state,
                emitted: first.emitted + rest.emitted,
                error: rest.error,
            }
        }
    }
}

/// Extending an error-free run by one input is one more step.
pub proof fn lemma_pipe_run_push<P: DatumPipe>(
    p: P::V,
    inputs: Seq<(DatumOffset, Option<<P::Input as View>::V>)>,
    one: (DatumOffset, Option<<P::Input as View>::V>),
)
    requires
        pipe_run::<P>(p, inputs).error is None,
    ensures
        ({
            let base = pipe_run::<P>(p, inputs);
            let next = P::pipe_step(base.state, one.0, one.1);
            let whole = pipe_run::<P>(p, inputs.push(one));
            &&& whole.state == next.state
            &&& whole.emitted == base.emitted + next.emitted
            &&& whole.error == next.error
        }),
    decreases inputs.len(),
{
    reveal_with_fuel(pipe_run, 3);
    let base = pipe_run::<P>(p, inputs);
    let next = P::pipe_step(base.state, one.0, one.1);
    let whole = pipe_run::<P>(p, inputs.push(one));
    if inputs.len() == 0 {
        assert(inputs.push(one).drop_first() =~= inputs);
        assert(inputs.push(one)[0] == one);
        assert(whole.emitted =~= base.emitted + next.emitted);
    } else {
        let first = P::pipe_step(p, inputs[0].0, inputs[0].1);
        assert(inputs.push(one)[0] == inputs[0]);
        assert(inputs.push(one).drop_first() =~= inputs.drop_first().push(one));
        lemma_pipe_run_push::<P>(first.state, inputs.drop_first(), one);
        assert(whole.emitted =~= base.emitted + next.emitted);
    }
}

/// Streaming equivalence: however the input is split, feeding the parts in
/// order gives the same states, the same outputs, and the same error as
/// feeding the whole. Stated for a split into two; any chunking follows by
/// repetition.
pub proof fn lemma_pipe_run_concat<P: DatumPipe>(
    p: P::V,
    a: Seq<(DatumOffset, Option<<P::Input as View>::V>)>,
    b: Seq<(DatumOffset, Option<<P::Input as View>::V>)>,
)
    requires
        pipe_run::<P>(p, a).error is None,
    ensures
        ({
            let first = pipe_run::<P>(p, a);
            let second = pipe_run::<P>(first.state, b);
            let whole = pipe_run::<P>(p, a + b);
            &&& whole.state == second.state
            &&& whole.emitted == first.emitted + second.emitted
            &&& whole.error == second.error
        }),
    decreases a.len(),
{
    reveal_with_fuel(pipe_run, 3);
    let first = pipe_run::<P>(p, a);
    let second = pipe_run::<P>(first.state, b);
    let whole = pipe_run::<P>(p, a + b);
    if a.len() == 0 {
        assert(a + b =~= b);
        assert(whole.emitted =~= first.emitted + second.emitted);
    } else {
        let head = P::pipe_step(p, a[0].0, a[0].1);
        assert((a + b)[0] == a[0]);
        assert((a + b).drop_first() =~= a.drop_first() + b);
        lemma_pipe_run_concat::<P>(head.state, a.drop_first(), b);
        assert(whole.emitted =~= first.emitted + second.emitted);
    }
}

/// When a run's prefix is error-free and the step after it errors, the whole
/// run is that prefix followed by the failing step.
pub proof fn lemma_run_stops_at_error<P: DatumPipe>(
    p: P::V,
    inputs: Seq<(DatumOffset, Option<<P::Input as View>::V>)>,
    n: int,
)
    requires
        0 <= n < inputs.len(),
        pipe_run::<P>(p, inputs.take(n)).error is None,
        P::pipe_step(pipe_run::<P>(p, inputs.take(n)).state, inputs[n].0, inputs[n].1).error
            is Some,
    ensures
        ({
            let base = pipe_run::<P>(p, inputs.take(n));
            let stepped = P::pipe_step(base.state, inputs[n].0, inputs[n].1);
            let whole = pipe_run::<P>(p, inputs);
            &&& whole.state == stepped.state
            &&& whole.emitted == base.emitted + stepped.emitted
            &&& whole.error == stepped.error
        }),
{
    let base = pipe_run::<P>(p, inputs.take(n));
    let stepped = P::pipe_step(base.state, inputs[n].0, inputs[n].1);
    lemma_pipe_run_concat::<P>(p, inputs.take(n), inputs.skip(n));
    assert(inputs.take(n) + inputs.skip(n) =~= inputs);
    reveal_with_fuel(pipe_run, 2);
    assert(inputs.skip(n)[0] == inputs[n]);
    assert(pipe_run::<P>(base.state, inputs.skip(n)) == stepped);
}

/// Views distribute over dropping the first element.
proof fn lemma_value_views_drop_first<T: View>(s: Seq<T>)
    requires
        s.len() > 0,
    ensures
        value_views(s.drop_first()) == value_views(s).drop_first(),
{
    assert(value_views(s.drop_first()) =~= value_views(s).drop_first());
}

/// Views distribute over concatenation.
proof fn lemma_value_views_concat<T: View>(a: Seq<T>, b: Seq<T>)
    ensures
        value_views(a + b) == value_views(a) + value_views(b),
{
    assert(value_views(a + b) =~= value_views(a) + value_views(b));
}

/// Views of emitted pairs distribute over dropping the first element.
proof fn lemma_emitted_views_drop_first<O: View>(s: Seq<(DatumOffset, O)>)
    requires
        s.len() > 0,
    ensures
        emitted_views(s.drop_first()) == emitted_views(s).drop_first(),
{
    assert(emitted_views(s.drop_first()) =~= emitted_views(s).drop_first());
}

/// Taking the values of emitted pairs commutes with taking views.
proof fn lemma_pair_value_views<O: View>(pairs: Seq<(DatumOffset, O)>)
    ensures
        value_views(pairs.map_values(|p: (DatumOffset, O)| p.1)) == emitted_views(
            pairs,
        ).map_values(|p: (DatumOffset, <O as View>::V)| p.1),
{
    assert(value_views(pairs.map_values(|p: (DatumOffset, O)| p.1)) =~= emitted_views(
        pairs,
    ).map_values(|p: (DatumOffset, <O as View>::V)| p.1));
}

/// The inputs that [`feed_iter_to_vec`] feeds: each element at its index as
/// offset, then end of input if `eof` is set.
pub open spec fn enumerate_inputs<I>(items: Seq<I>, eof: bool) -> Seq<(DatumOffset, Option<I>)> {
    let fed = Seq::new(items.len(), |k: int| (k as DatumOffset, Some(items[k])));
    if eof {
        fed.push((items.len() as DatumOffset, None))
    } else {
        fed
    }
}

/// Feeds every element of `source` in order, with offsets starting from 0
/// and increasing by 1, then end of input when `eof` is set. Output values
/// are appended to `target`, their offsets dropped.
pub fn feed_iter_to_vec<P: DatumPipe>(
    pipe: &mut P,
    target: &mut Vec<P::Output>,
    source: Vec<P::Input>,
    eof: bool,
) -> (r: DatumResult<()>)
    requires
        source@.len() < 0xffff_ffff_ffff_ffff,
    ensures
        ({
            let run = pipe_run::<P>(old(pipe)@, enumerate_inputs(value_views(source@), eof));
            &&& final(pipe)@ == run.state
            &&& value_views(final(target)@) == value_views(old(target)@) + run.emitted.map_values(
                |p: (DatumOffset, <P::Output as View>::V)| p.1,
            )
            &&& match r {
                Ok(()) => run.error is None,
                Err(e) => run.error == Some(e.id()),
            }
        }),
{
    let ghost orig = value_views(source@);
    let ghost inputs = enumerate_inputs(orig, eof);
    let mut src = source;
    let mut offset: DatumOffset = 0;
    while src.len() > 0
        invariant
            offset + src@.len() == orig.len(),
            value_views(src@) == orig.skip(offset as int),
            orig.len() < 0xffff_ffff_ffff_ffff,
            inputs == enumerate_inputs(orig, eof),
            orig == value_views(source@),
            pipe_run::<P>(old(pipe)@, inputs.take(offset as int)).error is None,
            pipe@ == pipe_run::<P>(old(pipe)@, inputs.take(offset as int)).state,
            value_views(target@) == value_views(old(target)@) + pipe_run::<P>(
                old(pipe)@,
                inputs.take(offset as int),
            ).emitted.map_values(|p: (DatumOffset, <P::Output as View>::V)| p.1),
        decreases src@.len(),
    {
        let ghost done = inputs.take(offset as int);
        let ghost pre_run = pipe_run::<P>(old(pipe)@, done);
        let ghost pre_src = src@;
        let v = src.remove(0);
        let mut tmp: Vec<(DatumOffset, P::Output)> = Vec::new();
        let res = pipe.feed(offset, Some(v), &mut tmp);
        let ghost stepped = P::pipe_step(pre_run.state, offset, Some(v@));
        proof {
            assert(value_views(pre_src)[0] == v@);
            assert(v@ == orig[offset as int]);
            assert(src@ =~= pre_src.drop_first());
            lemma_value_views_drop_first(pre_src);
            assert(value_views(src@) =~= orig.skip(offset as int + 1));
            assert(emitted_views(tmp@) =~= stepped.emitted);
            lemma_pipe_run_push::<P>(old(pipe)@, done, (offset, Some(v@)));
            assert(done.push((offset, Some(v@))) =~= inputs.take(offset as int + 1));
        }
        let ghost pre_target = target@;
        drain_values(target, tmp);
        proof {
            lemma_value_views_concat(pre_target, tmp@.map_values(|p: (DatumOffset, P::Output)| p.1));
            lemma_pair_value_views(tmp@);
        }
        if let Err(e) = res {
            proof {
                assert(inputs[offset as int] == (offset, Some(v@)));
                lemma_run_stops_at_error::<P>(old(pipe)@, inputs, offset as int);
                assert(value_views(target@) =~= value_views(old(target)@) + pipe_run::<P>(
                    old(pipe)@,
                    inputs,
                ).emitted.map_values(|p: (DatumOffset, <P::Output as View>::V)| p.1));
            }
            return Err(e);
        }
        offset = offset + 1;
        proof {
            assert(value_views(target@) =~= value_views(old(target)@) + pipe_run::<P>(
                old(pipe)@,
                inputs.take(offset as int),
            ).emitted.map_values(|p: (DatumOffset, <P::Output as View>::V)| p.1));
        }
    }
    let ghost done = inputs.take(offset as int);
    if eof {
        let ghost pre_run = pipe_run::<P>(old(pipe)@, done);
        let mut tmp: Vec<(DatumOffset, P::Output)> = Vec::new();
        let res = pipe.feed(offset, None, &mut tmp);
        proof {
            lemma_pipe_run_push::<P>(old(pipe)@, done, (offset, None));
            assert(done.push((offset, None)) =~= inputs);
            assert(emitted_views(tmp@) =~= P::pipe_step(pre_run.state, offset, None).emitted);
        }
        let ghost pre_target = target@;
        drain_values(target, tmp);
        proof {
            lemma_value_views_concat(pre_target, tmp@.map_values(|p: (DatumOffset, P::Output)| p.1));
            lemma_pair_value_views(tmp@);
            assert(value_views(target@) =~= value_views(old(target)@) + pipe_run::<P>(
                old(pipe)@,
                inputs,
            ).emitted.map_values(|p: (DatumOffset, <P::Output as View>::V)| p.1));
        }
        return res;
    }
    proof {
        assert(done =~= inputs);
    }
    Ok(())
}

/// Appends the value of each (offset, value) pair to `target`.
fn drain_values<O>(target: &mut Vec<O>, pairs: Vec<(DatumOffset, O)>)
    ensures
        final(target)@ == old(target)@ + pairs@.map_values(|p: (DatumOffset, O)| p.1),
{
    let ghost all = pairs@;
    let mut pairs = pairs;
    while pairs.len() > 0
        invariant
            all.skip(all.len() - pairs@.len()) == pairs@,
            pairs@.len() <= all.len(),
            target@ == old(target)@ + all.take(all.len() - pairs@.len()).map_values(
                |p: (DatumOffset, O)| p.1,
            ),
        decreases pairs@.len(),
    {
        let ghost moved = all.len() - pairs@.len();
        let item = pairs.remove(0);
        target.push(item.1);
        proof {
            assert(item == all[moved]);
            assert(all.skip(moved + 1) =~= pairs@);
            assert(all.take(moved + 1) =~= all.take(moved).push(all[moved]));
            assert(all.take(moved + 1).map_values(|p: (DatumOffset, O)| p.1) =~= all.take(
                moved,
            ).map_values(|p: (DatumOffset, O)| p.1).push(item.1));
        }
    }
    proof {
        assert(all.take(all.len() as int) =~= all);
    }
}

/// Composed pipe: stage `A` feeding stage `B`. Outputs of `A` are handed to
/// `B` in order; on end of input, `B` receives end of input only after `A`'s
/// own end-of-input handling completes. Errors from either stage
/// short-circuit the composed call, with `B`'s error taking precedence when
/// both stages fail on the same input unit.
#[derive(Clone, Copy, PartialEq, Eq, Debug)]
pub struct DatumComposePipe<A: DatumPipe, B: DatumPipe<Input = A::Output>>(pub A, pub B);

impl<A: DatumPipe, B: DatumPipe<Input = A::Output>> View for DatumComposePipe<A, B> {
    type V = (A::V, B::V);

    open spec fn view(&self) -> (A::V, B::V) {
        (self.0@, self.1@)
    }
}

impl<A: DatumPipe, B: DatumPipe<Input = A::Output>> DatumPipe for DatumComposePipe<A, B> {
    type Input = A::Input;

    type Output = B::Output;

    open spec fn pipe_step(
        pre: (A::V, B::V),
        at: DatumOffset,
        i: Option<<A::Input as View>::V>,
    ) -> PipeStep<(A::V, B::V), <B::Output as View>::V> {
        let sa = A::pipe_step(pre.0, at, i);
        let rb = pipe_run::<B>(
            pre.1,
            sa.emitted.map_values(|p: (DatumOffset, <A::Output as View>::V)| (p.0, Some(p.1))),
        );
        if rb.error is Some {
            PipeStep { state: (sa.state, rb.state), emitted: rb.emitted, error: rb.error }
        } else if sa.error is Some {
            PipeStep { state: (sa.state, rb.state), emitted: rb.emitted, error: sa.error }
        } else if i is None {
            let re = B::pipe_step(rb.state, at, None);
            PipeStep {
                state: (sa.state, re.state),
                emitted: rb.emitted + re.emitted,
                error: re.error,
            }
        } else {
            PipeStep { state: (sa.state, rb.state), emitted: rb.emitted, error: None }
        }
    }

    fn feed(&mut self, at: DatumOffset, i: Option<A::Input>, out: &mut Vec<
        (DatumOffset, B::Output),
    >) -> (r: DatumResult<()>) {
        let was_none = i.is_none();
        let ghost sa = A::pipe_step(old(self).0@, at, opt_view(i));
        let ghost b_pre = self.1@;
        let ghost b_inputs = sa.emitted.map_values(
            |p: (DatumOffset, <A::Output as View>::V)| (p.0, Some(p.1)),
        );
        let mut mid: Vec<(DatumOffset, A::Output)> = Vec::new();
        let res_a = self.0.feed(at, i, &mut mid);
        proof {
            assert(emitted_views(mid@) =~= sa.emitted);
        }
        while mid.len() > 0
            invariant
                sa == A::pipe_step(old(self).0@, at, opt_view(i)),
                b_pre == old(self).1@,
                b_inputs == sa.emitted.map_values(
                    |p: (DatumOffset, <A::Output as View>::V)| (p.0, Some(p.1)),
                ),
                mid@.len() <= sa.emitted.len(),
                emitted_views(mid@) == sa.emitted.skip(sa.emitted.len() - mid@.len()),
                self.0@ == sa.state,
                pipe_run::<B>(b_pre, b_inputs.take(sa.emitted.len() - mid@.len())).error is None,
                self.1@ == pipe_run::<B>(b_pre, b_inputs.take(sa.emitted.len() - mid@.len())).state,
                emitted_views(out@) == emitted_views(old(out)@) + pipe_run::<B>(
                    b_pre,
                    b_inputs.take(sa.emitted.len() - mid@.len()),
                ).emitted,
            decreases mid@.len(),
        {
            let ghost k = sa.emitted.len() - mid@.len();
            let ghost pre_mid = mid@;
            let item = mid.remove(0);
            proof {
                assert(emitted_views(pre_mid)[0] == (item.0, item.1@));
                assert((item.0, item.1@) == sa.emitted[k]);
                assert(b_inputs[k] == (item.0, Some(item.1@)));
                assert(mid@ =~= pre_mid.drop_first());
                lemma_emitted_views_drop_first(pre_mid);
                assert(emitted_views(mid@) =~= sa.emitted.skip(sa.emitted.len() - mid@.len()));
            }
            let res_b = self.1.feed(item.0, Some(item.1), out);
            proof {
                lemma_pipe_run_push::<B>(b_pre, b_inputs.take(k), (item.0, Some(item.1@)));
                assert(b_inputs.take(k).push(b_inputs[k]) =~= b_inputs.take(k + 1));
            }
            if let Err(e) = res_b {
                proof {
                    lemma_run_stops_at_error::<B>(b_pre, b_inputs, k);
                    assert(emitted_views(out@) =~= emitted_views(old(out)@) + Self::pipe_step(
                        old(self)@,
                        at,
                        opt_view(i),
                    ).emitted);
                }
                return Err(e);
            }
        }
        proof {
            assert(b_inputs.take(sa.emitted.len() as int) =~= b_inputs);
        }
        if let Err(ea) = res_a {
            proof {
                assert(emitted_views(out@) =~= emitted_views(old(out)@) + Self::pipe_step(
                    old(self)@,
                    at,
                    opt_view(i),
                ).emitted);
            }
            return Err(ea);
        }
        if was_none {
            let res_e = self.1.feed(at, None, out);
            proof {
                assert(emitted_views(out@) =~= emitted_views(old(out)@) + Self::pipe_step(
                    old(self)@,
                    at,
                    opt_view(i),
                ).emitted);
            }
            return res_e;
        }
        proof {
            assert(emitted_views(out@) =~= emitted_views(old(out)@) + Self::pipe_step(
                old(self)@,
                at,
                opt_view(i),
            ).emitted);
        }
        Ok(())
    }
}

} // verus!
