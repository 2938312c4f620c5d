//! The trend of a measure over a sliding window of its last values.

use std::collections::VecDeque;

use vstd::prelude::*;

use crate::measure::Measure;

verus! {

/// What the slope over the window says.
#[derive(Debug, Clone, Copy, PartialEq, Eq, Structural)]
pub enum Trend {
    /// The slope is clearly positive.
    Improving,
    /// The slope is close to zero.
    Plateau,
    /// The slope is clearly negative.
    Diverging,
}

/// A detector over the last `window` values.
#[derive(Debug)]
pub struct ConvergenceDetector {
    window: usize,
    buf: VecDeque<Measure>,
}

/// The last `n` items, or all where there are fewer.
pub open spec fn last_of(s: Seq<Measure>, n: nat) -> Seq<Measure> {
    if s.len() <= n {
        s
    } else {
        s.subrange(s.len() - n, s.len() as int)
    }
}

/// The trend that a slope shows against a threshold.
pub open spec fn trend_of(slope: Measure, eps: Measure) -> Trend {
    if eps.below(slope) {
        Trend::Improving
    } else if slope.below(eps.opposite()) {
        Trend::Diverging
    } else {
        Trend::Plateau
    }
}

impl ConvergenceDetector {
    pub closed spec fn width(&self) -> nat {
        self.window as nat
    }

    pub closed spec fn values(&self) -> Seq<Measure> {
        self.buf@
    }

    #[verifier::type_invariant]
    spec fn inv(self) -> bool {
        &&& self.window >= 2
        &&& self.buf@.len() <= self.window
    }

    /// A detector over `window` values, and over two where fewer are asked for.
    pub fn new(window: usize) -> (r: Self)
        ensures
            r.values() == Seq::<Measure>::empty(),
            r.width() == (if window < 2 {
                2
            } else {
                window as int
            }),
    {
        let buf: VecDeque<Measure> = VecDeque::new();
        ConvergenceDetector { window: if window < 2 { 2 } else { window }, buf }
    }

    /// Adds a value; the oldest leaves a full window.
    pub fn push(&mut self, value: Measure)
        ensures
            final(self).width() == old(self).width(),
            final(self).values() == last_of(old(self).values().push(value), old(self).width()),
    {
        proof {
            use_type_invariant(&*self);
        }
        let mut buf: VecDeque<Measure> = VecDeque::new();
        std::mem::swap(&mut buf, &mut self.buf);
        let ghost before = buf@;
        if buf.len() == self.window {
            let _ = buf.pop_front();
        }
        buf.push_back(value);
        assert(buf@ =~= last_of(before.push(value), self.window as nat));
        self.buf = buf;
    }

    /// The window is full.
    pub fn filled(&self) -> (r: bool)
        ensures
            r == (self.values().len() >= self.width()),
    {
        self.buf.len() >= self.window
    }

    pub fn len(&self) -> (r: usize)
        ensures
            r == self.values().len(),
    {
        self.buf.len()
    }

    /// The `i`-th value, the oldest first.
    pub fn value_at(&self, i: usize) -> (r: Measure)
        requires
            i < self.values().len(),
        ensures
            r == self.values()[i as int],
    {
        self.buf[i]
    }

    /// The trend, from the slope of the values of the window.
    pub fn trend(&self, slope: &Measure, eps: &Measure) -> (r: Trend)
        ensures
            r == trend_of(*slope, *eps),
    {
        if eps.is_below(slope) {
            Trend::Improving
        } else if slope.is_below(&eps.negated()) {
            Trend::Diverging
        } else {
            Trend::Plateau
        }
    }
}

/// What the window holds after a run of values: the last of them, as many as it holds.
pub open spec fn after_all(start: Seq<Measure>, values: Seq<Measure>, width: nat) -> Seq<Measure>
    decreases values.len(),
{
    if values.len() == 0 {
        start
    } else {
        last_of(after_all(start, values.drop_last(), width).push(values.last()), width)
    }
}

/// The window slides: after any run of values it holds exactly the last of them.
pub proof fn law_window_holds_the_last_values(values: Seq<Measure>, width: nat)
    requires
        width >= 2,
    ensures
        after_all(Seq::<Measure>::empty(), values, width) == last_of(values, width),
    decreases values.len(),
{
    if values.len() > 0 {
        let front = values.drop_last();
        law_window_holds_the_last_values(front, width);
        assert(front.push(values.last()) =~= values);
        assert(last_of(last_of(front, width).push(values.last()), width) =~= last_of(values, width));
    } else {
        assert(last_of(values, width) =~= Seq::<Measure>::empty());
    }
}

/// A slope cannot show both an improvement and a divergence: where it is above a
/// threshold that is not negative, it is not below the opposite of that threshold.
pub proof fn law_trends_exclude_each_other(slope: Measure, eps: Measure)
    requires
        eps.reaches((Measure { bits: 0 })),
    ensures
        !(eps.below(slope) && slope.below(eps.opposite())),
{
}

/// What a window keeps is the end of what it was given, whole where that is short enough.
pub proof fn law_window_keeps_the_end(before: Seq<Measure>, kept: Seq<Measure>)
    ensures
        last_of(before + kept, kept.len()) == kept,
        last_of(kept, kept.len() + before.len()) == kept,
{
    assert(last_of(before + kept, kept.len()) =~= kept);
}

/// A slope improves exactly above the threshold, diverges exactly below its opposite unless
/// it improves, and is flat otherwise; so a slope and its opposite never go the same way
/// but flat.
pub proof fn law_trends(slope: Measure, eps: Measure)
    requires
        eps.rank() >= 0,
        !eps.nan(),
    ensures
        trend_of(slope, eps) is Improving <==> !slope.nan() && slope.rank() > eps.rank(),
        trend_of(slope, eps) is Diverging <==> !slope.nan() && slope.rank() < -eps.rank(),
        trend_of(slope, eps) is Improving <==> trend_of(slope.opposite(), eps) is Diverging,
        trend_of(slope, eps) is Plateau <==> trend_of(slope.opposite(), eps) is Plateau,
{
}

} // verus!
