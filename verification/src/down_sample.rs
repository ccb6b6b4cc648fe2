//! The fractional-rate downsampler.
//!
//! For each input sample the error accumulator grows by `out_rate`; when it
//! reaches `in_rate` the sample is emitted and the accumulator is reduced by
//! `in_rate`.  This is the original scheme (grow by one, emit at
//! `in_rate / out_rate`) with both sides multiplied by `out_rate`, which
//! makes every step exact.  The carried residue makes the per-buffer output
//! count vary, but the average output rate converges to `out_rate`.

use vstd::prelude::*;

verus! {

use vstd::arithmetic::div_mod::{
    lemma_basic_div, lemma_div_minus_one, lemma_fundamental_div_mod,
};
use vstd::arithmetic::mul::lemma_mul_is_distributive_sub_other_way;

/// Streaming downsampler state.
#[derive(Clone, Copy, Debug, PartialEq, Eq, Structural)]
pub struct DownSample {
    /// Input sample rate in Hz.
    pub in_rate: u32,
    /// Output sample rate in Hz; at most `in_rate`.
    pub out_rate: u32,
    /// Error accumulator in units of `1 / (in_rate * out_rate)` seconds;
    /// always below `in_rate`.
    pub acc: u64,
}

impl DownSample {
    /// The state invariant: valid rates and a residue below one input step.
    pub open spec fn wf(self) -> bool {
        &&& 1 <= self.out_rate <= self.in_rate
        &&& self.acc < self.in_rate
    }

    pub fn new(in_sample_rate: u32, out_sample_rate: u32) -> (r: DownSample)
        requires
            1 <= out_sample_rate <= in_sample_rate,
        ensures
            r == (DownSample { in_rate: in_sample_rate, out_rate: out_sample_rate, acc: 0u64 }),
            r.wf(),
    {
        DownSample { in_rate: in_sample_rate, out_rate: out_sample_rate, acc: 0 }
    }

    /// Account one input sample; true when that sample is to be emitted.
    pub fn step(&mut self) -> (emit: bool)
        requires
            old(self).wf(),
        ensures
            final(self).wf(),
            final(self).in_rate == old(self).in_rate,
            final(self).out_rate == old(self).out_rate,
            emit == ds_emit(
                old(self).in_rate as int,
                old(self).out_rate as int,
                old(self).acc as int,
            ),
            final(self).acc == ds_step_acc(
                old(self).in_rate as int,
                old(self).out_rate as int,
                old(self).acc as int,
            ),
    {
        let grown = self.acc + self.out_rate as u64;
        if grown >= self.in_rate as u64 {
            self.acc = grown - self.in_rate as u64;
            true
        } else {
            self.acc = grown;
            false
        }
    }

    /// Downsample one buffer, carrying the residue across calls.
    pub fn process<T: Copy>(&mut self, input: &Vec<T>) -> (out: Vec<T>)
        requires
            old(self).wf(),
        ensures
            final(self).wf(),
            final(self).in_rate == old(self).in_rate,
            final(self).out_rate == old(self).out_rate,
            final(self).acc == ds_run(
                old(self).in_rate as int,
                old(self).out_rate as int,
                old(self).acc as int,
                input@,
            ).0,
            out@ == ds_run(
                old(self).in_rate as int,
                old(self).out_rate as int,
                old(self).acc as int,
                input@,
            ).1,
    {
        let ghost in_rate = self.in_rate as int;
        let ghost out_rate = self.out_rate as int;
        let ghost acc0 = self.acc as int;
        let mut out: Vec<T> = Vec::new();
        let mut i: usize = 0;
        while i < input.len()
            invariant
                i <= input@.len(),
                self.wf(),
                in_rate == self.in_rate as int,
                out_rate == self.out_rate as int,
                0 <= acc0 < in_rate,
                self.acc == ds_run(in_rate, out_rate, acc0, input@.take(i as int)).0,
                out@ == ds_run(in_rate, out_rate, acc0, input@.take(i as int)).1,
            decreases input@.len() - i,
        {
            proof {
                lemma_ds_run_snoc(in_rate, out_rate, acc0, input@.take(i as int), input@[i as int]);
                assert(input@.take(i as int).push(input@[i as int]) =~= input@.take(i + 1));
            }
            let x = input[i];
            if self.step() {
                out.push(x);
            }
            i = i + 1;
        }
        proof {
            assert(input@.take(input@.len() as int) =~= input@);
        }
        out
    }
}

/// Whether the sample seen at residue `acc` is emitted.
pub open spec fn ds_emit(in_rate: int, out_rate: int, acc: int) -> bool {
    acc + out_rate >= in_rate
}

/// The residue after one input sample seen at residue `acc`.
pub open spec fn ds_step_acc(in_rate: int, out_rate: int, acc: int) -> int {
    if acc + out_rate >= in_rate {
        acc + out_rate - in_rate
    } else {
        acc + out_rate
    }
}

/// The residue and output sequence after feeding `s` through a downsampler
/// whose residue starts at `acc`.
pub open spec fn ds_run<T>(in_rate: int, out_rate: int, acc: int, s: Seq<T>) -> (int, Seq<T>)
    decreases s.len(),
{
    if s.len() == 0 {
        (acc, Seq::empty())
    } else {
        let acc1 = ds_step_acc(in_rate, out_rate, acc);
        let rest = ds_run(in_rate, out_rate, acc1, s.drop_first());
        if ds_emit(in_rate, out_rate, acc) {
            (rest.0, seq![s[0]] + rest.1)
        } else {
            (rest.0, rest.1)
        }
    }
}

/// Feeding a concatenation equals feeding both parts in turn.
pub proof fn lemma_ds_run_concat<T>(in_rate: int, out_rate: int, acc: int, a: Seq<T>, b: Seq<T>)
    ensures
        ds_run(in_rate, out_rate, acc, a + b).0 == ds_run(
            in_rate,
            out_rate,
            ds_run(in_rate, out_rate, acc, a).0,
            b,
        ).0,
        ds_run(in_rate, out_rate, acc, a + b).1 == ds_run(in_rate, out_rate, acc, a).1 + ds_run(
            in_rate,
            out_rate,
            ds_run(in_rate, out_rate, acc, a).0,
            b,
        ).1,
    decreases a.len(),
{
    if a.len() == 0 {
        assert(a + b =~= b);
        assert(ds_run(in_rate, out_rate, acc, a).1 + ds_run(in_rate, out_rate, acc, b).1 =~= ds_run(
            in_rate,
            out_rate,
            acc,
            b,
        ).1);
    } else {
        let acc1 = ds_step_acc(in_rate, out_rate, acc);
        assert((a + b).drop_first() =~= a.drop_first() + b);
        lemma_ds_run_concat(in_rate, out_rate, acc1, a.drop_first(), b);
        if ds_emit(in_rate, out_rate, acc) {
            assert(seq![a[0]] + (ds_run(in_rate, out_rate, acc1, a.drop_first()).1 + ds_run(
                in_rate,
                out_rate,
                ds_run(in_rate, out_rate, acc1, a.drop_first()).0,
                b,
            ).1) =~= (seq![a[0]] + ds_run(in_rate, out_rate, acc1, a.drop_first()).1) + ds_run(
                in_rate,
                out_rate,
                ds_run(in_rate, out_rate, acc1, a.drop_first()).0,
                b,
            ).1);
        }
    }
}

/// Feeding one more sample equals feeding the prefix, then stepping once.
pub proof fn lemma_ds_run_snoc<T>(in_rate: int, out_rate: int, acc: int, s: Seq<T>, x: T)
    ensures
        ds_run(in_rate, out_rate, acc, s.push(x)).0 == ds_step_acc(
            in_rate,
            out_rate,
            ds_run(in_rate, out_rate, acc, s).0,
        ),
        ds_run(in_rate, out_rate, acc, s.push(x)).1 == if ds_emit(
            in_rate,
            out_rate,
            ds_run(in_rate, out_rate, acc, s).0,
        ) {
            ds_run(in_rate, out_rate, acc, s).1.push(x)
        } else {
            ds_run(in_rate, out_rate, acc, s).1
        },
{
    let tail = ds_run(in_rate, out_rate, acc, s);
    lemma_ds_run_concat(in_rate, out_rate, acc, s, seq![x]);
    assert(s.push(x) =~= s + seq![x]);
    let acc1 = ds_step_acc(in_rate, out_rate, tail.0);
    assert(seq![x].drop_first() =~= Seq::<T>::empty());
    assert(ds_run(in_rate, out_rate, acc1, Seq::<T>::empty()) == (acc1, Seq::<T>::empty()));
    if ds_emit(in_rate, out_rate, tail.0) {
        assert(ds_run(in_rate, out_rate, tail.0, seq![x]).1 =~= seq![x]);
        assert(tail.1 + seq![x] =~= tail.1.push(x));
    } else {
        assert(ds_run(in_rate, out_rate, tail.0, seq![x]).1 =~= Seq::<T>::empty());
        assert(tail.1 + Seq::<T>::empty() =~= tail.1);
    }
}

/// The residue stays in range, and the output count is exactly
/// `(acc + len * out_rate) / in_rate`.
pub proof fn lemma_ds_run_count<T>(in_rate: int, out_rate: int, acc: int, s: Seq<T>)
    requires
        1 <= out_rate <= in_rate,
        0 <= acc < in_rate,
    ensures
        0 <= ds_run(in_rate, out_rate, acc, s).0 < in_rate,
        ds_run(in_rate, out_rate, acc, s).1.len() == (acc + s.len() * out_rate) / in_rate,
        ds_run(in_rate, out_rate, acc, s).1.len() <= s.len(),
    decreases s.len(),
{
    if s.len() == 0 {
        lemma_basic_div(acc, in_rate);
    } else {
        let acc1 = ds_step_acc(in_rate, out_rate, acc);
        lemma_ds_run_count(in_rate, out_rate, acc1, s.drop_first());
        assert((s.len() - 1) * out_rate == s.len() * out_rate - out_rate) by {
            lemma_mul_is_distributive_sub_other_way(out_rate, s.len() as int, 1);
        }
        if ds_emit(in_rate, out_rate, acc) {
            lemma_div_minus_one(acc + s.len() * out_rate, in_rate);
        }
    }
}

/// Every emitted value is one of the input values, so a bound on the input
/// bounds the output.
pub proof fn lemma_ds_run_bounded(in_rate: int, out_rate: int, acc: int, s: Seq<i64>, b: int)
    requires
        forall|i: int| 0 <= i < s.len() ==> -b <= #[trigger] s[i] <= b,
    ensures
        forall|i: int|
            0 <= i < ds_run(in_rate, out_rate, acc, s).1.len() ==> -b <= #[trigger] ds_run(
                in_rate,
                out_rate,
                acc,
                s,
            ).1[i] <= b,
    decreases s.len(),
{
    if s.len() == 0 {
    } else {
        let acc1 = ds_step_acc(in_rate, out_rate, acc);
        let t = s.drop_first();
        assert forall|i: int| 0 <= i < t.len() implies -b <= #[trigger] t[i] <= b by {
            assert(t[i] == s[i + 1]);
        }
        lemma_ds_run_bounded(in_rate, out_rate, acc1, t, b);
        let rest = ds_run(in_rate, out_rate, acc1, t);
        if ds_emit(in_rate, out_rate, acc) {
            assert forall|i: int|
                0 <= i < ds_run(in_rate, out_rate, acc, s).1.len() implies -b <= #[trigger] ds_run(
                in_rate,
                out_rate,
                acc,
                s,
            ).1[i] <= b by {
                if i == 0 {
                    assert(ds_run(in_rate, out_rate, acc, s).1[0] == s[0]);
                } else {
                    assert(ds_run(in_rate, out_rate, acc, s).1[i] == rest.1[i - 1]);
                }
            }
        }
    }
}

/// Over any input of length `n` and from any starting residue, the number
/// of emitted samples lies within one of the ideal count
/// `n * out_rate / in_rate`; stated multiplied through by `in_rate` to stay
/// within the integers.
pub proof fn lemma_downsample_rate_convergence<T>(
    in_rate: int,
    out_rate: int,
    acc: int,
    s: Seq<T>,
)
    requires
        1 <= out_rate <= in_rate,
        0 <= acc < in_rate,
    ensures
        in_rate * ds_run(in_rate, out_rate, acc, s).1.len() <= acc + s.len() * out_rate,
        acc + s.len() * out_rate < in_rate * (ds_run(in_rate, out_rate, acc, s).1.len() + 1),
{
    lemma_ds_run_count(in_rate, out_rate, acc, s);
    lemma_fundamental_div_mod(acc + s.len() * out_rate, in_rate);
    vstd::arithmetic::mul::lemma_mul_is_distributive_add(
        in_rate,
        ds_run(in_rate, out_rate, acc, s).1.len() as int,
        1,
    );
}

} // verus!
