//! Per-target host record: identity, resolved address, bounded latency
//! history and statistics derived from it.

use vstd::prelude::*;
use vstd::arithmetic::div_mod::lemma_div_is_ordered;
use vstd::arithmetic::div_mod::lemma_div_multiples_vanish;
use std::collections::VecDeque;

verus! {

/// Capacity of the latency history window: two minutes of samples at one
/// sample per second.
pub const HISTORY_CAPACITY: usize = 120;

/// Shared probe timeout, in seconds, for one round.
pub const TIMEOUT_SECONDS: u64 = 5;

/// Pause between two consecutive rounds, in milliseconds.
pub const TICK_MILLIS: u64 = 1000;

/// Mathematical image of a [`Host`]: every field as a plain value.
pub ghost struct HostModel {
    pub name: Seq<char>,
    pub address: Option<Seq<char>>,
    /// Latency samples in microseconds, newest first.
    pub history: Seq<u64>,
    pub current: u64,
    pub min: u64,
    pub max: u64,
    pub avg: u64,
}

/// One tracked probe target.
///
/// `history` holds the most recent latency samples in microseconds, newest
/// first, at most [`HISTORY_CAPACITY`] of them. `current` mirrors the newest
/// sample (0 before any sample exists). `min`, `max` and `avg` are the
/// statistics computed by [`Host::calculate`] over the history window; they
/// are 0 until the first sample has been recorded.
pub struct Host {
    pub name: String,
    pub address: Option<String>,
    pub history: VecDeque<u64>,
    pub current: u64,
    pub min: u64,
    pub max: u64,
    pub avg: u64,
}

impl View for Host {
    type V = HostModel;

    open spec fn view(&self) -> HostModel {
        HostModel {
            name: self.name@,
            address: match self.address {
                Some(a) => Some(a@),
                None => None,
            },
            history: self.history@,
            current: self.current,
            min: self.min,
            max: self.max,
            avg: self.avg,
        }
    }
}

impl HostModel {
    /// The history never exceeds its capacity.
    pub open spec fn wf(self) -> bool {
        self.history.len() <= HISTORY_CAPACITY
    }
}

impl Host {
    pub open spec fn wf(self) -> bool {
        self@.wf()
    }

    /// A fresh record: no address, empty history, all statistics zero.
    pub fn new(name: String) -> (host: Host)
        ensures
            host@ == (HostModel {
                name: name@,
                address: None::<Seq<char>>,
                history: Seq::<u64>::empty(),
                current: 0u64,
                min: 0u64,
                max: 0u64,
                avg: 0u64,
            }),
            host.wf(),
    {
        Host {
            name,
            address: None,
            history: VecDeque::with_capacity(HISTORY_CAPACITY),
            current: 0,
            min: 0,
            max: 0,
            avg: 0,
        }
    }

    /// Overwrites the address with a present value; never clears it.
    pub fn set_address(&mut self, address: String)
        ensures
            final(self)@ == (HostModel { address: Some(address@), ..old(self)@ }),
    {
        self.address = Some(address);
    }

    pub fn name(&self) -> (name: &String)
        ensures
            name@ == self@.name,
    {
        &self.name
    }

    pub fn address(&self) -> (address: &Option<String>)
        ensures
            match address {
                Some(a) => self@.address == Some(a@),
                None => self@.address is None,
            },
    {
        &self.address
    }

    /// Inserts a new sample at the front, evicting the oldest sample first
    /// when the window is full, and mirrors the sample in `current`.
    pub fn push_value(&mut self, val: u64)
        requires
            old(self).wf(),
        ensures
            final(self)@ == (HostModel {
                history: push_model(old(self)@.history, val),
                current: val,
                ..old(self)@
            }),
            final(self).wf(),
    {
        if self.history.len() == HISTORY_CAPACITY {
            let _ = self.history.pop_back();
        }
        self.history.push_front(val);
        self.current = val;
    }

    pub fn current(&self) -> (r: u64)
        ensures
            r == self@.current,
    {
        self.current
    }

    pub fn min(&self) -> (r: u64)
        ensures
            r == self@.min,
    {
        self.min
    }

    pub fn max(&self) -> (r: u64)
        ensures
            r == self@.max,
    {
        self.max
    }

    pub fn avg(&self) -> (r: u64)
        ensures
            r == self@.avg,
    {
        self.avg
    }
}

/// The history after pushing `val`: `val` in front, the oldest sample gone
/// when the window was already full.
pub open spec fn push_model(history: Seq<u64>, val: u64) -> Seq<u64> {
    if history.len() < HISTORY_CAPACITY {
        seq![val] + history
    } else {
        seq![val] + history.drop_last()
    }
}

/// A push always leaves the pushed value as the newest entry, whatever
/// was evicted: `current` mirrors the front of the window.
pub proof fn lemma_push_newest_first(history: Seq<u64>, val: u64)
    ensures
        push_model(history, val).len() > 0,
        push_model(history, val).first() == val,
{
}

/// Sum of all samples in a history window.
pub open spec fn seq_sum(s: Seq<u64>) -> int
    decreases s.len(),
{
    if s.len() == 0 {
        0
    } else {
        seq_sum(s.drop_last()) + s.last()
    }
}

/// Smallest sample of a non-empty history window.
pub open spec fn seq_min(s: Seq<u64>) -> u64
    recommends
        s.len() > 0,
    decreases s.len(),
{
    if s.len() == 0 {
        0u64
    } else if s.len() == 1 {
        s.last()
    } else if s.last() < seq_min(s.drop_last()) {
        s.last()
    } else {
        seq_min(s.drop_last())
    }
}

/// Largest sample of a non-empty history window.
pub open spec fn seq_max(s: Seq<u64>) -> u64
    recommends
        s.len() > 0,
    decreases s.len(),
{
    if s.len() == 0 {
        0u64
    } else if s.len() == 1 {
        s.last()
    } else if s.last() > seq_max(s.drop_last()) {
        s.last()
    } else {
        seq_max(s.drop_last())
    }
}

/// Average of a non-empty history window, truncated to whole units.
pub open spec fn stats_avg(s: Seq<u64>) -> u64
    recommends
        s.len() > 0,
{
    (seq_sum(s) / (s.len() as int)) as u64
}

/// The record after recomputing statistics over its history.
pub open spec fn calc_model(m: HostModel) -> HostModel {
    HostModel {
        min: seq_min(m.history),
        max: seq_max(m.history),
        avg: stats_avg(m.history),
        ..m
    }
}

impl Host {
    /// Scans the full history and recomputes `min`, `max` and `avg` from
    /// scratch. The history must be non-empty: the average of an empty
    /// window is undefined.
    pub fn calculate(&mut self)
        requires
            old(self)@.history.len() > 0,
        ensures
            final(self)@ == calc_model(old(self)@),
    {
        let n = self.history.len();
        let mut sum: u128 = 0;
        let mut mn: u64 = 0;
        let mut mx: u64 = 0;
        let mut i: usize = 0;
        while i < n
            invariant
                i <= n,
                *self == *old(self),
                n == self@.history.len(),
                sum as int == seq_sum(self@.history.subrange(0, i as int)),
                sum as int <= (i as int) * (u64::MAX as int),
                i > 0 ==> mn == seq_min(self@.history.subrange(0, i as int)),
                i > 0 ==> mx == seq_max(self@.history.subrange(0, i as int)),
            decreases n - i,
        {
            let v = self.history[i];
            proof {
                let s = self@.history;
                assert(s.subrange(0, i + 1 as int).drop_last() =~= s.subrange(0, i as int));
                assert(s.subrange(0, i + 1 as int).last() == s[i as int]);
            }
            if i == 0 {
                mn = v;
                mx = v;
            } else {
                if v < mn {
                    mn = v;
                }
                if v > mx {
                    mx = v;
                }
            }
            sum = sum + (v as u128);
            i = i + 1;
        }
        proof {
            assert(self@.history.subrange(0, n as int) =~= self@.history);
        }
        let avg128: u128 = sum / (n as u128);
        proof {
            let l = n as int;
            let mxi = u64::MAX as int;
            lemma_div_is_ordered(sum as int, l * mxi, l);
            lemma_div_multiples_vanish(mxi, l);
            assert(avg128 as int == seq_sum(self@.history) / l);
            assert(avg128 <= u64::MAX);
        }
        self.min = mn;
        self.max = mx;
        self.avg = avg128 as u64;
    }
}

/// The history after pushing every value of `vals` in order into a window
/// that currently holds `history`.
pub open spec fn push_all(history: Seq<u64>, vals: Seq<u64>) -> Seq<u64>
    decreases vals.len(),
{
    if vals.len() == 0 {
        history
    } else {
        push_all(push_model(history, vals.first()), vals.drop_first())
    }
}

/// Pushing never lets the window outgrow its capacity, and grows it by one
/// sample per push until the capacity is reached.
pub proof fn lemma_push_all_len(history: Seq<u64>, vals: Seq<u64>)
    requires
        history.len() <= HISTORY_CAPACITY,
    ensures
        push_all(history, vals).len() == if history.len() + vals.len() <= HISTORY_CAPACITY {
            history.len() + vals.len()
        } else {
            HISTORY_CAPACITY as nat
        },
    decreases vals.len(),
{
    if vals.len() > 0 {
        lemma_push_all_len(push_model(history, vals.first()), vals.drop_first());
    }
}

/// Bounded-history law: after any sequence of N pushes into a fresh record,
/// the history holds exactly min(N, capacity) samples.
pub proof fn lemma_bounded_history(vals: Seq<u64>)
    ensures
        push_all(Seq::<u64>::empty(), vals).len() == if vals.len() <= HISTORY_CAPACITY {
            vals.len()
        } else {
            HISTORY_CAPACITY as nat
        },
{
    lemma_push_all_len(Seq::<u64>::empty(), vals);
}

/// The sum of a window lies between its length times its smallest sample
/// and its length times its largest sample.
proof fn lemma_sum_bounds(s: Seq<u64>)
    requires
        s.len() > 0,
    ensures
        (s.len() as int) * (seq_min(s) as int) <= seq_sum(s),
        seq_sum(s) <= (s.len() as int) * (seq_max(s) as int),
    decreases s.len(),
{
    let l = s.len() as int;
    let mn = seq_min(s) as int;
    let mx = seq_max(s) as int;
    if s.len() == 1 {
        assert(seq_sum(s.drop_last()) == 0);
        assert(seq_sum(s) == s.last());
        assert(l * mn == mn) by (nonlinear_arith)
            requires l == 1;
        assert(l * mx == mx) by (nonlinear_arith)
            requires l == 1;
    } else {
        let d = s.drop_last();
        let last = s.last() as int;
        lemma_sum_bounds(d);
        let mnd = seq_min(d) as int;
        let mxd = seq_max(d) as int;
        assert(d.len() as int == l - 1);
        assert(seq_sum(s) == seq_sum(d) + last);
        assert(mn == if last < mnd { last } else { mnd });
        assert(mx == if last > mxd { last } else { mxd });
        assert(l * mn <= seq_sum(s)) by (nonlinear_arith)
            requires
                (l - 1) * mnd <= seq_sum(d),
                seq_sum(s) == seq_sum(d) + last,
                mn <= mnd,
                mn <= last,
                l >= 2;
        assert(seq_sum(s) <= l * mx) by (nonlinear_arith)
            requires
                seq_sum(d) <= (l - 1) * mxd,
                seq_sum(s) == seq_sum(d) + last,
                mxd <= mx,
                last <= mx,
                l >= 2;
    }
}

/// Statistics-ordering law: over any non-empty history window,
/// min <= avg <= max.
pub proof fn lemma_statistics_ordered(s: Seq<u64>)
    requires
        s.len() > 0,
    ensures
        seq_min(s) <= stats_avg(s) <= seq_max(s),
{
    lemma_sum_bounds(s);
    let l = s.len() as int;
    let mn = seq_min(s) as int;
    let mx = seq_max(s) as int;
    lemma_div_is_ordered(l * mn, seq_sum(s), l);
    lemma_div_is_ordered(seq_sum(s), l * mx, l);
    lemma_div_multiples_vanish(mn, l);
    lemma_div_multiples_vanish(mx, l);
}

} // verus!
