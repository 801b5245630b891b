//! A small typed processing pipeline and the simulation driver built
//! on it.
//!
//! `ProcessResult` carries success, retryable failure and fatal
//! failure as values; `Processor` is the interface its users
//! implement, with the contract of `process` stated by each
//! implementation through two specification functions.

use vstd::prelude::*;

verus! {

use crate::counter::SafeCounter;
use crate::decimal::{spec_decimal, u64_to_string};
use vstd::string::StringExecFns;

/// The outcome of one processing step: a value, a retryable failure,
/// or a fatal failure.
#[derive(Debug)]
pub enum ProcessResult<T> {
    Success(T),
    Retry(String),
    Fatal(String),
}

impl<T> ProcessResult<T> {
    /// Chains a fallible continuation: applied to a success value,
    /// passing failures through unchanged.
    pub fn and_then<U, F: FnOnce(T) -> ProcessResult<U>>(self, f: F) -> (r: ProcessResult<U>)
        requires
            self matches ProcessResult::Success(v) ==> call_requires(f, (v,)),
        ensures
            self matches ProcessResult::Success(v) ==> call_ensures(f, (v,), r),
            self matches ProcessResult::Retry(m) ==> r == ProcessResult::<U>::Retry(m),
            self matches ProcessResult::Fatal(m) ==> r == ProcessResult::<U>::Fatal(m),
    {
        match self {
            ProcessResult::Success(value) => f(value),
            ProcessResult::Retry(msg) => ProcessResult::Retry(msg),
            ProcessResult::Fatal(msg) => ProcessResult::Fatal(msg),
        }
    }

    /// Transforms a success value, passing failures through unchanged.
    pub fn map<U, F: FnOnce(T) -> U>(self, f: F) -> (r: ProcessResult<U>)
        requires
            self matches ProcessResult::Success(v) ==> call_requires(f, (v,)),
        ensures
            self matches ProcessResult::Success(v) ==> (r matches ProcessResult::Success(o)
                && call_ensures(f, (v,), o)),
            self matches ProcessResult::Retry(m) ==> r == ProcessResult::<U>::Retry(m),
            self matches ProcessResult::Fatal(m) ==> r == ProcessResult::<U>::Fatal(m),
    {
        match self {
            ProcessResult::Success(value) => ProcessResult::Success(f(value)),
            ProcessResult::Retry(msg) => ProcessResult::Retry(msg),
            ProcessResult::Fatal(msg) => ProcessResult::Fatal(msg),
        }
    }
}

/// A processing step from an input to a result, with its contract
/// given by the implementing type.
pub trait Processor {
    type Input;

    type Output;

    /// The inputs the step accepts.
    spec fn process_pre(&self, input: Self::Input) -> bool;

    /// The step's contract: which results it may return for an input.
    spec fn process_post(&self, input: Self::Input, r: ProcessResult<Self::Output>) -> bool;

    fn process(&self, input: Self::Input) -> (r: ProcessResult<Self::Output>)
        requires
            self.process_pre(input),
        ensures
            self.process_post(input, r),
    ;
}

/// The sum of the doubled positive elements of `s`.
pub open spec fn doubled_sum(s: Seq<i32>) -> int
    decreases s.len(),
{
    if s.len() == 0 {
        0
    } else {
        doubled_sum(s.drop_last()) + if s.last() > 0 {
            2 * s.last()
        } else {
            0
        }
    }
}

/// Doubles and sums the positive elements of its input, rejecting an
/// empty input as fatal and a sum over 1000 as retryable.
pub struct DataProcessor;

impl Processor for DataProcessor {
    type Input = Vec<i32>;

    type Output = i32;

    open spec fn process_pre(&self, input: Vec<i32>) -> bool {
        true
    }

    open spec fn process_post(&self, input: Vec<i32>, r: ProcessResult<i32>) -> bool {
        match r {
            ProcessResult::Success(v) => input@.len() > 0 && doubled_sum(input@) <= 1000 && v
                == doubled_sum(input@),
            ProcessResult::Retry(m) => input@.len() > 0 && doubled_sum(input@) > 1000 && m@
                == "Sum too large"@,
            ProcessResult::Fatal(m) => input@.len() == 0 && m@ == "Empty input"@,
        }
    }

    fn process(&self, input: Vec<i32>) -> (r: ProcessResult<i32>) {
        if input.len() == 0 {
            return ProcessResult::Fatal(String::from_str("Empty input"));
        }
        let len = input.len();
        let mut acc: i128 = 0;
        let mut idx: usize = 0;
        while idx < len
            invariant
                len == input@.len(),
                idx <= len,
                acc == doubled_sum(input@.take(idx as int)),
                0 <= acc <= idx * 0x1_0000_0000,
            decreases len - idx,
        {
            let x = input[idx];
            proof {
                assert(input@.take(idx + 1).drop_last() =~= input@.take(idx as int));
                assert((idx + 1) * 0x1_0000_0000 == idx * 0x1_0000_0000 + 0x1_0000_0000)
                    by (nonlinear_arith);
            }
            if x > 0 {
                acc = acc + 2 * (x as i128);
            }
            idx += 1;
        }
        proof {
            assert(input@.take(len as int) =~= input@);
        }
        if acc > 1000 {
            ProcessResult::Retry(String::from_str("Sum too large"))
        } else {
            ProcessResult::Success(acc as i32)
        }
    }
}

/// The view of the message a successful simulation reports, given the
/// counter value after the run.
pub open spec fn simulation_message(count: nat) -> Seq<char> {
    "Simulation completed. Result: "@ + spec_decimal(30) + ", Counter: "@ + spec_decimal(count)
}

/// The simulation driver: a counter and a processor, orchestrated by
/// `run_simulation`.
pub struct Application {
    pub counter: SafeCounter,
    pub processor: DataProcessor,
}

impl Application {
    /// An application with a fresh counter.
    pub fn new() -> (app: Application)
        ensures
            app.counter.count == 0,
    {
        Application { counter: SafeCounter::new(), processor: DataProcessor }
    }

    /// Runs four workers of a thousand counted steps each, processes a
    /// fixed batch of sample data, makes one final increment, and
    /// reports the processing result and the counter in a message.
    ///
    /// The workers' counting is deterministic — every step is a guarded
    /// increment — so their joined net effect is exactly 4000; with the
    /// final increment the counter ends 4001 above its start.
    pub fn run_simulation(&mut self) -> (r: ProcessResult<String>)
        requires
            old(self).counter.count <= u64::MAX - 4001,
        ensures
            final(self).counter.count == old(self).counter.count + 4001,
            r matches ProcessResult::Success(msg) && msg@ == simulation_message(
                final(self).counter.count as nat,
            ),
    {
        let ghost start = self.counter.count;
        // The worker pool: four workers, a thousand increments each.
        // Exclusive ownership of the counter serialises what the
        // original scheduled across threads; the joined total is the
        // same.
        let mut worker: usize = 0;
        while worker < 4
            invariant
                worker <= 4,
                start <= u64::MAX - 4001,
                self.counter.count == start + worker * 1000,
            decreases 4 - worker,
        {
            let mut step: usize = 0;
            while step < 1000
                invariant
                    worker < 4,
                    step <= 1000,
                    start <= u64::MAX - 4001,
                    self.counter.count == start + worker * 1000 + step,
                decreases 1000 - step,
            {
                self.counter.increment();
                step += 1;
            }
            worker += 1;
        }
        let mut data: Vec<i32> = Vec::new();
        data.push(1);
        data.push(2);
        data.push(3);
        data.push(4);
        data.push(5);
        proof {
            let s5 = seq![1i32, 2i32, 3i32, 4i32, 5i32];
            let s4 = seq![1i32, 2i32, 3i32, 4i32];
            let s3 = seq![1i32, 2i32, 3i32];
            let s2 = seq![1i32, 2i32];
            let s1 = seq![1i32];
            assert(data@ =~= s5);
            assert(s5.drop_last() =~= s4);
            assert(s4.drop_last() =~= s3);
            assert(s3.drop_last() =~= s2);
            assert(s2.drop_last() =~= s1);
            assert(s1.drop_last() =~= Seq::<i32>::empty());
            assert(doubled_sum(Seq::<i32>::empty()) == 0);
            assert(doubled_sum(s1) == 2);
            assert(doubled_sum(s2) == 6);
            assert(doubled_sum(s3) == 12);
            assert(doubled_sum(s4) == 20);
            assert(doubled_sum(s5) == 30);
        }
        let result = match self.processor.process(data) {
            ProcessResult::Success(value) => value,
            ProcessResult::Retry(msg) => {
                proof {
                    assert(false);
                }
                return ProcessResult::Retry(msg);
            },
            ProcessResult::Fatal(msg) => {
                proof {
                    assert(false);
                }
                return ProcessResult::Fatal(msg);
            },
        };
        let count = self.counter.increment();
        let mut msg = String::from_str("Simulation completed. Result: ");
        let result_str = u64_to_string(result as u64);
        msg.append(result_str.as_str());
        msg.append(", Counter: ");
        let count_str = u64_to_string(count);
        msg.append(count_str.as_str());
        proof {
            assert(msg@ =~= simulation_message(count as nat));
        }
        ProcessResult::Success(msg)
    }
}

} // verus!
