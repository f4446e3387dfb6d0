//! Collecting the samples of a topic, up to a cap.

use vstd::prelude::*;

use crate::entries::opt_text;
use crate::payload::{recovers, sample_base64, show_sample, shown_text};
use crate::publish::value_or;

verus! {

/// What a caller asks to be listened to.
#[derive(Debug)]
pub struct SubscribeArgs {
    pub topic_name: String,
    /// How long to listen, in milliseconds; 1000 where left out.
    pub duration_ms: Option<u64>,
    /// How many samples to keep; 10 where left out.
    pub max_samples: Option<usize>,
}

/// How long to listen, in milliseconds.
pub open spec fn listen_length(args: SubscribeArgs) -> u64 {
    value_or(args.duration_ms, 1000)
}

/// How many samples to keep.
pub open spec fn sample_cap(args: SubscribeArgs) -> int {
    match args.max_samples {
        Some(n) => n as int,
        None => 10,
    }
}

/// How long to listen.
pub fn listen_window(args: &SubscribeArgs) -> (r: u64)
    ensures
        r == listen_length(*args),
{
    match args.duration_ms {
        Some(d) => d,
        None => 1000,
    }
}

/// A sample as it came.
#[derive(Debug)]
pub struct Received {
    pub topic_name: String,
    pub timestamp: i64,
    pub clock: i64,
    pub payload: Vec<u8>,
    pub encoding: String,
    pub name: String,
}

/// A sample as it is shown.
#[derive(Debug)]
pub struct Sample {
    pub topic_name: String,
    pub timestamp_us: i64,
    pub clock: i64,
    pub size: usize,
    pub text: Option<String>,
    pub payload_base64: Option<String>,
    pub encoding: String,
    pub name: String,
}

/// `s` shows what came as `r`.
pub open spec fn is_sample_of(s: Sample, r: Received) -> bool {
    &&& s.topic_name == r.topic_name
    &&& s.timestamp_us == r.timestamp
    &&& s.clock == r.clock
    &&& s.size == r.payload@.len()
    &&& opt_text(s.text) == shown_text(r.payload@)
    &&& opt_text(s.payload_base64) == sample_base64(r.payload@)
    &&& recovers(s.text, s.payload_base64, r.payload@)
    &&& s.encoding == r.encoding
    &&& s.name == r.name
}

fn sample(r: Received) -> (s: Sample)
    ensures
        is_sample_of(s, r),
{
    let (text, payload_base64) = show_sample(r.payload.as_slice());
    Sample {
        topic_name: r.topic_name,
        timestamp_us: r.timestamp,
        clock: r.clock,
        size: r.payload.len(),
        text,
        payload_base64,
        encoding: r.encoding,
        name: r.name,
    }
}

/// What listening came to.
#[derive(Debug)]
pub struct SubscribeResult {
    pub topic_name: String,
    pub duration_ms: u64,
    pub samples_collected: usize,
    /// Samples that came once the cap was reached.
    pub samples_truncated_at_cap: usize,
    pub samples: Vec<Sample>,
}

/// Keeps the first samples, up to a cap, and counts the rest.
#[derive(Debug)]
pub struct Collector {
    max_samples: usize,
    samples: Vec<Sample>,
    truncated: usize,
}

/// `s` shows the first samples of `arrivals`, as many as `cap` allows.
pub open spec fn are_first_samples(s: Seq<Sample>, arrivals: Seq<Received>, cap: int) -> bool {
    &&& s.len() == if arrivals.len() <= cap {
        arrivals.len()
    } else {
        cap as nat
    }
    &&& forall|i: int| 0 <= i < s.len() ==> is_sample_of(#[trigger] s[i], arrivals[i])
}

impl Collector {
    /// How many samples are kept at most.
    pub closed spec fn cap(self) -> int {
        self.max_samples as int
    }

    /// The samples that are kept.
    pub closed spec fn kept(self) -> Seq<Sample> {
        self.samples@
    }

    /// How many came too late.
    pub closed spec fn late(self) -> int {
        self.truncated as int
    }

    /// What the collector holds after `arrivals`: the first ones, and the number of the rest.
    pub open spec fn after(self, arrivals: Seq<Received>) -> bool {
        &&& are_first_samples(self.kept(), arrivals, self.cap())
        &&& self.kept().len() + self.late() == arrivals.len()
    }

    /// An empty collector with the cap that is asked for.
    pub fn new(args: &SubscribeArgs) -> (r: Collector)
        ensures
            r.cap() == sample_cap(*args),
            r.after(Seq::empty()),
            r.late() == 0,
    {
        let max_samples: usize = match args.max_samples {
            Some(n) => n,
            None => 10,
        };
        Collector { max_samples, samples: Vec::new(), truncated: 0 }
    }

    /// Whether one more sample can be counted.
    pub fn has_room(&self) -> (r: bool)
        ensures
            r == (self.kept().len() < self.cap() || self.late() < usize::MAX),
    {
        self.samples.len() < self.max_samples || self.truncated < usize::MAX
    }

    /// Takes in one sample.
    pub fn offer(&mut self, r: Received)
        requires
            old(self).kept().len() < old(self).cap() || old(self).late() < usize::MAX,
        ensures
            final(self).cap() == old(self).cap(),
            old(self).kept().len() < old(self).cap() ==> {
                &&& final(self).kept().len() == old(self).kept().len() + 1
                &&& final(self).kept().drop_last() == old(self).kept()
                &&& is_sample_of(final(self).kept().last(), r)
                &&& final(self).late() == old(self).late()
            },
            old(self).kept().len() >= old(self).cap() ==> {
                &&& final(self).kept() == old(self).kept()
                &&& final(self).late() == old(self).late() + 1
            },
            forall|arrivals: Seq<Received>| #[trigger]
                old(self).after(arrivals) ==> final(self).after(arrivals.push(r)),
    {
        let ghost kept = self.samples@;
        if self.samples.len() >= self.max_samples {
            self.truncated = self.truncated + 1;
        } else {
            self.samples.push(sample(r));
            assert(self.samples@.drop_last() =~= kept);
        }
        proof {
            assert forall|arrivals: Seq<Received>| #[trigger] old(self).after(arrivals) implies self.after(
                arrivals.push(r),
            ) by {
                let more = arrivals.push(r);
                assert forall|i: int| 0 <= i < self.kept().len() implies is_sample_of(
                    #[trigger] self.kept()[i],
                    more[i],
                ) by {
                    if i < kept.len() {
                        assert(self.kept()[i] == kept[i]);
                        assert(is_sample_of(kept[i], arrivals[i]));
                    }
                }
            }
        }
    }

    /// What listening came to.
    pub fn finish(self, topic_name: String, duration_ms: u64) -> (r: SubscribeResult)
        ensures
            r.topic_name == topic_name,
            r.duration_ms == duration_ms,
            r.samples@ == self.kept(),
            r.samples_collected == self.kept().len(),
            r.samples_truncated_at_cap == self.late(),
    {
        SubscribeResult {
            topic_name,
            duration_ms,
            samples_collected: self.samples.len(),
            samples_truncated_at_cap: self.truncated,
            samples: self.samples,
        }
    }
}

/// No more samples are kept than the cap allows, none is lost from the count, and none is counted
/// as cut off before the cap is reached.
pub proof fn collected_and_truncated_add_up(c: Collector, arrivals: Seq<Received>)
    requires
        c.after(arrivals),
        0 <= c.cap(),
    ensures
        c.kept().len() <= c.cap(),
        c.kept().len() + c.late() == arrivals.len(),
        c.late() > 0 ==> c.kept().len() == c.cap(),
{
}

} // verus!
