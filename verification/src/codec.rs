//! How busy the hardware is on behalf of a stream.

use vstd::prelude::*;

use crate::stream::{StreamMap, V4L2Stream};
use crate::text::{
    decimal, digit_char, numbers_read_as_themselves, parse_number, parsed_number,
    suffixes_make_no_difference, to_chars, trim_suffixes, without_suffixes, zeros,
};
use crate::v4l2_mem::DMABuffer;
use crate::v4l2_stats::{Fields, V4l2FdInfo};

verus! {

/// The time that the decoder has spent on a stream, in nanoseconds, as its fdinfo states it. A
/// stream that states none has spent none; a text that is no number states nothing.
pub open spec fn decoder_time_of(fields: Fields) -> Option<u64> {
    let text = if fields.contains_key("media-engine-decoder"@) {
        fields["media-engine-decoder"@]
    } else {
        "0 ns"@
    };
    match parsed_number(without_suffixes(text, " ns"@), u64::MAX) {
        Ok(n) => Some(n),
        Err(_) => None,
    }
}

/// The time that the decoder has spent on a stream, in nanoseconds.
pub fn decoder_time(info: &V4l2FdInfo) -> (r: Option<u64>)
    ensures
        r == decoder_time_of(info@.fields),
{
    let text: Vec<char> = match info.fields.get("media-engine-decoder") {
        Some(text) => to_chars(text.as_str()),
        None => to_chars("0 ns"),
    };
    match parse_number(&trim_suffixes(&text, &to_chars(" ns")), u64::MAX) {
        Ok(n) => Some(n),
        Err(_) => None,
    }
}

/// Two readings of the time that a decoder has spent, and the time between them, all in
/// nanoseconds.
#[derive(Clone, Copy, Debug, PartialEq, Eq, Structural)]
pub struct UsageSample {
    pub last_value_ns: u64,
    pub value_ns: u64,
    pub elapsed_ns: u64,
}

impl UsageSample {
    /// The time that the decoder has spent between the readings; there is none to be told where the
    /// later reading is below the earlier one.
    pub open spec fn busy(self) -> Option<u64> {
        if self.value_ns >= self.last_value_ns {
            Some((self.value_ns - self.last_value_ns) as u64)
        } else {
            None
        }
    }

    /// The time that the decoder has spent between the readings.
    pub fn busy_ns(&self) -> (r: Option<u64>)
        ensures
            r == self.busy(),
    {
        if self.value_ns >= self.last_value_ns {
            Some(self.value_ns - self.last_value_ns)
        } else {
            None
        }
    }
}

/// A share in percent: no more than the whole.
pub open spec fn capped(percent: u8) -> u8 {
    if percent > 100 {
        100
    } else {
        percent
    }
}

/// Follows the hardware usage of a stream.
#[derive(Clone, Copy, Debug, PartialEq, Eq, Structural)]
pub struct CodecUsage {
    /// When the first reading was made, in nanoseconds.
    pub last_read: Option<u64>,
    /// The first reading.
    pub last_value_ns: Option<u64>,
    /// The share of the time that the decoder was busy, in percent.
    pub current_usage: Option<u8>,
}

impl CodecUsage {
    /// A usage is a percentage.
    pub open spec fn wf(self) -> bool {
        self.current_usage matches Some(p) ==> p <= 100
    }

    /// Nothing is known yet.
    pub fn new() -> (r: Self)
        ensures
            r == (CodecUsage { last_read: None, last_value_ns: None, current_usage: None }),
    {
        CodecUsage { last_read: None, last_value_ns: None, current_usage: None }
    }

    /// What the usage is computed from when a reading is made at the time `now`: there is a reading
    /// from before, and time has passed since.
    pub open spec fn sample_of(self, value_ns: Option<u64>, now: u64) -> Option<UsageSample> {
        match (self.last_read, self.last_value_ns, value_ns) {
            (Some(last_read), Some(last_value_ns), Some(value_ns)) => if now > last_read {
                Some(
                    UsageSample { last_value_ns, value_ns, elapsed_ns: (now - last_read) as u64 },
                )
            } else {
                None
            },
            _ => None,
        }
    }

    /// What the usage is to be computed from, if it can be computed at the time `now`.
    pub fn sample(&self, info: &V4l2FdInfo, now: u64) -> (r: Option<UsageSample>)
        ensures
            r == self.sample_of(decoder_time_of(info@.fields), now),
    {
        match (self.last_read, self.last_value_ns, decoder_time(info)) {
            (Some(last_read), Some(last_value_ns), Some(value_ns)) => {
                if now > last_read {
                    Some(UsageSample { last_value_ns, value_ns, elapsed_ns: now - last_read })
                } else {
                    None
                }
            },
            _ => None,
        }
    }

    /// The usage after a reading. With a usage that was computed from the sample, that is the
    /// current one, but for no more than 100 %; without a sample the reading is what later ones are
    /// compared with.
    pub open spec fn updated(
        self,
        value_ns: Option<u64>,
        timestamp: u64,
        percent: Option<u8>,
    ) -> CodecUsage {
        match percent {
            Some(p) => CodecUsage { current_usage: Some(capped(p)), ..self },
            None => CodecUsage { last_read: Some(timestamp), last_value_ns: value_ns, ..self },
        }
    }

    /// Updates the usage based on the latest fdinfo. `percent` is the usage that the sample of the
    /// time `now` gives, where there is one; what exceeds 100 % is cut off.
    pub fn update(&mut self, info: &V4l2FdInfo, now: u64, percent: Option<u8>)
        requires
            percent is Some <==> old(self).sample_of(
                decoder_time_of(info@.fields),
                now,
            ) is Some,
        ensures
            *final(self) == old(self).updated(
                decoder_time_of(info@.fields),
                info.timestamp,
                percent,
            ),
            old(self).wf() ==> final(self).wf(),
    {
        match percent {
            Some(p) => {
                self.current_usage = Some(
                    if p > 100 {
                        100
                    } else {
                        p
                    },
                );
            },
            None => {
                self.last_read = Some(info.timestamp);
                self.last_value_ns = decoder_time(info);
            },
        }
    }
}

/// What is known of a stream.
pub struct StreamInfo {
    pub v4l2_info: V4l2FdInfo,
    pub comm: String,
    pub cmdline: String,
    pub usage: CodecUsage,
    pub mem_usage: Vec<DMABuffer>,
}

/// How the usage is shown.
#[derive(Clone, Copy, Debug, PartialEq, Eq, Structural)]
pub enum UsageRendererType {
    Chart,
    PerPid,
}

impl UsageRendererType {
    /// The other way.
    pub open spec fn other(self) -> Self {
        match self {
            UsageRendererType::Chart => UsageRendererType::PerPid,
            UsageRendererType::PerPid => UsageRendererType::Chart,
        }
    }

    /// Goes over to the other way.
    pub fn shift(&mut self)
        ensures
            *final(self) == old(self).other(),
    {
        match self {
            UsageRendererType::Chart => *self = UsageRendererType::PerPid,
            UsageRendererType::PerPid => *self = UsageRendererType::Chart,
        }
    }
}

/// Going over twice changes nothing.
pub proof fn shift_twice(t: UsageRendererType)
    ensures
        t.other().other() == t,
{
}

/// Once a first reading was made, later ones leave it in place as long as they state a time and
/// come later than it: the usage is that of the whole time since.
pub proof fn first_reading_stays(
    usage: CodecUsage,
    value_ns: Option<u64>,
    now: u64,
    timestamp: u64,
    percent: Option<u8>,
)
    requires
        usage.last_read matches Some(t) && now > t,
        usage.last_value_ns is Some,
        value_ns is Some,
        percent is Some <==> usage.sample_of(value_ns, now) is Some,
    ensures
        usage.updated(value_ns, timestamp, percent).last_read == usage.last_read,
        usage.updated(value_ns, timestamp, percent).last_value_ns == usage.last_value_ns,
        usage.updated(value_ns, timestamp, percent).current_usage == Some(capped(percent->0)),
{
}

/// A usage stays a percentage, whatever is read and computed, and once it is known it stays known.
pub proof fn usage_stays_a_percentage(
    usage: CodecUsage,
    value_ns: Option<u64>,
    timestamp: u64,
    percent: Option<u8>,
)
    requires
        usage.wf(),
    ensures
        usage.updated(value_ns, timestamp, percent).wf(),
        usage.current_usage is Some ==> usage.updated(
            value_ns,
            timestamp,
            percent,
        ).current_usage is Some,
{
}

/// The level of a usage.
#[derive(Clone, Copy, Debug, PartialEq, Eq, Structural)]
pub enum UsageLevel {
    Low,
    Medium,
    High,
}

/// Up to 50 % is low, up to 80 % is medium, anything above is high.
pub open spec fn level_of(percent: u8) -> UsageLevel {
    if percent <= 50 {
        UsageLevel::Low
    } else if percent <= 80 {
        UsageLevel::Medium
    } else {
        UsageLevel::High
    }
}

/// The level of a usage.
pub fn usage_level(percent: u8) -> (r: UsageLevel)
    ensures
        r == level_of(percent),
{
    match percent {
        0..=50 => UsageLevel::Low,
        51..=80 => UsageLevel::Medium,
        _ => UsageLevel::High,
    }
}

/// The current usage of a stream, where none is known zero.
pub open spec fn usage_or_zero(info: StreamInfo) -> u8 {
    match info.usage.current_usage {
        Some(p) => p,
        None => 0,
    }
}

/// The sum of the usages of some streams.
pub open spec fn total_of(infos: Map<V4L2Stream, StreamInfo>, streams: Seq<V4L2Stream>) -> nat
    decreases streams.len(),
{
    if streams.len() == 0 {
        0
    } else {
        total_of(infos, streams.drop_last()) + usage_or_zero(infos[streams.last()]) as nat
    }
}

/// The current usage of a stream, where none is known zero.
pub fn current_or_zero(info: &StreamInfo) -> (r: u8)
    ensures
        r == usage_or_zero(*info),
{
    match info.usage.current_usage {
        Some(p) => p,
        None => 0,
    }
}

/// The sum of the usages of all streams, if it is at most 255.
pub fn total_usage_of(infos: &StreamMap<StreamInfo>) -> (r: Option<u8>)
    ensures
        match r {
            Some(n) => n == total_of(infos@, infos.keys()),
            None => total_of(infos@, infos.keys()) > u8::MAX,
        },
{
    let mut total: u8 = 0;
    let mut i: usize = 0;
    while i < infos.len()
        invariant
            i <= infos.keys().len(),
            total == total_of(infos@, infos.keys().take(i as int)),
        decreases infos.keys().len() - i,
    {
        assert(infos.keys().take(i + 1).drop_last() =~= infos.keys().take(i as int));
        let p: u8 = current_or_zero(infos.value_at(i));
        if p > u8::MAX - total {
            proof {
                lemma_total_grows(infos@, infos.keys(), i + 1);
            }
            return None;
        }
        total += p;
        i += 1;
    }
    assert(infos.keys().take(infos.keys().len() as int) =~= infos.keys());
    Some(total)
}

proof fn lemma_total_grows(infos: Map<V4L2Stream, StreamInfo>, streams: Seq<V4L2Stream>, n: int)
    requires
        0 <= n <= streams.len(),
    ensures
        total_of(infos, streams.take(n)) <= total_of(infos, streams),
    decreases streams.len(),
{
    if n == streams.len() {
        assert(streams.take(n) =~= streams);
    } else {
        assert(streams.drop_last().take(n) =~= streams.take(n));
        lemma_total_grows(infos, streams.drop_last(), n);
    }
}

/// The time that a decoder has spent is the number of nanoseconds in its field, over the whole
/// range and with the unit behind it or without. A number out of range states nothing, and a stream
/// without the field has spent none.
pub proof fn decoder_times_are_the_numbers_stated(fields: Fields, n: nat)
    ensures
        ({
            let key = "media-engine-decoder"@;
            let stated = if n <= u64::MAX {
                Some(n as u64)
            } else {
                None
            };
            &&& fields.contains_key(key) && (fields[key] == decimal(n) + " ns"@ || fields[key]
                == decimal(n)) ==> decoder_time_of(fields) == stated
            &&& !fields.contains_key(key) ==> decoder_time_of(fields) == Some(0u64)
        }),
{
    reveal_strlit(" ns");
    reveal_strlit("0 ns");
    lemma_decimal_ends_in_digit(n);
    suffixes_make_no_difference(decimal(n), " ns"@);
    numbers_read_as_themselves(0, n, u64::MAX, Seq::empty());
    assert(zeros(0) + decimal(n) =~= decimal(n));
    assert(zeros(0) + decimal(n) + Seq::<char>::empty() =~= decimal(n));
    lemma_decimal_ends_in_digit(0);
    suffixes_make_no_difference(decimal(0), " ns"@);
    numbers_read_as_themselves(0, 0, u64::MAX, Seq::empty());
    assert(zeros(0) + decimal(0) =~= decimal(0));
    assert("0 ns"@ =~= decimal(0) + " ns"@);
}

/// A number written in decimal does not end in the unit.
proof fn lemma_decimal_ends_in_digit(n: nat)
    ensures
        ({
            let s = decimal(n);
            s.len() < 3 || s.subrange(s.len() - 3, s.len() as int) != " ns"@
        }),
{
    reveal_strlit(" ns");
    let s = decimal(n);
    assert(s.last() == digit_char(n % 10));
    if s.len() >= 3 {
        assert(s.subrange(s.len() - 3, s.len() as int)[2] == s.last());
    }
}

/// The unit does not matter, however often it stands behind a number, and a text that is no number
/// without it states nothing.
pub proof fn units_do_not_matter(fields: Fields, other: Fields, text: Seq<char>)
    requires
        fields.contains_key("media-engine-decoder"@),
        fields["media-engine-decoder"@] == text,
        other.contains_key("media-engine-decoder"@),
        other["media-engine-decoder"@] == text + " ns"@,
    ensures
        decoder_time_of(other) == decoder_time_of(fields),
        (text.len() < 3 || text.subrange(text.len() - 3, text.len() as int) != " ns"@)
            && parsed_number(text, u64::MAX) is Err ==> decoder_time_of(fields) is None,
{
    reveal_strlit(" ns");
    suffixes_make_no_difference(text, " ns"@);
}

/// There is a sample if a reading was made before, both readings state a time, and time has passed
/// since; it has both readings and the time between them.
pub proof fn samples_span_the_readings(
    usage: CodecUsage,
    last_read: u64,
    last_value_ns: u64,
    value_ns: u64,
    now: u64,
)
    requires
        usage.last_read == Some(last_read),
        usage.last_value_ns == Some(last_value_ns),
    ensures
        usage.sample_of(Some(value_ns), now) is Some <==> now > last_read,
        usage.sample_of(Some(value_ns), now) matches Some(sample) ==> {
            &&& sample.last_value_ns == last_value_ns
            &&& sample.value_ns == value_ns
            &&& last_read + sample.elapsed_ns == now
        },
        usage.sample_of(None, now) is None,
{
}

/// The time spent leads from the first reading to the second; where it cannot, there is none.
pub proof fn busy_time_leads_from_reading_to_reading(sample: UsageSample)
    ensures
        sample.busy() matches Some(ns) ==> sample.last_value_ns + ns == sample.value_ns,
        sample.busy() is None <==> sample.value_ns < sample.last_value_ns,
{
}

/// Without a reading from before there is no sample.
pub proof fn first_readings_have_no_sample(usage: CodecUsage, value_ns: Option<u64>, now: u64)
    requires
        usage.last_read is None || usage.last_value_ns is None,
    ensures
        usage.sample_of(value_ns, now) is None,
{
}

/// A usage that was computed is the current one, where it is a percentage, and the whole where it
/// exceeds it; the reading to compare with stays. Without one the usage stays, and the reading and
/// its time are what later ones are compared with.
pub proof fn updates_take_over_the_reading(
    usage: CodecUsage,
    value_ns: Option<u64>,
    timestamp: u64,
    percent: u8,
)
    ensures
        ({
            let computed = usage.updated(value_ns, timestamp, Some(percent));
            &&& computed.current_usage is Some
            &&& percent <= 100 ==> computed.current_usage->0 == percent
            &&& percent >= 100 ==> computed.current_usage->0 == 100
            &&& computed.last_read == usage.last_read
            &&& computed.last_value_ns == usage.last_value_ns
        }),
        ({
            let read = usage.updated(value_ns, timestamp, None);
            &&& read.current_usage == usage.current_usage
            &&& read.last_read == Some(timestamp)
            &&& read.last_value_ns == value_ns
        }),
{
}

/// The levels go up with the usage: to 50 % it is low, from 81 % on it is high, and in between it
/// is medium.
pub proof fn levels_go_up_with_the_usage(percent: u8)
    ensures
        level_of(percent) == UsageLevel::Low <==> percent < 51,
        level_of(percent) == UsageLevel::High <==> percent > 80,
{
}

/// The usages of streams add up: those of two lists to the sum of both, that of one stream to its
/// current usage, and to nothing where that is not known.
pub proof fn usages_add_up(
    infos: Map<V4L2Stream, StreamInfo>,
    a: Seq<V4L2Stream>,
    b: Seq<V4L2Stream>,
    stream: V4L2Stream,
)
    ensures
        total_of(infos, a + b) == total_of(infos, a) + total_of(infos, b),
        infos[stream].usage.current_usage matches Some(p) ==> total_of(infos, seq![stream]) == p,
        infos[stream].usage.current_usage is None ==> total_of(infos, seq![stream]) == 0,
        total_of(infos, Seq::empty()) == 0,
    decreases b.len(),
{
    assert(seq![stream].drop_last() =~= Seq::empty());
    assert(total_of(infos, Seq::empty()) == 0);
    if b.len() == 0 {
        assert(a + b =~= a);
    } else {
        usages_add_up(infos, a, b.drop_last(), stream);
        assert((a + b).drop_last() =~= a + b.drop_last());
    }
}

} // verus!
