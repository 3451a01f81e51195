use vstd::prelude::*;

use std::time::Duration;

use crate::decimal::{all_digits, digits_value, parse_u64, parse_u64_spec};
use crate::split::{lines, lines_of, split_once_sub, split_once_sub_exec, trim, trim_exec, views, ws_fields, ws_fields_of};
use crate::text::{chars_of, digit_value, ends_with, eq_str, is_digit, lower, lowercase, owned, slice_range, starts_with, starts_with_str};
use crate::ros2_probe::topic_stats::RosTopicInfo;
use crate::time::{duration_from_nanos, duration_nanos};

verus! {

/// `10` to the power `n`.
pub open spec fn pow10(n: nat) -> nat
    decreases n,
{
    if n == 0 {
        1
    } else {
        10 * pow10((n - 1) as nat)
    }
}

/// A whole number written as the digits of `whole`, then those of `frac`
/// after a decimal point, optionally signed: (negative, whole, frac). At least
/// one digit is written; the point may come first or last.
pub open spec fn decimal_number(s: Seq<char>) -> Option<(bool, Seq<char>, Seq<char>)> {
    let negative = s.len() > 0 && s[0] == '-';
    let body = if s.len() > 0 && (s[0] == '-' || s[0] == '+') {
        s.drop_first()
    } else {
        s
    };
    if crate::text::has_char(body, '.') {
        let i = choose|i: int| crate::text::first_at(body, '.', i);
        let whole = body.take(i);
        let frac = body.skip(i + 1);
        if all_digits(whole) && all_digits(frac) && whole.len() + frac.len() > 0 {
            Some((negative, whole, frac))
        } else {
            None
        }
    } else if body.len() > 0 && all_digits(body) {
        Some((negative, body, Seq::empty()))
    } else {
        None
    }
}

/// An infinity or a NaN, optionally signed, without ASCII case:
/// (negative, is NaN).
pub open spec fn special_number(s: Seq<char>) -> Option<(bool, bool)> {
    let negative = s.len() > 0 && s[0] == '-';
    let body = lower(
        if s.len() > 0 && (s[0] == '-' || s[0] == '+') {
            s.drop_first()
        } else {
            s
        },
    );
    if body == "inf"@ || body == "infinity"@ {
        Some((negative, false))
    } else if body == "nan"@ {
        Some((negative, true))
    } else {
        None
    }
}

/// A count of bytes no larger than `u64::MAX`.
pub open spec fn saturate(v: nat) -> u64 {
    if v > u64::MAX {
        u64::MAX
    } else {
        v as u64
    }
}

/// `whole.frac` times `10^k`, rounded half away from zero: the whole digits
/// and the first `k` fraction digits (missing ones read as zeros), plus one
/// when the fraction digit after them is 5 or more.
pub open spec fn scaled_rounded(whole: Seq<char>, frac: Seq<char>, k: nat) -> nat {
    if frac.len() <= k {
        digits_value(whole + frac) * pow10((k - frac.len()) as nat)
    } else {
        digits_value(whole + frac.take(k as int)) + if digit_value(frac[k as int]) >= 5 {
            1nat
        } else {
            0nat
        }
    }
}

/// The byte count a number text gives at a scale of `10^k`: no count for a
/// negative number or a NaN, the largest count for infinity, else the scaled
/// value rounded half away from zero, limited to `u64::MAX`.
pub open spec fn scaled_count(number: Seq<char>, k: nat) -> Option<u64> {
    match special_number(number) {
        Some((negative, nan)) => Some(if negative || nan { 0u64 } else { u64::MAX }),
        None => match decimal_number(number) {
            Some((negative, whole, frac)) => Some(if negative { 0u64 } else { saturate(scaled_rounded(whole, frac, k)) }),
            None => None,
        },
    }
}

/// A unit without its trailing `/s` suffixes.
pub open spec fn without_rate(unit: Seq<char>) -> Seq<char>
    decreases unit.len(),
{
    if unit.len() >= 2 && ends_with(unit, "/s"@) {
        without_rate(unit.take(unit.len() - 2))
    } else {
        unit
    }
}

/// The decimal power of a byte unit.
pub open spec fn unit_power(unit: Seq<char>) -> Option<nat> {
    if unit == "B"@ {
        Some(0)
    } else if unit == "KB"@ {
        Some(3)
    } else if unit == "MB"@ {
        Some(6)
    } else if unit == "GB"@ {
        Some(9)
    } else {
        None
    }
}

/// The bytes a number with an optional unit (bytes when absent) stands for.
pub open spec fn bytes_from_fields(number: Seq<char>, unit: Option<Seq<char>>) -> Option<u64> {
    let u = match unit {
        Some(u) => without_rate(u),
        None => "B"@,
    };
    match unit_power(u) {
        Some(k) => scaled_count(number, k),
        None => None,
    }
}

/// The bytes a text such as `5.20 MB/s` or `80000` stands for, in decimal
/// units.
pub open spec fn bytes_model(value: Seq<char>) -> Option<u64> {
    let fs = ws_fields(value);
    if fs.len() == 0 {
        None
    } else {
        bytes_from_fields(fs[0], if fs.len() >= 2 { Some(fs[1]) } else { None })
    }
}

/// `2^64`, the first count too large for a `u64`.
pub open spec fn count_cap() -> nat {
    0x1_0000_0000_0000_0000
}

/// A number, or the cap when it is larger.
pub open spec fn capped(v: nat) -> nat {
    if v >= count_cap() {
        count_cap()
    } else {
        v
    }
}

proof fn lemma_capped_step(x: nat, d: nat)
    requires
        d <= 9,
    ensures
        capped(capped(x) * 10 + d) == capped(x * 10 + d),
{
}

proof fn lemma_capped_times_pow(x: nat, j: nat)
    ensures
        capped(capped(x * pow10(j)) * 10) == capped(x * pow10(j + 1)),
{
    assert(pow10(j + 1) == 10 * pow10(j));
    assert(x * pow10(j + 1) == (x * pow10(j)) * 10) by (nonlinear_arith)
        requires
            pow10(j + 1) == 10 * pow10(j),
    ;
    lemma_capped_step(x * pow10(j), 0);
}

/// The value of some digits, capped at `2^64`.
fn capped_digits(d: &Vec<char>) -> (r: u128)
    requires
        all_digits(d@),
    ensures
        r == capped(digits_value(d@)),
{
    let cap: u128 = 0x1_0000_0000_0000_0000;
    let mut acc: u128 = 0;
    let mut i: usize = 0;
    while i < d.len()
        invariant
            i <= d.len(),
            all_digits(d@),
            cap == count_cap(),
            acc == capped(digits_value(d@.take(i as int))),
        decreases d.len() - i,
    {
        let c = d[i];
        assert(is_digit(d@[i as int]));
        let digit: u128 = (c as u32 - '0' as u32) as u128;
        proof {
            let t = d@.take(i + 1);
            assert(t.drop_last() =~= d@.take(i as int));
            assert(t.last() == c);
            lemma_capped_step(digits_value(d@.take(i as int)), digit as nat);
        }
        let next = acc * 10 + digit;
        acc = if next >= cap { cap } else { next };
        i = i + 1;
    }
    assert(d@.take(d@.len() as int) =~= d@);
    acc
}

/// A count of bytes from a capped value.
fn saturate_capped(v: u128) -> (r: u64)
    requires
        v <= count_cap(),
    ensures
        forall|x: nat| capped(x) == v ==> r == saturate(x),
{
    if v >= 0x1_0000_0000_0000_0000 {
        u64::MAX
    } else {
        v as u64
    }
}

fn concat_chars(a: &Vec<char>, b: &Vec<char>) -> (r: Vec<char>)
    ensures
        r@ == a@ + b@,
{
    let mut r = crate::text::copy_chars(a);
    crate::text::push_all(&mut r, b);
    r
}

/// `whole.frac` scaled by `10^k` and rounded, capped at `2^64`.
fn scaled_rounded_capped(whole: &Vec<char>, frac: &Vec<char>, k: usize) -> (r: u128)
    requires
        all_digits(whole@),
        all_digits(frac@),
        k <= 9,
    ensures
        r == capped(scaled_rounded(whole@, frac@, k as nat)),
{
    if frac.len() <= k {
        let all = concat_chars(whole, frac);
        let ghost dv = digits_value(all@);
        let mut acc = capped_digits(&all);
        let mut j: usize = 0;
        proof {
            assert(pow10(0) == 1);
            assert(dv * pow10(0) == dv);
        }
        while j < k - frac.len()
            invariant
                j <= k - frac.len(),
                k <= 9,
                acc == capped(dv * pow10(j as nat)),
                acc <= count_cap(),
            decreases k - frac.len() - j,
        {
            proof {
                lemma_capped_times_pow(dv, j as nat);
            }
            let next = acc * 10;
            acc = if next >= 0x1_0000_0000_0000_0000 { 0x1_0000_0000_0000_0000 } else { next };
            j = j + 1;
        }
        acc
    } else {
        let kept = slice_range(frac, 0, k);
        assert(kept@ =~= frac@.take(k as int));
        let all = concat_chars(whole, &kept);
        let acc = capped_digits(&all);
        let c = frac[k];
        assert(is_digit(frac@[k as int]));
        if (c as u32 - '0' as u32) >= 5 {
            let next = acc + 1;
            if next >= 0x1_0000_0000_0000_0000 { 0x1_0000_0000_0000_0000 } else { next }
        } else {
            acc
        }
    }
}

fn digits_only(v: &Vec<char>) -> (r: bool)
    ensures
        r == all_digits(v@),
{
    let mut i: usize = 0;
    while i < v.len()
        invariant
            i <= v.len(),
            forall|j: int| 0 <= j < i ==> is_digit(#[trigger] v@[j]),
        decreases v.len() - i,
    {
        if !('0' <= v[i] && v[i] <= '9') {
            assert(!is_digit(v@[i as int]));
            return false;
        }
        i = i + 1;
    }
    true
}

/// The number text without its sign.
fn unsigned_body(s: &Vec<char>) -> (r: Vec<char>)
    ensures
        r@ == if s@.len() > 0 && (s@[0] == '-' || s@[0] == '+') {
            s@.drop_first()
        } else {
            s@
        },
{
    if s.len() > 0 && (s[0] == '-' || s[0] == '+') {
        let r = slice_range(s, 1, s.len());
        assert(r@ =~= s@.drop_first());
        r
    } else {
        crate::text::copy_chars(s)
    }
}

/// The bytes a number text gives at a scale of `10^k`.
fn scaled_count_exec(number: &Vec<char>, k: usize) -> (r: Option<u64>)
    requires
        k <= 9,
    ensures
        r == scaled_count(number@, k as nat),
{
    let negative = number.len() > 0 && number[0] == '-';
    let body = unsigned_body(number);
    let low = lowercase(&body);
    if eq_str(&low, "inf") || eq_str(&low, "infinity") {
        return Some(if negative { 0 } else { u64::MAX });
    }
    if eq_str(&low, "nan") {
        return Some(0);
    }
    let len = body.len();
    let (whole, frac) = match crate::text::find_char(&body, '.') {
        Some(i) => {
            proof {
                let j = choose|j: int| crate::text::first_at(body@, '.', j);
                crate::split::lemma_first_at_unique(body@, '.', i as int, j);
            }
            let w = slice_range(&body, 0, i);
            let f = slice_range(&body, i + 1, len);
            assert(w@ =~= body@.take(i as int));
            assert(f@ =~= body@.skip(i + 1));
            (w, f)
        },
        None => (body, Vec::new()),
    };
    if !digits_only(&whole) || !digits_only(&frac) || whole.len() + frac.len() == 0 {
        return None;
    }
    if negative {
        return Some(0);
    }
    let v = scaled_rounded_capped(&whole, &frac, k);
    Some(saturate_capped(v))
}

fn without_rate_exec(unit: &Vec<char>) -> (r: Vec<char>)
    ensures
        r@ == without_rate(unit@),
    decreases unit@.len(),
{
    let slash_s = chars_of("/s");
    if unit.len() >= 2 && crate::text::ends_with_exec(unit, &slash_s) {
        let shorter = slice_range(unit, 0, unit.len() - 2);
        assert(shorter@ =~= unit@.take(unit@.len() - 2));
        without_rate_exec(&shorter)
    } else {
        crate::text::copy_chars(unit)
    }
}

fn unit_power_exec(unit: &Vec<char>) -> (r: Option<usize>)
    ensures
        match r {
            Some(k) => unit_power(unit@) == Some(k as nat) && k <= 9,
            None => unit_power(unit@) is None,
        },
{
    if eq_str(unit, "B") {
        Some(0)
    } else if eq_str(unit, "KB") {
        Some(3)
    } else if eq_str(unit, "MB") {
        Some(6)
    } else if eq_str(unit, "GB") {
        Some(9)
    } else {
        None
    }
}

fn bytes_from_fields_exec(number: &Vec<char>, unit: Option<&Vec<char>>) -> (r: Option<u64>)
    ensures
        r == bytes_from_fields(
            number@,
            match unit {
                Some(u) => Some(u@),
                None => None,
            },
        ),
{
    let u = match unit {
        Some(u) => without_rate_exec(u),
        None => chars_of("B"),
    };
    match unit_power_exec(&u) {
        Some(k) => scaled_count_exec(number, k),
        None => None,
    }
}

/// The bytes a text such as `5.20 MB/s` or `80000` stands for: a number
/// and an optional unit (`B`, `KB`, `MB` or `GB`, decimal, with any `/s`
/// dropped), rounded half away from zero.
pub fn parse_bytes(value: &str) -> (r: Option<u64>)
    ensures
        r == bytes_model(value@),
{
    let fields = ws_fields_of(&chars_of(value));
    if fields.len() == 0 {
        return None;
    }
    if fields.len() >= 2 {
        bytes_from_fields_exec(&fields[0], Some(&fields[1]))
    } else {
        bytes_from_fields_exec(&fields[0], None)
    }
}

/// The heading of the mean message size line of `ros2 topic bw`.
pub open spec fn mean_heading() -> Seq<char> {
    "Message size mean:"@
}

/// What one line of `ros2 topic bw` output changes of the bandwidth, mean
/// message size and sample count read so far: a `<rate>/s from <n> ...`
/// line sets the bandwidth and the count; a `Message size mean: <v> <unit>`
/// line sets the mean.
pub open spec fn bandwidth_step(state: (Option<u64>, Option<u64>, Option<u64>), raw: Seq<char>) -> (Option<u64>, Option<u64>, Option<u64>) {
    let line = trim(raw);
    let after_rate = match split_once_sub(line, "/s from "@) {
        Some((rate, rest)) => (
            bytes_model(trim(rate)),
            state.1,
            if ws_fields(rest).len() > 0 {
                parse_u64_spec(ws_fields(rest)[0])
            } else {
                None
            },
        ),
        None => state,
    };
    if starts_with(line, mean_heading()) {
        let parts = ws_fields(line.skip(mean_heading().len() as int));
        if parts.len() >= 2 {
            (after_rate.0, bytes_from_fields(parts[0], Some(parts[1])), after_rate.2)
        } else {
            after_rate
        }
    } else {
        after_rate
    }
}

pub open spec fn bandwidth_state(ls: Seq<Seq<char>>) -> (Option<u64>, Option<u64>, Option<u64>)
    decreases ls.len(),
{
    if ls.len() == 0 {
        (None, None, None)
    } else {
        bandwidth_step(bandwidth_state(ls.drop_last()), ls.last())
    }
}

/// The receive bandwidth in bytes per second, the mean message size in bytes
/// and the number of messages that `ros2 topic bw` printed, each from the
/// last line that gave it.
pub fn parse_bandwidth(output: &str) -> (r: (Option<u64>, Option<u64>, Option<u64>))
    ensures
        r == bandwidth_state(lines(output@)),
{
    let ls = lines_of(&chars_of(output));
    let sep = chars_of("/s from ");
    let heading = chars_of("Message size mean:");
    let mut bandwidth: Option<u64> = None;
    let mut mean: Option<u64> = None;
    let mut count: Option<u64> = None;
    let mut i: usize = 0;
    while i < ls.len()
        invariant
            i <= ls.len(),
            views(ls@) == lines(output@),
            sep@ == "/s from "@,
            heading@ == mean_heading(),
            (bandwidth, mean, count) == bandwidth_state(views(ls@).take(i as int)),
        decreases ls.len() - i,
    {
        proof {
            let t = views(ls@).take(i + 1);
            assert(t.drop_last() =~= views(ls@).take(i as int));
            assert(t.last() == ls@[i as int]@);
        }
        let line = trim_exec(&ls[i]);
        match split_once_sub_exec(&line, &sep) {
            Some((rate, rest)) => {
                bandwidth = parse_bytes(crate::text::string_of(&trim_exec(&rate)).as_str());
                let fields = ws_fields_of(&rest);
                count = if fields.len() > 0 { parse_u64(&fields[0]) } else { None };
            },
            None => {},
        }
        if crate::text::starts_with_exec(&line, &heading) {
            let tail = slice_range(&line, heading.len(), line.len());
            proof {
                reveal_strlit("Message size mean:");
                assert(tail@ =~= line@.skip(mean_heading().len() as int));
            }
            let parts = ws_fields_of(&tail);
            if parts.len() >= 2 {
                mean = bytes_from_fields_exec(&parts[0], Some(&parts[1]));
            }
        }
        i = i + 1;
    }
    proof {
        assert(views(ls@).take(ls@.len() as int) =~= views(ls@));
    }
    (bandwidth, mean, count)
}

/// How a topic metric was obtained.
#[derive(Debug, Clone, Copy, PartialEq, Eq, Structural)]
pub enum MetricConfidence {
    Observed,
    Estimated,
    Partial,
    Unknown,
}

pub open spec fn metric_confidence_label(c: MetricConfidence) -> Seq<char> {
    match c {
        MetricConfidence::Observed => "observed"@,
        MetricConfidence::Estimated => "estimated"@,
        MetricConfidence::Partial => "partial"@,
        MetricConfidence::Unknown => "unknown"@,
    }
}

impl MetricConfidence {
    /// The label shown for the confidence.
    pub fn to_string(&self) -> (r: String)
        ensures
            r@ == metric_confidence_label(*self),
    {
        match self {
            MetricConfidence::Observed => owned("observed"),
            MetricConfidence::Estimated => owned("estimated"),
            MetricConfidence::Partial => owned("partial"),
            MetricConfidence::Unknown => owned("unknown"),
        }
    }
}

/// The confidence of a sampled metric: estimated when a receive rate can be
/// derived (a bandwidth and a positive mean message size), partial when only
/// some of it was seen, unknown when nothing was.
pub fn metric_confidence(bandwidth: Option<u64>, mean_message_bytes: Option<u64>) -> (r: MetricConfidence)
    ensures
        r == if bandwidth is Some && (mean_message_bytes matches Some(m) && m > 0) {
            MetricConfidence::Estimated
        } else if bandwidth is Some || mean_message_bytes is Some {
            MetricConfidence::Partial
        } else {
            MetricConfidence::Unknown
        },
{
    match (bandwidth, mean_message_bytes) {
        (Some(_), Some(m)) if m > 0 => MetricConfidence::Estimated,
        (Some(_), _) | (_, Some(_)) => MetricConfidence::Partial,
        _ => MetricConfidence::Unknown,
    }
}

/// Topics that carry bookkeeping rather than data.
pub open spec fn infrastructure_topic(topic: Seq<char>) -> bool {
    topic == "/parameter_events"@ || topic == "/rosout"@ || topic == "/tf"@ || topic == "/tf_static"@
        || topic == "/clock"@ || starts_with(topic, "/diagnostics"@)
}

pub fn is_infrastructure_topic(topic: &str) -> (r: bool)
    ensures
        r == infrastructure_topic(topic@),
{
    let t = chars_of(topic);
    eq_str(&t, "/parameter_events") || eq_str(&t, "/rosout") || eq_str(&t, "/tf") || eq_str(&t, "/tf_static")
        || eq_str(&t, "/clock") || starts_with_str(&t, "/diagnostics")
}

/// A topic worth sampling: it has a publisher and a subscriber and carries data.
pub open spec fn worth_sampling(t: RosTopicInfo) -> bool {
    t.publishers@.len() > 0 && t.subscribers@.len() > 0 && !infrastructure_topic(t.name@)
}

/// The topics to sample: the first `max_topics` that are worth it, in order.
pub open spec fn selected_topics(ts: Seq<RosTopicInfo>, max_topics: nat) -> Seq<RosTopicInfo> {
    let chosen = ts.filter(|t: RosTopicInfo| worth_sampling(t));
    if chosen.len() <= max_topics {
        chosen
    } else {
        chosen.take(max_topics as int)
    }
}

pub fn select_metric_topics<'a>(topics: &'a [RosTopicInfo], max_topics: usize) -> (r: Vec<&'a RosTopicInfo>)
    ensures
        r@.map_values(|t: &RosTopicInfo| *t) == selected_topics(topics@, max_topics as nat),
{
    let ghost pred = |t: RosTopicInfo| worth_sampling(t);
    let mut r: Vec<&'a RosTopicInfo> = Vec::new();
    let mut i: usize = 0;
    while i < topics.len() && r.len() < max_topics
        invariant
            i <= topics.len(),
            r@.len() <= max_topics,
            pred == (|t: RosTopicInfo| worth_sampling(t)),
            r@.map_values(|t: &RosTopicInfo| *t) == topics@.take(i as int).filter(pred),
        decreases topics.len() - i,
    {
        let t = &topics[i];
        proof {
            assert(topics@.take(i + 1) =~= topics@.take(i as int).push(*t));
            topics@.take(i as int).lemma_filter_push(*t, pred);
        }
        if t.publishers.len() > 0 && t.subscribers.len() > 0 && !is_infrastructure_topic(t.name.as_str()) {
            let ghost before = r@;
            r.push(t);
            assert(r@.map_values(|t: &RosTopicInfo| *t) =~= before.map_values(|t: &RosTopicInfo| *t).push(*t));
        }
        i = i + 1;
    }
    proof {
        let chosen = topics@.filter(pred);
        let sofar = topics@.take(i as int).filter(pred);
        lemma_filter_prefix(topics@, pred, i as int);
        if i == topics.len() {
            assert(topics@.take(i as int) =~= topics@);
        }
    }
    r
}

/// The filtered prefix of a sequence is a prefix of the filtered sequence.
proof fn lemma_filter_prefix(s: Seq<RosTopicInfo>, p: spec_fn(RosTopicInfo) -> bool, i: int)
    requires
        0 <= i <= s.len(),
    ensures
        s.take(i).filter(p).len() <= s.filter(p).len(),
        s.filter(p).take(s.take(i).filter(p).len() as int) == s.take(i).filter(p),
    decreases s.len() - i,
{
    if i < s.len() {
        lemma_filter_prefix(s, p, i + 1);
        assert(s.take(i + 1) =~= s.take(i).push(s[i]));
        s.take(i).lemma_filter_push(s[i], p);
        let a = s.take(i).filter(p);
        let b = s.take(i + 1).filter(p);
        let f = s.filter(p);
        if p(s[i]) {
            assert(b == a.push(s[i]));
            assert(f.take(a.len() as int) =~= b.take(a.len() as int));
        }
    } else {
        assert(s.take(i) =~= s);
        assert(s.filter(p).take(s.filter(p).len() as int) =~= s.filter(p));
    }
}

/// Samples topic traffic with `ros2 topic bw`, one topic at a time per
/// thread, for a bounded window and a bounded number of topics.
#[derive(Debug, Clone, Copy)]
pub struct CliRosTopicMetricsCollector {
    sample_window: Duration,
    max_topics: usize,
}

impl Default for CliRosTopicMetricsCollector {
    fn default() -> (r: Self)
        ensures
            duration_nanos(r.sample_window_view()) == 2_000_000_000,
            r.max_topics_view() == 2,
    {
        CliRosTopicMetricsCollector { sample_window: duration_from_nanos(2_000_000_000), max_topics: 2 }
    }
}

impl CliRosTopicMetricsCollector {
    pub closed spec fn sample_window_view(&self) -> Duration {
        self.sample_window
    }

    pub closed spec fn max_topics_view(&self) -> usize {
        self.max_topics
    }

    pub fn with_sample_window(self, sample_window: Duration) -> (r: Self)
        ensures
            r.sample_window_view() == sample_window,
            r.max_topics_view() == self.max_topics_view(),
    {
        let mut next = self;
        next.sample_window = sample_window;
        next
    }

    pub fn with_max_topics(self, max_topics: usize) -> (r: Self)
        ensures
            r.max_topics_view() == max_topics,
            r.sample_window_view() == self.sample_window_view(),
    {
        let mut next = self;
        next.max_topics = max_topics;
        next
    }

    /// How long each topic is sampled.
    pub fn sample_window(&self) -> (r: Duration)
        ensures
            r == self.sample_window_view(),
    {
        self.sample_window
    }

    /// How many topics are sampled at most.
    pub fn max_topics(&self) -> (r: usize)
        ensures
            r == self.max_topics_view(),
    {
        self.max_topics
    }
}

} // verus!
