//! The metric model and its serialization to the exposition text format.
//!
//! One metric is a line `name{key1="value1",key2="value2"} value` followed
//! by a newline. Label order is the insertion order used when the metric was
//! built; values are escaped before quoting.

use vstd::prelude::*;
use crate::escape::escape_seq;
use crate::escape::escape_chars;
use crate::numbers::dec_str;
use crate::numbers::u128_to_dec_chars;
use crate::text::str_to_chars;
use crate::text::chars_to_string;

verus! {

/// The fixed set of metric names this exporter emits.
#[derive(Clone, Copy, Debug, PartialEq, Eq, Structural)]
pub enum MetricName {
    /// Bytes allocated on one device, keyed by allocation type.
    AllocBytes,
    /// Total capacity of one device in bytes.
    Capacity,
}

impl MetricName {
    pub open spec fn spec_text(self) -> Seq<char> {
        match self {
            MetricName::AllocBytes => "bcachefs_dev_alloc_bytes"@,
            MetricName::Capacity => "bcachefs_dev_capacity"@,
        }
    }

    pub fn text(self) -> (r: &'static str)
        ensures
            r@ == self.spec_text(),
    {
        match self {
            MetricName::AllocBytes => "bcachefs_dev_alloc_bytes",
            MetricName::Capacity => "bcachefs_dev_capacity",
        }
    }
}

/// Mathematical form of one measurement.
pub struct GMetric {
    pub name: Seq<char>,
    pub labels: Seq<(Seq<char>, Seq<char>)>,
    pub value: nat,
}

/// One measurement: a name, an ordered label set, and a byte-denominated
/// value. Values are exact integer byte counts, so they are carried as
/// integers and rendered as plain decimal numerals, a form every conforming
/// reader of the exposition format accepts.
#[derive(Debug, PartialEq, Eq)]
pub struct Metric {
    pub name: MetricName,
    pub labels: Vec<(String, String)>,
    pub value: u128,
}

impl View for Metric {
    type V = GMetric;

    open spec fn view(&self) -> GMetric {
        GMetric {
            name: self.name.spec_text(),
            labels: self.labels@.map_values(|p: (String, String)| (p.0@, p.1@)),
            value: self.value as nat,
        }
    }
}

/// One `key="escaped value"` pair.
pub open spec fn encode_label(kv: (Seq<char>, Seq<char>)) -> Seq<char> {
    kv.0 + seq!['=', '"'] + escape_seq(kv.1) + seq!['"']
}

/// The labels after the first, each preceded by its separating comma.
pub open spec fn encode_labels_rest(ls: Seq<(Seq<char>, Seq<char>)>) -> Seq<char>
    decreases ls.len(),
{
    if ls.len() == 0 {
        Seq::empty()
    } else {
        seq![','] + encode_label(ls[0]) + encode_labels_rest(ls.skip(1))
    }
}

/// The comma-separated label pairs, in insertion order.
pub open spec fn encode_labels(ls: Seq<(Seq<char>, Seq<char>)>) -> Seq<char> {
    if ls.len() == 0 {
        Seq::empty()
    } else {
        encode_label(ls[0]) + encode_labels_rest(ls.skip(1))
    }
}

/// The full text line of one metric, newline included.
pub open spec fn encode_metric(m: GMetric) -> Seq<char> {
    m.name + seq!['{'] + encode_labels(m.labels) + seq!['}', ' '] + dec_str(m.value) + seq![
        '\n',
    ]
}

/// The concatenated lines of a whole scrape, in order.
pub open spec fn encode_metrics(ms: Seq<GMetric>) -> Seq<char>
    decreases ms.len(),
{
    if ms.len() == 0 {
        Seq::empty()
    } else {
        encode_metric(ms[0]) + encode_metrics(ms.skip(1))
    }
}

fn append_str_chars(out: &mut Vec<char>, s: &str)
    ensures
        final(out)@ == old(out)@ + s@,
{
    let v = str_to_chars(s);
    out.extend_from_slice(v.as_slice());
}

impl Metric {
    /// The metric's text line: name, braced label pairs in insertion order
    /// with escaped values, a space, the decimal value, and a newline.
    pub fn encode(&self) -> (r: String)
        ensures
            r@ == encode_metric(self@),
    {
        let ghost lsv = self@.labels;
        let mut out: Vec<char> = Vec::new();
        append_str_chars(&mut out, self.name.text());
        out.push('{');
        let ghost head = self@.name + seq!['{'];
        proof {
            assert(out@ =~= head);
        }
        let mut i: usize = 0;
        while i < self.labels.len()
            invariant
                i <= self.labels.len(),
                lsv == self@.labels,
                lsv.len() == self.labels.len(),
                forall|k: int|
                    0 <= k < lsv.len() ==> lsv[k] == (self.labels@[k].0@, self.labels@[k].1@),
                head == self@.name + seq!['{'],
                out@ + (if i == 0 {
                    encode_labels(lsv)
                } else {
                    encode_labels_rest(lsv.skip(i as int))
                }) == head + encode_labels(lsv),
            decreases self.labels.len() - i,
        {
            if i > 0 {
                out.push(',');
                proof {
                    assert(lsv.skip(i as int)[0] == lsv[i as int]);
                    assert(lsv.skip(i as int).skip(1) =~= lsv.skip(i as int + 1));
                    assert(out@ + encode_label(lsv[i as int]) + encode_labels_rest(
                        lsv.skip(i as int + 1),
                    ) =~= head + encode_labels(lsv));
                }
            } else {
                proof {
                    assert(lsv.skip(1) =~= lsv.skip(0int + 1));
                    assert(out@ + encode_label(lsv[0]) + encode_labels_rest(lsv.skip(1)) =~= head
                        + encode_labels(lsv));
                }
            }
            let key: &String = &self.labels[i].0;
            append_str_chars(&mut out, key.as_str());
            out.push('=');
            out.push('"');
            let value_chars = str_to_chars(self.labels[i].1.as_str());
            let escaped = escape_chars(&value_chars);
            out.extend_from_slice(escaped.as_slice());
            out.push('"');
            proof {
                assert(out@ + encode_labels_rest(lsv.skip(i as int + 1)) =~= head + encode_labels(
                    lsv,
                ));
            }
            i = i + 1;
        }
        proof {
            if lsv.len() == 0 {
                assert(out@ + encode_labels(lsv) =~= out@);
            } else {
                assert(lsv.skip(lsv.len() as int).len() == 0);
                assert(out@ + encode_labels_rest(lsv.skip(lsv.len() as int)) =~= out@);
            }
            assert(out@ =~= head + encode_labels(lsv));
        }
        out.push('}');
        out.push(' ');
        let digits = u128_to_dec_chars(self.value);
        out.extend_from_slice(digits.as_slice());
        out.push('\n');
        proof {
            assert(out@ =~= encode_metric(self@));
        }
        chars_to_string(&out)
    }
}

/// The whole response body for one scrape: every metric's line, in order.
/// An empty metric sequence yields an empty body.
pub fn encode_all(ms: &Vec<Metric>) -> (r: String)
    ensures
        r@ == encode_metrics(ms@.map_values(|m: Metric| m@)),
{
    let ghost msv = ms@.map_values(|m: Metric| m@);
    let mut out: Vec<char> = Vec::new();
    let mut i: usize = 0;
    proof {
        assert(msv.skip(0) =~= msv);
        assert(out@ + encode_metrics(msv) =~= encode_metrics(msv));
    }
    while i < ms.len()
        invariant
            i <= ms.len(),
            msv == ms@.map_values(|m: Metric| m@),
            msv.len() == ms.len(),
            out@ + encode_metrics(msv.skip(i as int)) == encode_metrics(msv),
        decreases ms.len() - i,
    {
        proof {
            assert(msv.skip(i as int)[0] == msv[i as int]);
            assert(msv.skip(i as int).skip(1) =~= msv.skip(i as int + 1));
        }
        let line = ms[i].encode();
        append_str_chars(&mut out, line.as_str());
        proof {
            assert(out@ + encode_metrics(msv.skip(i as int + 1)) =~= encode_metrics(msv));
        }
        i = i + 1;
    }
    proof {
        assert(out@ =~= encode_metrics(msv));
    }
    chars_to_string(&out)
}

} // verus!
