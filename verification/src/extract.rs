//! Extraction of one device's metrics from its pseudo-files.
//!
//! The caller reads the files and hands their contents in as plain values;
//! extraction resolves the device name from the symlink target, trims the
//! label, parses the allocation table, and converts each row to a metric
//! under the device's base labels.

use vstd::prelude::*;
use crate::errors::ExtractionError;
use crate::errors::GExtractionError;
use crate::metric::Metric;
use crate::metric::GMetric;
use crate::metric::MetricName;
use crate::numbers::dec_str;
use crate::numbers::u128_to_dec_chars;
use crate::outside::byte_quantity_of;
use crate::outside::parse_byte_quantity;
use crate::table::GAllocRow;
use crate::table::AllocRow;
use crate::table::rows_view;
use crate::table::spec_parse_table;
use crate::table::parse_alloc_table;
use crate::text::spec_trim;
use vstd::string::StringExecFns;
use crate::text::trim_chars;
use crate::text::str_to_chars;
use crate::text::chars_to_string;
use crate::text::chars_subrange;
use crate::units::sector_count_to_bytes;
use crate::units::bucket_count_to_bytes;

verus! {

/// The contents of one device directory, each file absent or present.
pub struct DeviceFiles {
    /// Target path of the block-device symlink.
    pub block_target: Option<String>,
    /// Raw contents of the label file.
    pub label: Option<String>,
    /// Raw contents of the bucket-size file, a human-readable quantity.
    pub bucket_size: Option<String>,
    /// Raw contents of the allocation table file.
    pub alloc_debug: Option<String>,
}

/// Mathematical form of one device directory's contents.
pub struct GDeviceFiles {
    pub block_target: Option<Seq<char>>,
    pub label: Option<Seq<char>>,
    pub bucket_size: Option<Seq<char>>,
    pub alloc_debug: Option<Seq<char>>,
}

impl View for DeviceFiles {
    type V = GDeviceFiles;

    open spec fn view(&self) -> GDeviceFiles {
        GDeviceFiles {
            block_target: match &self.block_target {
                Some(s) => Some(s@),
                None => None,
            },
            label: match &self.label {
                Some(s) => Some(s@),
                None => None,
            },
            bucket_size: match &self.bucket_size {
                Some(s) => Some(s@),
                None => None,
            },
            alloc_debug: match &self.alloc_debug {
                Some(s) => Some(s@),
                None => None,
            },
        }
    }
}

pub open spec fn metrics_view(ms: Seq<Metric>) -> Seq<GMetric> {
    ms.map_values(|m: Metric| m@)
}

/// The final path segment of a symlink target: what follows the last
/// separator.
pub open spec fn final_segment(p: Seq<char>) -> Seq<char>
    decreases p.len(),
{
    if p.len() == 0 {
        Seq::empty()
    } else if p.last() == '/' {
        Seq::empty()
    } else {
        final_segment(p.drop_last()).push(p.last())
    }
}

/// The base label set shared by every metric of one device.
pub open spec fn spec_base_labels(
    fs_id: Seq<char>,
    device_no: u64,
    device: Seq<char>,
    label: Seq<char>,
) -> Seq<(Seq<char>, Seq<char>)> {
    seq![
        ("fs"@, fs_id),
        ("device_no"@, dec_str(device_no as nat)),
        ("device"@, device),
        ("label"@, label),
    ]
}

/// The metric of one table row: a typed row is an allocation-bytes gauge
/// keyed by its type label; a capacity row is the capacity gauge, scaled by
/// the device's bucket size.
pub open spec fn spec_row_metric(
    base: Seq<(Seq<char>, Seq<char>)>,
    bucket_size: Option<Seq<char>>,
    row: GAllocRow,
) -> Result<GMetric, GExtractionError> {
    match row {
        GAllocRow::Typed { ty, buckets, sectors, fragmented } => Ok(
            GMetric {
                name: "bcachefs_dev_alloc_bytes"@,
                labels: base.push(("type"@, ty)),
                value: 512 * (sectors as nat),
            },
        ),
        GAllocRow::Capacity { buckets } => match bucket_size {
            None => Err(GExtractionError::MissingAttribute),
            Some(t) => match byte_quantity_of(t) {
                None => Err(GExtractionError::InvalidNumber { text: t }),
                Some(sz) => Ok(
                    GMetric {
                        name: "bcachefs_dev_capacity"@,
                        labels: base,
                        value: (buckets as nat) * (sz as nat),
                    },
                ),
            },
        },
    }
}

/// The metrics of a row sequence, in table order.
pub open spec fn spec_row_metrics(
    base: Seq<(Seq<char>, Seq<char>)>,
    bucket_size: Option<Seq<char>>,
    rows: Seq<GAllocRow>,
) -> Result<Seq<GMetric>, GExtractionError>
    decreases rows.len(),
{
    if rows.len() == 0 {
        Ok(Seq::empty())
    } else {
        match spec_row_metric(base, bucket_size, rows[0]) {
            Err(e) => Err(e),
            Ok(m) => match spec_row_metrics(base, bucket_size, rows.skip(1)) {
                Err(e) => Err(e),
                Ok(rest) => Ok(seq![m] + rest),
            },
        }
    }
}

/// Everything extraction yields for one device: the symlink target must be
/// present and carry a final segment, the label and table files must be
/// present, the table must parse, and each row becomes its metric. The
/// bucket size is consulted only when a capacity row needs it.
pub open spec fn spec_extract(fs_id: Seq<char>, device_no: u64, files: GDeviceFiles) -> Result<
    Seq<GMetric>,
    GExtractionError,
> {
    match files.block_target {
        None => Err(GExtractionError::MissingLink),
        Some(target) => {
            let device = final_segment(target);
            if device.len() == 0 {
                Err(GExtractionError::MissingLink)
            } else {
                match files.label {
                    None => Err(GExtractionError::MissingAttribute),
                    Some(raw_label) => {
                        let base = spec_base_labels(
                            fs_id,
                            device_no,
                            device,
                            spec_trim(raw_label),
                        );
                        match files.alloc_debug {
                            None => Err(GExtractionError::MissingAttribute),
                            Some(table_text) => match spec_parse_table(table_text) {
                                Err(e) => Err(e),
                                Ok(rows) => spec_row_metrics(base, files.bucket_size, rows),
                            },
                        }
                    },
                }
            }
        },
    }
}

/// The final path segment of `v`.
fn final_segment_chars(v: &Vec<char>) -> (r: Vec<char>)
    ensures
        r@ == final_segment(v@),
{
    let mut j: usize = v.len();
    proof {
        assert(v@.take(j as int) =~= v@);
        assert(v@.skip(j as int).len() == 0);
        assert(final_segment(v@) =~= final_segment(v@.take(j as int)) + v@.skip(j as int));
    }
    while j > 0 && v[j - 1] != '/'
        invariant
            j <= v.len(),
            final_segment(v@) == final_segment(v@.take(j as int)) + v@.skip(j as int),
        decreases j,
    {
        proof {
            assert(v@.take(j as int).last() == v@[j - 1]);
            assert(v@.take(j as int).drop_last() =~= v@.take(j as int - 1));
            assert(final_segment(v@.take(j as int - 1)) + v@.skip(j as int - 1)
                =~= final_segment(v@.take(j as int - 1)).push(v@[j - 1]) + v@.skip(j as int));
        }
        j = j - 1;
    }
    proof {
        if j > 0 {
            assert(v@.take(j as int).last() == v@[j - 1]);
            assert(final_segment(v@.take(j as int)) =~= Seq::<char>::empty());
        } else {
            assert(v@.take(0).len() == 0);
        }
        assert(final_segment(v@) =~= v@.skip(j as int));
        assert(v@.skip(j as int) =~= v@.subrange(j as int, v@.len() as int));
    }
    chars_subrange(v, j, v.len())
}

/// A fresh copy of the device's base label set.
fn base_labels(fs_id: &str, device_no: u64, device: &Vec<char>, label: &Vec<char>) -> (r: Vec<
    (String, String),
>)
    ensures
        r@.map_values(|p: (String, String)| (p.0@, p.1@)) == spec_base_labels(
            fs_id@,
            device_no,
            device@,
            label@,
        ),
{
    let mut r: Vec<(String, String)> = Vec::new();
    r.push((String::from_str("fs"), fs_id.to_owned()));
    r.push((String::from_str("device_no"), chars_to_string(&u128_to_dec_chars(device_no as u128))));
    r.push((String::from_str("device"), chars_to_string(device)));
    r.push((String::from_str("label"), chars_to_string(label)));
    proof {
        assert(r@.map_values(|p: (String, String)| (p.0@, p.1@)) =~= spec_base_labels(
            fs_id@,
            device_no,
            device@,
            label@,
        ));
    }
    r
}

/// Extracts the metrics of one device from the contents of its directory.
pub fn extract(fs_id: &str, device_no: u64, files: &DeviceFiles) -> (r: Result<
    Vec<Metric>,
    ExtractionError,
>)
    ensures
        (match r {
            Ok(ms) => spec_extract(fs_id@, device_no, files@) == Ok::<Seq<GMetric>, GExtractionError>(
                metrics_view(ms@),
            ),
            Err(e) => spec_extract(fs_id@, device_no, files@) == Err::<
                Seq<GMetric>,
                GExtractionError,
            >(e@),
        }),
{
    let target = match &files.block_target {
        None => {
            return Err(ExtractionError::MissingLink);
        },
        Some(t) => t,
    };
    let target_chars = str_to_chars(target.as_str());
    let device = final_segment_chars(&target_chars);
    if device.len() == 0 {
        return Err(ExtractionError::MissingLink);
    }
    let raw_label = match &files.label {
        None => {
            return Err(ExtractionError::MissingAttribute);
        },
        Some(l) => l,
    };
    let label = trim_chars(&str_to_chars(raw_label.as_str()));
    let ghost base = spec_base_labels(fs_id@, device_no, device@, label@);
    let table_text = match &files.alloc_debug {
        None => {
            return Err(ExtractionError::MissingAttribute);
        },
        Some(t) => t,
    };
    let rows = match parse_alloc_table(table_text.as_str()) {
        Err(e) => {
            return Err(e);
        },
        Ok(rs) => rs,
    };
    let ghost rowsv = rows_view(rows@);
    let ghost bsv = files@.bucket_size;
    let mut out: Vec<Metric> = Vec::new();
    let mut i: usize = 0;
    proof {
        assert(rowsv.skip(0) =~= rowsv);
        if spec_row_metrics(base, bsv, rowsv) is Ok {
            assert(metrics_view(out@) + spec_row_metrics(base, bsv, rowsv)->Ok_0
                =~= spec_row_metrics(base, bsv, rowsv)->Ok_0);
        }
    }
    while i < rows.len()
        invariant
            i <= rows.len(),
            rowsv == rows_view(rows@),
            rowsv.len() == rows@.len(),
            base == spec_base_labels(fs_id@, device_no, device@, label@),
            bsv == files@.bucket_size,
            spec_extract(fs_id@, device_no, files@) == spec_row_metrics(base, bsv, rowsv),
            spec_row_metrics(base, bsv, rowsv) == (match spec_row_metrics(
                base,
                bsv,
                rowsv.skip(i as int),
            ) {
                Ok(rest) => Ok::<Seq<GMetric>, GExtractionError>(metrics_view(out@) + rest),
                Err(e) => Err::<Seq<GMetric>, GExtractionError>(e),
            }),
        decreases rows.len() - i,
    {
        proof {
            assert(rowsv.skip(i as int)[0] == rows@[i as int]@);
            assert(rowsv.skip(i as int).skip(1) =~= rowsv.skip(i as int + 1));
        }
        let m: Metric;
        match &rows[i] {
            AllocRow::Typed { ty, buckets, sectors, fragmented } => {
                let mut labels = base_labels(fs_id, device_no, &device, &label);
                labels.push((String::from_str("type"), ty.clone()));
                let value = sector_count_to_bytes(*sectors);
                m = Metric { name: MetricName::AllocBytes, labels, value };
                proof {
                    assert(m@.labels =~= base.push(("type"@, ty@)));
                }
            },
            AllocRow::Capacity { buckets } => {
                let size_text = match &files.bucket_size {
                    None => {
                        return Err(ExtractionError::MissingAttribute);
                    },
                    Some(t) => t,
                };
                let size = match parse_byte_quantity(size_text.as_str()) {
                    None => {
                        return Err(
                            ExtractionError::InvalidNumber { text: size_text.as_str().to_owned() },
                        );
                    },
                    Some(sz) => sz,
                };
                let labels = base_labels(fs_id, device_no, &device, &label);
                let value = bucket_count_to_bytes(*buckets, size);
                m = Metric { name: MetricName::Capacity, labels, value };
                proof {
                    assert(m@.labels =~= base);
                }
            },
        }
        proof {
            if spec_row_metrics(base, bsv, rowsv.skip(i as int + 1)) is Ok {
                let rest = spec_row_metrics(base, bsv, rowsv.skip(i as int + 1))->Ok_0;
                assert(metrics_view(out@.push(m)) =~= metrics_view(out@).push(m@));
                assert(metrics_view(out@) + (seq![m@] + rest) =~= metrics_view(out@.push(m))
                    + rest);
            }
        }
        out.push(m);
        i = i + 1;
    }
    proof {
        assert(rowsv.skip(rowsv.len() as int).len() == 0);
        assert(metrics_view(out@) + Seq::<GMetric>::empty() =~= metrics_view(out@));
    }
    Ok(out)
}

} // verus!
