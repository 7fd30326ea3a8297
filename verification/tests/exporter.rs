use bcachefs_exporter::collect::collect_all;
use bcachefs_exporter::collect::scrape_body;
use bcachefs_exporter::collect::DirEntry;
use bcachefs_exporter::collect::FsDir;
use bcachefs_exporter::discover::device_entry;
use bcachefs_exporter::discover::discover_devices;
use bcachefs_exporter::discover::discover_filesystems;
use bcachefs_exporter::errors::CollectError;
use bcachefs_exporter::errors::DiscoveryError;
use bcachefs_exporter::errors::ExtractionError;
use bcachefs_exporter::escape::escape_label_value;
use bcachefs_exporter::escape::unescape_label_value;
use bcachefs_exporter::extract::extract;
use bcachefs_exporter::extract::DeviceFiles;
use bcachefs_exporter::metric::encode_all;
use bcachefs_exporter::metric::Metric;
use bcachefs_exporter::metric::MetricName;
use bcachefs_exporter::table::parse_alloc_table;
use bcachefs_exporter::table::AllocRow;
use bcachefs_exporter::units::bucket_size_bytes;
use bcachefs_exporter::units::buckets_to_bytes;
use bcachefs_exporter::units::sectors_to_bytes;

const FS_ID: &str = "11111111-1111-1111-1111-111111111111";

fn empty_files() -> DeviceFiles {
    DeviceFiles {
        block_target: None,
        label: None,
        bucket_size: None,
        alloc_debug: None,
    }
}

fn good_files() -> DeviceFiles {
    DeviceFiles {
        block_target: Some("../../../devices/virtual/block/sda".to_string()),
        label: Some("ssd\n".to_string()),
        bucket_size: Some("4 KiB".to_string()),
        alloc_debug: Some("buckets sectors fragmented\nuser 10 20 0\ncapacity 100\n".to_string()),
    }
}

#[test]
fn sectors_to_bytes_multiplies_by_512() {
    assert_eq!(sectors_to_bytes("20"), Ok(10240));
    assert_eq!(sectors_to_bytes("0"), Ok(0));
    assert_eq!(sectors_to_bytes("+7"), Ok(3584));
    assert_eq!(
        sectors_to_bytes("18446744073709551615"),
        Ok(512 * 18446744073709551615u128)
    );
}

#[test]
fn sectors_to_bytes_rejects_malformed_counts() {
    assert_eq!(
        sectors_to_bytes("abc"),
        Err(ExtractionError::InvalidNumber {
            text: "abc".to_string()
        })
    );
    assert_eq!(
        sectors_to_bytes(""),
        Err(ExtractionError::InvalidNumber {
            text: "".to_string()
        })
    );
    assert_eq!(
        sectors_to_bytes("-4"),
        Err(ExtractionError::InvalidNumber {
            text: "-4".to_string()
        })
    );
    // one past u64::MAX
    assert_eq!(
        sectors_to_bytes("18446744073709551616"),
        Err(ExtractionError::InvalidNumber {
            text: "18446744073709551616".to_string()
        })
    );
}

#[test]
fn bucket_size_parses_human_readable_quantities() {
    assert_eq!(bucket_size_bytes("4 KiB"), Ok(4096));
    assert_eq!(bucket_size_bytes("512 KiB"), Ok(524288));
    assert_eq!(bucket_size_bytes("128"), Ok(128));
    assert_eq!(
        bucket_size_bytes("many bytes"),
        Err(ExtractionError::InvalidNumber {
            text: "many bytes".to_string()
        })
    );
}

#[test]
fn buckets_to_bytes_scales_by_bucket_size() {
    assert_eq!(buckets_to_bytes("4 KiB", "100"), Ok(409600));
    assert_eq!(buckets_to_bytes("1 MiB", "3"), Ok(3 * 1048576));
    // the count is examined before the size text
    assert_eq!(
        buckets_to_bytes("nonsense", "x"),
        Err(ExtractionError::InvalidNumber {
            text: "x".to_string()
        })
    );
    assert_eq!(
        buckets_to_bytes("nonsense", "5"),
        Err(ExtractionError::InvalidNumber {
            text: "nonsense".to_string()
        })
    );
}

#[test]
fn escaping_rewrites_the_three_special_characters() {
    assert_eq!(escape_label_value("plain"), "plain");
    assert_eq!(escape_label_value("a\\b"), "a\\\\b");
    assert_eq!(escape_label_value("a\nb"), "a\\nb");
    assert_eq!(escape_label_value("a\"b"), "a\\\"b");
    assert_eq!(escape_label_value("\\\n\""), "\\\\\\n\\\"");
}

#[test]
fn escaping_round_trips_through_a_conforming_reader() {
    for value in [
        "",
        "ssd",
        "a\\b\"c\nd",
        "\\\\",
        "\"\"",
        "\n\n",
        "mixed \\n literal and real\nnewline",
    ] {
        let escaped = escape_label_value(value);
        assert_eq!(unescape_label_value(&escaped), value);
    }
}

#[test]
fn table_parses_typed_and_capacity_rows() {
    let rows =
        parse_alloc_table("buckets sectors fragmented\nuser 10 20 0\ncapacity 100\n").unwrap();
    assert_eq!(
        rows,
        vec![
            AllocRow::Typed {
                ty: "user".to_string(),
                buckets: 10,
                sectors: 20,
                fragmented: 0
            },
            AllocRow::Capacity { buckets: 100 },
        ]
    );
}

#[test]
fn table_stops_at_first_blank_line() {
    let rows = parse_alloc_table("buckets sectors fragmented\nuser 1 2 3\n\nnot a row at all\n")
        .unwrap();
    assert_eq!(
        rows,
        vec![AllocRow::Typed {
            ty: "user".to_string(),
            buckets: 1,
            sectors: 2,
            fragmented: 3
        }]
    );
}

#[test]
fn table_tolerates_irregular_whitespace() {
    let rows = parse_alloc_table("  buckets\t sectors   fragmented \nuser  1\t2   3\n").unwrap();
    assert_eq!(
        rows,
        vec![AllocRow::Typed {
            ty: "user".to_string(),
            buckets: 1,
            sectors: 2,
            fragmented: 3
        }]
    );
}

#[test]
fn table_accepts_carriage_return_line_endings() {
    let rows =
        parse_alloc_table("buckets sectors fragmented\r\nuser 1 2 3\r\ncapacity 9\r\n").unwrap();
    assert_eq!(
        rows,
        vec![
            AllocRow::Typed {
                ty: "user".to_string(),
                buckets: 1,
                sectors: 2,
                fragmented: 3
            },
            AllocRow::Capacity { buckets: 9 },
        ]
    );
}

#[test]
fn table_skips_blank_lines_before_the_header() {
    let rows = parse_alloc_table("\n\nbuckets sectors fragmented\nuser 1 2 3\n").unwrap();
    assert_eq!(rows.len(), 1);
}

#[test]
fn table_rejects_wrong_header() {
    assert_eq!(
        parse_alloc_table("buckets sectors\nuser 1 2 3\n"),
        Err(ExtractionError::UnexpectedFormat)
    );
    assert_eq!(
        parse_alloc_table("sectors buckets fragmented\n"),
        Err(ExtractionError::UnexpectedFormat)
    );
    assert_eq!(
        parse_alloc_table(""),
        Err(ExtractionError::UnexpectedFormat)
    );
}

#[test]
fn table_rejects_rows_of_other_token_counts() {
    let header = "buckets sectors fragmented\n";
    for bad in ["lonely\n", "a b c\n", "a b c d e\n", "capacity\n"] {
        assert_eq!(
            parse_alloc_table(&format!("{header}{bad}")),
            Err(ExtractionError::UnexpectedFormat),
            "row {bad:?} should be rejected"
        );
    }
    // two tokens whose first is not `capacity`
    assert_eq!(
        parse_alloc_table("buckets sectors fragmented\nspare 3\n"),
        Err(ExtractionError::UnexpectedFormat)
    );
}

#[test]
fn table_reports_the_offending_numeral() {
    assert_eq!(
        parse_alloc_table("buckets sectors fragmented\nuser ten 20 0\n"),
        Err(ExtractionError::InvalidNumber {
            text: "ten".to_string()
        })
    );
    assert_eq!(
        parse_alloc_table("buckets sectors fragmented\ncapacity lots\n"),
        Err(ExtractionError::InvalidNumber {
            text: "lots".to_string()
        })
    );
}

#[test]
fn device_entries_follow_the_naming_convention() {
    assert_eq!(device_entry("dev-0"), Ok(Some(0)));
    assert_eq!(device_entry("dev-17"), Ok(Some(17)));
    assert_eq!(device_entry("internal"), Ok(None));
    assert_eq!(device_entry("de"), Ok(None));
    assert_eq!(
        device_entry("dev-abc"),
        Err(DiscoveryError::MalformedDeviceName {
            name: "dev-abc".to_string()
        })
    );
}

#[test]
fn discover_devices_skips_other_entries() {
    let entries = vec![
        "alloc_debug".to_string(),
        "dev-2".to_string(),
        "label".to_string(),
        "dev-10".to_string(),
    ];
    assert_eq!(discover_devices(&entries), Ok(vec![2, 10]));
}

#[test]
fn discover_filesystems_normalizes_identifiers() {
    let entries = vec![FS_ID.to_string(), "ABCDEF00-1111-2222-3333-444455556666".to_string()];
    assert_eq!(
        discover_filesystems(&entries),
        Ok(vec![
            FS_ID.to_string(),
            "abcdef00-1111-2222-3333-444455556666".to_string()
        ])
    );
    let bad = vec!["not-a-uuid".to_string()];
    assert_eq!(
        discover_filesystems(&bad),
        Err(DiscoveryError::MalformedIdentifier {
            name: "not-a-uuid".to_string()
        })
    );
}

#[test]
fn extract_builds_both_metrics() {
    let metrics = extract(FS_ID, 0, &good_files()).unwrap();
    assert_eq!(metrics.len(), 2);
    assert_eq!(metrics[0].name, MetricName::AllocBytes);
    assert_eq!(metrics[0].value, 10240);
    assert_eq!(
        metrics[0].labels,
        vec![
            ("fs".to_string(), FS_ID.to_string()),
            ("device_no".to_string(), "0".to_string()),
            ("device".to_string(), "sda".to_string()),
            ("label".to_string(), "ssd".to_string()),
            ("type".to_string(), "user".to_string()),
        ]
    );
    assert_eq!(metrics[1].name, MetricName::Capacity);
    assert_eq!(metrics[1].value, 409600);
    assert_eq!(
        metrics[1].labels,
        vec![
            ("fs".to_string(), FS_ID.to_string()),
            ("device_no".to_string(), "0".to_string()),
            ("device".to_string(), "sda".to_string()),
            ("label".to_string(), "ssd".to_string()),
        ]
    );
}

#[test]
fn extract_requires_the_symlink() {
    let mut files = good_files();
    files.block_target = None;
    assert_eq!(extract(FS_ID, 0, &files), Err(ExtractionError::MissingLink));
    let mut files = good_files();
    files.block_target = Some("ends/with/".to_string());
    assert_eq!(extract(FS_ID, 0, &files), Err(ExtractionError::MissingLink));
}

#[test]
fn extract_requires_label_and_table() {
    let mut files = good_files();
    files.label = None;
    assert_eq!(
        extract(FS_ID, 0, &files),
        Err(ExtractionError::MissingAttribute)
    );
    let mut files = good_files();
    files.alloc_debug = None;
    assert_eq!(
        extract(FS_ID, 0, &files),
        Err(ExtractionError::MissingAttribute)
    );
}

#[test]
fn extract_needs_the_bucket_size_only_for_capacity_rows() {
    let mut files = good_files();
    files.bucket_size = None;
    assert_eq!(
        extract(FS_ID, 0, &files),
        Err(ExtractionError::MissingAttribute)
    );
    let mut files = good_files();
    files.bucket_size = None;
    files.alloc_debug = Some("buckets sectors fragmented\nuser 10 20 0\n".to_string());
    let metrics = extract(FS_ID, 0, &files).unwrap();
    assert_eq!(metrics.len(), 1);
    assert_eq!(metrics[0].value, 10240);
}

#[test]
fn metric_encoding_matches_the_exposition_format() {
    let metric = Metric {
        name: MetricName::AllocBytes,
        labels: vec![
            ("fs".to_string(), FS_ID.to_string()),
            ("type".to_string(), "user".to_string()),
        ],
        value: 10240,
    };
    assert_eq!(
        metric.encode(),
        format!("bcachefs_dev_alloc_bytes{{fs=\"{FS_ID}\",type=\"user\"}} 10240\n")
    );
}

#[test]
fn metric_encoding_escapes_label_values() {
    let metric = Metric {
        name: MetricName::Capacity,
        labels: vec![("label".to_string(), "a\\b\"c\nd".to_string())],
        value: 0,
    };
    assert_eq!(
        metric.encode(),
        "bcachefs_dev_capacity{label=\"a\\\\b\\\"c\\nd\"} 0\n"
    );
}

#[test]
fn metric_encoding_renders_large_values_exactly() {
    let metric = Metric {
        name: MetricName::Capacity,
        labels: vec![("label".to_string(), "big".to_string())],
        value: 512 * 18446744073709551615u128,
    };
    assert_eq!(
        metric.encode(),
        "bcachefs_dev_capacity{label=\"big\"} 9444732965739290426880\n"
    );
}

#[test]
fn empty_root_yields_empty_body() {
    let root: Vec<FsDir> = Vec::new();
    let metrics = collect_all(&root).unwrap();
    assert!(metrics.is_empty());
    assert_eq!(encode_all(&metrics), "");
    assert_eq!(scrape_body(&root), Ok(String::new()));
}

#[test]
fn one_filesystem_one_device_end_to_end() {
    let root = vec![FsDir {
        name: FS_ID.to_string(),
        entries: vec![DirEntry {
            name: "dev-0".to_string(),
            files: good_files(),
        }],
    }];
    let body = scrape_body(&root).unwrap();
    assert_eq!(
        body,
        format!(
            "bcachefs_dev_alloc_bytes{{fs=\"{FS_ID}\",device_no=\"0\",device=\"sda\",label=\"ssd\",type=\"user\"}} 10240\n\
             bcachefs_dev_capacity{{fs=\"{FS_ID}\",device_no=\"0\",device=\"sda\",label=\"ssd\"}} 409600\n"
        )
    );
}

#[test]
fn malformed_device_directory_aborts_collection() {
    let root = vec![FsDir {
        name: FS_ID.to_string(),
        entries: vec![
            DirEntry {
                name: "dev-abc".to_string(),
                files: empty_files(),
            },
            DirEntry {
                name: "dev-0".to_string(),
                files: good_files(),
            },
        ],
    }];
    assert_eq!(
        collect_all(&root),
        Err(CollectError::Discovery(
            DiscoveryError::MalformedDeviceName {
                name: "dev-abc".to_string()
            }
        ))
    );
}

#[test]
fn missing_label_aborts_collection_without_partial_results() {
    let mut broken = good_files();
    broken.label = None;
    let root = vec![
        FsDir {
            name: FS_ID.to_string(),
            entries: vec![DirEntry {
                name: "dev-0".to_string(),
                files: good_files(),
            }],
        },
        FsDir {
            name: "22222222-2222-2222-2222-222222222222".to_string(),
            entries: vec![DirEntry {
                name: "dev-1".to_string(),
                files: broken,
            }],
        },
    ];
    assert_eq!(
        collect_all(&root),
        Err(CollectError::Extraction(ExtractionError::MissingAttribute))
    );
}

#[test]
fn malformed_root_entry_aborts_before_any_extraction() {
    let root = vec![
        FsDir {
            name: "junk".to_string(),
            entries: Vec::new(),
        },
        FsDir {
            name: FS_ID.to_string(),
            entries: vec![DirEntry {
                name: "dev-0".to_string(),
                files: good_files(),
            }],
        },
    ];
    assert_eq!(
        collect_all(&root),
        Err(CollectError::Discovery(DiscoveryError::MalformedIdentifier {
            name: "junk".to_string()
        }))
    );
}
