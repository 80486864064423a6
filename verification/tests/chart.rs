use archive_af::codec::encode;
use archive_af::model::{Property, PropertyType, QueuePosition};
use archive_af::read::{
    chart_from_records, retain, ArchiveFile, Chart, CommitRecord, Point, QueueHistoryQuery,
    RetentionPolicy,
};

fn prop(id: u32, area: &str, desc: &str, size: &str, pos: Option<u32>, reserved: bool) -> Property {
    Property {
        id,
        property_type: PropertyType::Apartment,
        description: String::from(desc),
        short_description: String::from(desc),
        area: String::from(area),
        queue_position: QueuePosition { position: pos, total_in_queue: 40 },
        reserved,
        size_sqm: String::from(size),
    }
}

fn record(commit: u8, t: i64, entities: Vec<Property>) -> CommitRecord {
    let files = entities
        .iter()
        .map(|p| ArchiveFile {
            path: format!("vacant/{}-{}.json", p.id, p.area),
            content: encode(p).into_bytes(),
        })
        .collect();
    CommitRecord { id: vec![commit], seconds: t, offset_minutes: 0, files }
}

fn dense_policy() -> RetentionPolicy {
    RetentionPolicy { cutoff: 0, stride: 1, tail: 100 }
}

#[test]
fn retention_keeps_stride_sample_and_recent_window() {
    // 1000 equally spaced points, stride 50, cutoff below all of them:
    // the survivors are the stride-50 sample unioned with the last 100
    // one-based indices, without duplicates.
    let mut pts: Vec<Point> = Vec::new();
    for i in 1..=1000i64 {
        pts.push(Point { timestamp: i, commit: vec![(i % 251) as u8, (i / 251) as u8], entries: Vec::new() });
    }
    let kept = retain(pts, &RetentionPolicy { cutoff: 0, stride: 50, tail: 100 });
    let kept_ts: Vec<i64> = kept.iter().map(|p| p.timestamp).collect();
    let expected: Vec<i64> = (1..=1000i64).filter(|i| i % 50 == 0 || 1000 - i < 100).collect();
    assert_eq!(kept_ts, expected);
    assert_eq!(kept_ts.len(), 118);
    assert!(kept_ts.contains(&50));
    assert!(!kept_ts.contains(&49));
    assert!(kept_ts.contains(&900));
    assert!(!kept_ts.contains(&899));
    assert!(kept_ts.contains(&901));
    assert!(kept_ts.contains(&1000));
}

#[test]
fn retention_cutoff_drops_old_points() {
    let pts: Vec<Point> = (1..=10i64)
        .map(|i| Point { timestamp: i * 100, commit: vec![i as u8], entries: Vec::new() })
        .collect();
    let kept = retain(pts, &RetentionPolicy { cutoff: 500, stride: 1, tail: 100 });
    let kept_ts: Vec<i64> = kept.iter().map(|p| p.timestamp).collect();
    assert_eq!(kept_ts, vec![500, 600, 700, 800, 900, 1000]);
}

#[test]
fn ceiling_boundary_keeps_equal_drops_above() {
    let records = vec![record(1, 100, vec![prop(1, "A", "a", "20", Some(5), false)])];
    // latest position exactly at the ceiling: kept
    let at = chart_from_records(&records, &QueueHistoryQuery { max: Some(5) }, &dense_policy());
    assert_eq!(at.series.len(), 1);
    // an id seen at exactly one surviving point yields a one-element series
    assert_eq!(at.series[0].data, vec![Some(5)]);
    // one unit above the ceiling: excluded
    let above = chart_from_records(&records, &QueueHistoryQuery { max: Some(4) }, &dense_policy());
    assert_eq!(above.series.len(), 0);
    // no ceiling at all: kept
    let none = chart_from_records(&records, &QueueHistoryQuery { max: None }, &dense_policy());
    assert_eq!(none.series.len(), 1);
}

#[test]
fn missing_point_becomes_explicit_marker() {
    // id 1 present at the first and third point, absent at the second
    let records = vec![
        record(1, 100, vec![prop(1, "A", "a", "20", Some(7), false)]),
        record(2, 200, vec![prop(2, "B", "b", "30", Some(2), false)]),
        record(3, 300, vec![prop(1, "A", "a", "20", Some(9), false)]),
    ];
    let chart = chart_from_records(&records, &QueueHistoryQuery { max: None }, &dense_policy());
    assert_eq!(chart.categories, vec![100, 200, 300]);
    let a = chart
        .series
        .iter()
        .find(|s| s.name.starts_with("A;"))
        .expect("series for id 1");
    assert_eq!(a.data, vec![Some(7), None, Some(9)]);
}

#[test]
fn end_to_end_two_commits() {
    let records = vec![
        record(1, 100, vec![prop(1, "A", "a", "20", Some(5), false)]),
        record(
            2,
            200,
            vec![
                prop(1, "A", "a", "20", Some(3), false),
                prop(2, "B", "b", "30", Some(1), true),
            ],
        ),
    ];
    let chart = chart_from_records(&records, &QueueHistoryQuery { max: None }, &dense_policy());
    assert_eq!(chart.categories, vec![100, 200]);
    assert_eq!(chart.series.len(), 2);
    assert_eq!(chart.series[0].name, "A; a (20 kvm)");
    assert_eq!(chart.series[0].color, "#00000020");
    assert_eq!(chart.series[0].data, vec![Some(5), Some(3)]);
    assert_eq!(chart.series[1].name, "B; b (30 kvm) \u{2705}");
    assert_eq!(chart.series[1].color, "#ff000080");
    assert_eq!(chart.series[1].data, vec![None, Some(1)]);
}

#[test]
fn repeated_queries_are_identical() {
    let records = vec![
        record(1, 100, vec![prop(1, "A", "a", "20", Some(5), false)]),
        record(2, 200, vec![prop(2, "B", "b", "30", Some(1), true)]),
    ];
    let query = QueueHistoryQuery { max: Some(10) };
    let first: Chart = chart_from_records(&records, &query, &dense_policy());
    let second: Chart = chart_from_records(&records, &query, &dense_policy());
    assert_eq!(first, second);
}

#[test]
fn empty_records_give_empty_chart() {
    let records: Vec<CommitRecord> = Vec::new();
    let chart = chart_from_records(&records, &QueueHistoryQuery { max: None }, &dense_policy());
    assert_eq!(chart.categories, Vec::<i64>::new());
    assert_eq!(chart.series.len(), 0);
}

#[test]
fn same_second_commits_stay_distinct() {
    let records = vec![
        record(1, 100, vec![prop(1, "A", "a", "20", Some(5), false)]),
        record(2, 100, vec![prop(1, "A", "a", "20", Some(4), false)]),
    ];
    let chart = chart_from_records(&records, &QueueHistoryQuery { max: None }, &dense_policy());
    assert_eq!(chart.categories, vec![100, 100]);
    assert_eq!(chart.series[0].data.len(), 2);
}

#[test]
fn last_write_for_an_id_within_one_commit_wins() {
    let records = vec![CommitRecord {
        id: vec![1],
        seconds: 100,
        offset_minutes: 0,
        files: vec![
            ArchiveFile {
                path: String::from("vacant/1-A.json"),
                content: encode(&prop(1, "A", "a", "20", Some(5), false)).into_bytes(),
            },
            ArchiveFile {
                path: String::from("vacant/1-A.json"),
                content: encode(&prop(1, "A", "a", "20", Some(8), false)).into_bytes(),
            },
        ],
    }];
    let chart = chart_from_records(&records, &QueueHistoryQuery { max: None }, &dense_policy());
    assert_eq!(chart.series.len(), 1);
    assert_eq!(chart.series[0].data, vec![Some(8)]);
}

#[test]
fn files_outside_archive_and_other_kinds_are_ignored() {
    let mut corridor = prop(3, "C", "c", "12", Some(1), false);
    corridor.property_type = PropertyType::CorridorRoom;
    let records = vec![CommitRecord {
        id: vec![1],
        seconds: 100,
        offset_minutes: 0,
        files: vec![
            ArchiveFile {
                path: String::from("README.md"),
                content: encode(&prop(9, "R", "r", "1", Some(1), false)).into_bytes(),
            },
            ArchiveFile {
                path: String::from("vacant/3-C.json"),
                content: encode(&corridor).into_bytes(),
            },
            ArchiveFile {
                path: String::from("vacant/bad.json"),
                content: b"not a known shape".to_vec(),
            },
        ],
    }];
    let chart = chart_from_records(&records, &QueueHistoryQuery { max: None }, &dense_policy());
    // the commit's archive files make its instant exist, but no entity of
    // the chartable kind was decodable, so no series comes of it
    assert_eq!(chart.categories, vec![100]);
    assert_eq!(chart.series.len(), 0);
}

#[test]
fn undecodable_archive_files_are_reported_with_their_commit() {
    let records = vec![
        record(1, 100, vec![prop(1, "A", "a", "20", Some(5), false)]),
        CommitRecord {
            id: vec![2],
            seconds: 200,
            offset_minutes: 0,
            files: vec![
                ArchiveFile {
                    path: String::from("vacant/bad.json"),
                    content: b"{ not json".to_vec(),
                },
                ArchiveFile {
                    path: String::from("vacant/raw.bin"),
                    content: vec![0xff, 0xfe, 0x00],
                },
                ArchiveFile {
                    path: String::from("notes.txt"),
                    content: b"also not json, but outside the archive".to_vec(),
                },
            ],
        },
    ];
    let skipped = archive_af::read::decode_failures(&records);
    assert_eq!(skipped.len(), 2);
    assert_eq!(skipped[0].path, "vacant/bad.json");
    assert_eq!(skipped[0].commit, vec![2]);
    assert_eq!(skipped[1].path, "vacant/raw.bin");
    assert_eq!(skipped[1].commit, vec![2]);
    // the unreadable commit still counts as an observation instant
    let chart = chart_from_records(&records, &QueueHistoryQuery { max: None }, &dense_policy());
    assert_eq!(chart.categories, vec![100, 200]);
    let a = chart.series.iter().find(|s| s.name.starts_with("A;")).unwrap();
    assert_eq!(a.data, vec![Some(5), None]);
}

#[test]
fn author_offset_shifts_the_timestamp() {
    let mut r = record(1, 1000, vec![prop(1, "A", "a", "20", Some(5), false)]);
    r.offset_minutes = 60;
    let chart = chart_from_records(&vec![r], &QueueHistoryQuery { max: None }, &dense_policy());
    assert_eq!(chart.categories, vec![1000 + 3600]);
}
