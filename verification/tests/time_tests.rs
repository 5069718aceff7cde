use chrono::NaiveDate;
use lis::entry::{sort_entries, Entry, FileMetadata, SortBy};
use lis::time::{fixed_digits_text, modified_text, year_text_of, LocalMinute};

fn chrono_text(t: &LocalMinute) -> String {
    NaiveDate::from_ymd_opt(t.year, t.month, t.day)
        .unwrap()
        .and_hms_opt(t.hour, t.minute, 0)
        .unwrap()
        .format("%Y-%m-%d %H:%M")
        .to_string()
}

#[test]
fn times_are_written_as_chrono_writes_them() {
    let years = [-262_000, -10_000, -9_999, -1_000, -1, 0, 5, 999, 1000, 2024, 9999, 10_000, 262_000];
    for year in years {
        for (month, day, hour, minute) in [(1, 1, 0, 0), (2, 28, 9, 5), (12, 31, 23, 59), (7, 4, 12, 30)] {
            let t = LocalMinute { year, month, day, hour, minute };
            assert_eq!(modified_text(&t), chrono_text(&t), "{:?}", t);
        }
    }
}

#[test]
fn time_text_examples() {
    let t = LocalMinute { year: 2023, month: 1, day: 1, hour: 10, minute: 0 };
    assert_eq!(modified_text(&t), "2023-01-01 10:00");
    assert_eq!(year_text_of(7), "0007");
    assert_eq!(year_text_of(-7), "-0007");
    assert_eq!(year_text_of(12345), "+12345");
    assert_eq!(fixed_digits_text(5, 2), "05");
    assert_eq!(fixed_digits_text(0, 0), "");
}

#[test]
fn sorting_by_time_is_chronological() {
    let times = [
        LocalMinute { year: 2024, month: 1, day: 2, hour: 3, minute: 4 },
        LocalMinute { year: 999, month: 12, day: 31, hour: 23, minute: 59 },
        LocalMinute { year: 2024, month: 1, day: 2, hour: 3, minute: 3 },
        LocalMinute { year: 2023, month: 11, day: 30, hour: 0, minute: 0 },
    ];
    let mut entries: Vec<Entry> = times
        .iter()
        .enumerate()
        .map(|(i, t)| {
            let meta = FileMetadata {
                is_dir: false,
                is_symlink: false,
                mode: 0o644,
                nlink: 1,
                uid: 0,
                gid: 0,
                owner_name: None,
                group_name: None,
                size: 0,
                modified: *t,
            };
            Entry::from_metadata(&format!("f{}", i), format!("f{}", i), " ".to_string(), meta)
        })
        .collect();
    sort_entries(&mut entries, SortBy::Time, false);
    let names: Vec<&str> = entries.iter().map(|e| e.name.as_str()).collect();
    assert_eq!(names, vec!["f1", "f3", "f2", "f0"]);
}
