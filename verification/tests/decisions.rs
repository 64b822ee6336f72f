//! The single decisions on given values.

use db_versioning::age::{age_of, newest_of, time_since_last_used};
use db_versioning::names::{
    classify_entry, has_deletion_prefix, poisoned_name, same_name, EntryKind,
};
use db_versioning::recency::{by_recency, order_key_of, used_within, MAX_AGE};
use db_versioning::selection::{
    other_db_version_ttl, parse_whole_number, retention_for, select_version, selected_directory, GitVersionInfo,
    Overrides, Retention, Selection, Warning, DEFAULT_OTHER_DB_VERSION_TTL,
};

#[test]
fn default_ttl_is_three_days() {
    assert_eq!(DEFAULT_OTHER_DB_VERSION_TTL, 259_200_000_000_000);
    assert_eq!(other_db_version_ttl(None), (259_200_000_000_000, false));
}

#[test]
fn longest_age_is_that_of_a_duration() {
    assert_eq!(MAX_AGE, std::time::Duration::MAX.as_nanos());
}

#[test]
fn ttl_is_parsed_as_whole_seconds() {
    assert_eq!(other_db_version_ttl(Some("0")), (0, false));
    assert_eq!(other_db_version_ttl(Some("60")), (60_000_000_000, false));
    assert_eq!(other_db_version_ttl(Some("+60")), (60_000_000_000, false));
    assert_eq!(other_db_version_ttl(Some("0060")), (60_000_000_000, false));
    assert_eq!(
        other_db_version_ttl(Some("18446744073709551615")),
        (18_446_744_073_709_551_615_000_000_000, false)
    );
}

#[test]
fn unparsable_ttl_falls_back_to_the_default() {
    for raw in [
        "",
        "+",
        "-1",
        "-0",
        " 60",
        "60 ",
        "6_0",
        "1.5",
        "++1",
        "0x10",
        "18446744073709551616",
        "\u{0661}",
    ] {
        assert_eq!(
            other_db_version_ttl(Some(raw)),
            (DEFAULT_OTHER_DB_VERSION_TTL, true),
            "{raw:?}"
        );
    }
}

/// Whole numbers are read as `str::parse` reads them.
#[test]
fn whole_numbers_are_read_like_the_standard_library_reads_them() {
    for raw in [
        "",
        "0",
        "7",
        "+7",
        "+",
        "++7",
        "-7",
        "-0",
        "007",
        "00000000000000000000000000007",
        "+00000000000000000000000000007",
        "18446744073709551614",
        "18446744073709551615",
        "18446744073709551616",
        "18446744073709551620",
        "99999999999999999999",
        "184467440737095516150",
        "1 ",
        " 1",
        "1\n",
        "1_000",
        "1e3",
        "/",
        ":",
        "9:",
        "\u{ff11}",
        "1\u{e9}",
        "+\u{0661}",
    ] {
        assert_eq!(parse_whole_number(raw), raw.parse::<u64>().ok(), "{raw:?}");
    }
}

#[test]
fn nothing_is_kept_on_ci() {
    assert_eq!(
        retention_for(true, Some("nonsense")),
        (
            Retention {
                max_other_db_versions: 0,
                ttl: 0
            },
            false
        )
    );
    assert_eq!(
        retention_for(false, Some("nonsense")),
        (
            Retention {
                max_other_db_versions: 1,
                ttl: DEFAULT_OTHER_DB_VERSION_TTL
            },
            true
        )
    );
    assert_eq!(retention_for(false, Some("2")).0.ttl, 2_000_000_000);
}

#[test]
fn selection_follows_the_overrides() {
    let clean = GitVersionInfo {
        describe: "v1",
        dirty: false,
    };
    let dirty = GitVersionInfo {
        describe: "v1-dirty",
        dirty: true,
    };
    let none = Overrides {
        version: None,
        ignore_dirty: false,
        disable_versioning: false,
        version_ttl: None,
    };
    let ignoring = Overrides {
        ignore_dirty: true,
        ..none
    };
    let disabled = Overrides {
        disable_versioning: true,
        ..none
    };
    let forced = Overrides {
        version: Some("forced"),
        ..disabled
    };
    assert_eq!(select_version(&clean, &none), (Selection::Version("v1"), None));
    assert_eq!(
        select_version(&clean, &ignoring),
        (Selection::Version("v1"), None)
    );
    assert_eq!(
        select_version(&dirty, &ignoring),
        (
            Selection::Version("v1-dirty"),
            Some(Warning::DirtyCacheEnabled)
        )
    );
    assert_eq!(
        select_version(&dirty, &none),
        (Selection::Temporary, Some(Warning::DirtyCacheDisabled))
    );
    for info in [clean, dirty] {
        assert_eq!(
            select_version(&info, &disabled),
            (
                Selection::Version("unversioned"),
                Some(Warning::VersioningDisabled)
            )
        );
        assert_eq!(
            select_version(&info, &forced),
            (Selection::Forced("forced"), None)
        );
    }
    assert_eq!(selected_directory(&Selection::Forced("a")), "a");
    assert_eq!(selected_directory(&Selection::Version("b")), "b");
    assert_eq!(selected_directory(&Selection::Temporary), "temp");
}

#[test]
fn names_are_compared_byte_by_byte() {
    assert!(same_name(b"abc", b"abc"));
    assert!(same_name(b"", b""));
    assert!(!same_name(b"abc", b"abd"));
    assert!(!same_name(b"abc", b"ab"));
}

#[test]
fn deletion_prefix_is_recognized() {
    assert!(has_deletion_prefix(b"__stale_"));
    assert!(has_deletion_prefix(b"__stale_x"));
    assert!(!has_deletion_prefix(b"__stale"));
    assert!(!has_deletion_prefix(b"x__stale_"));
    assert!(!has_deletion_prefix(b"__Stale_x"));
    assert_eq!(poisoned_name(b"x"), b"__stale_x".to_vec());
    assert_eq!(poisoned_name(b""), b"__stale_".to_vec());
    assert_ne!(poisoned_name(b"a"), poisoned_name(b"b"));
}

#[test]
fn entries_are_classified() {
    let v: &[u8] = b"v1";
    assert_eq!(classify_entry(b"v1", Some(true), v), EntryKind::Ignored);
    assert_eq!(classify_entry(b"v0", Some(false), v), EntryKind::Ignored);
    assert_eq!(classify_entry(b"v0", None, v), EntryKind::Ignored);
    assert_eq!(classify_entry(b"v0", Some(true), v), EntryKind::OtherDb);
    assert_eq!(
        classify_entry(b"__stale_v0", Some(true), v),
        EntryKind::Leftover
    );
    assert_eq!(
        classify_entry(b"__stale_v0", Some(false), v),
        EntryKind::Ignored
    );
    // a prefixed name that is the current version's is no leftover
    assert_eq!(
        classify_entry(b"__stale_v0", Some(true), b"__stale_v0"),
        EntryKind::Ignored
    );
    assert_eq!(
        classify_entry(&poisoned_name(b"v0"), Some(true), v),
        EntryKind::Leftover
    );
}

#[test]
fn ages_are_never_negative() {
    assert_eq!(age_of(10, 3), 7);
    assert_eq!(age_of(3, 3), 0);
    assert_eq!(age_of(3, 10), 0);
    assert_eq!(age_of(5, -5), 10);
    assert_eq!(age_of(-5, -7), 2);
    assert_eq!(age_of(-5, 5), 0);
    assert_eq!(age_of(i128::MAX, i128::MIN), u128::MAX);
}

#[test]
fn newest_timestamp_wins() {
    assert_eq!(newest_of(&vec![]), None);
    assert_eq!(newest_of(&vec![None, None]), None);
    assert_eq!(newest_of(&vec![Some(1), None, Some(7), Some(3)]), Some(7));
    assert_eq!(newest_of(&vec![Some(-4), Some(-9)]), Some(-4));
}

#[test]
fn stamp_is_preferred_to_contents() {
    let contents = Some(vec![Some(90)]);
    assert_eq!(time_since_last_used(Some(40), &contents, 100), Some(60));
    assert_eq!(time_since_last_used(None, &contents, 100), Some(10));
    assert_eq!(time_since_last_used(None, &Some(vec![None]), 100), None);
    assert_eq!(time_since_last_used(None, &Some(vec![]), 100), None);
    assert_eq!(time_since_last_used(None, &None, 100), None);
}

#[test]
fn recency_order_is_stable() {
    assert_eq!(by_recency(&vec![]), Vec::<usize>::new());
    assert_eq!(
        by_recency(&vec![Some(5), None, Some(1), Some(5), None, Some(0)]),
        vec![5, 2, 0, 3, 1, 4]
    );
    // the longest age ranks with the unknown ones
    assert_eq!(
        by_recency(&vec![None, Some(MAX_AGE), Some(MAX_AGE - 1)]),
        vec![2, 0, 1]
    );
    assert_eq!(order_key_of(None), MAX_AGE);
    assert_eq!(order_key_of(Some(3)), 3);
}

#[test]
fn freshness_includes_the_limit() {
    assert!(used_within(Some(5), 5));
    assert!(!used_within(Some(6), 5));
    assert!(used_within(Some(0), 0));
    assert!(!used_within(None, u128::MAX));
}
