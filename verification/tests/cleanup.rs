//! Whole sessions, driven against a file system that is kept in memory.

use db_versioning::age::LAST_USED_FILE;
use db_versioning::names::DELETION_PREFIX;
use db_versioning::selection::{
    GitVersionInfo, Overrides, Warning, DEFAULT_OTHER_DB_VERSION_TTL, MAX_OTHER_DB_VERSIONS,
    NANOS_PER_SEC,
};
use db_versioning::session::{
    handle_db_versioning, mark_used, mark_used_result, Event, MarkUsed, MarkUsedError, OpenOutcome,
    Request,
};

const CURRENT_VERSION: &str = "mock-version";

/// The time at which every session takes place.
const NOW: i128 = 1_700_000_000_000_000_000;

fn version_info() -> GitVersionInfo<'static> {
    GitVersionInfo {
        describe: CURRENT_VERSION,
        dirty: false,
    }
}

fn no_overrides() -> Overrides<'static> {
    Overrides {
        version: None,
        ignore_dirty: false,
        disable_versioning: false,
        version_ttl: None,
    }
}

fn secs(n: u128) -> u128 {
    n * NANOS_PER_SEC
}

#[derive(Clone)]
struct File {
    name: String,
    modified: Option<i128>,
    data: Vec<u8>,
}

#[derive(Clone)]
enum Node {
    Dir(Vec<File>),
    Plain,
    UnknownType,
}

struct World {
    entries: Vec<(Vec<u8>, Node)>,
    listing_fails: bool,
    unreadable_entries: usize,
    renames_fail: bool,
    removals_fail: bool,
    creations_fail: bool,
    /// How the last-used file of the selected directory can be opened and touched, if not as usual.
    stamp_open: Option<OpenOutcome>,
    touches_fail: bool,
    /// What came of the stamp.
    marked: Option<Result<(), MarkUsedError>>,
    /// How much later it is when a directory is looked at again.
    recheck_delay: i128,
    looked_at: Vec<Vec<u8>>,
    requests: Vec<Request>,
}

impl World {
    fn new() -> World {
        World {
            entries: Vec::new(),
            listing_fails: false,
            unreadable_entries: 0,
            renames_fail: false,
            removals_fail: false,
            creations_fail: false,
            stamp_open: None,
            touches_fail: false,
            marked: None,
            recheck_delay: 0,
            looked_at: Vec::new(),
            requests: Vec::new(),
        }
    }

    fn create_dir(&mut self, name: &str) {
        self.entries
            .push((name.as_bytes().to_vec(), Node::Dir(Vec::new())));
    }

    fn write_file(&mut self, dir: &str, name: &str, data: &[u8], ago: u128) {
        for (entry, node) in self.entries.iter_mut() {
            if entry.as_slice() == dir.as_bytes() {
                if let Node::Dir(files) = node {
                    files.push(File {
                        name: name.to_string(),
                        modified: Some(NOW - ago as i128),
                        data: data.to_vec(),
                    });
                }
            }
        }
    }

    /// Creates a version directory that looks like a real database (i.e. has a `CURRENT` file),
    /// last used `used_ago` in the past.
    fn create_version_dir(&mut self, name: &str, used_ago: u128) {
        self.create_dir(name);
        // 4 bytes, matching the big-endian u32 sequence number the persistence layer writes
        self.write_file(name, LAST_USED_FILE, &[0u8; 4], used_ago);
    }

    fn entry_names(&self) -> Vec<String> {
        let mut names = self
            .entries
            .iter()
            .map(|(name, _)| String::from_utf8(name.clone()).unwrap())
            .collect::<Vec<_>>();
        names.sort();
        names
    }

    fn files(&self, name: &[u8]) -> Option<&Vec<File>> {
        self.entries.iter().find_map(|(entry, node)| match node {
            Node::Dir(files) if entry.as_slice() == name => Some(files),
            _ => None,
        })
    }

    fn files_mut(&mut self, name: &[u8]) -> Option<&mut Vec<File>> {
        self.entries
            .iter_mut()
            .find_map(|(entry, node)| match node {
                Node::Dir(files) if entry.as_slice() == name => Some(files),
                _ => None,
            })
    }

    fn has_entry(&self, name: &[u8]) -> bool {
        self.entries.iter().any(|(entry, _)| entry.as_slice() == name)
    }

    fn remove(&mut self, name: &[u8]) -> bool {
        if self.removals_fail || !self.has_entry(name) {
            return false;
        }
        self.entries.retain(|(entry, _)| entry.as_slice() != name);
        true
    }

    fn rename(&mut self, from: &[u8], to: &[u8]) -> bool {
        if self.renames_fail || self.has_entry(to) {
            return false;
        }
        for (entry, _) in self.entries.iter_mut() {
            if entry.as_slice() == from {
                *entry = to.to_vec();
                return true;
            }
        }
        false
    }

    fn clock(&mut self, name: &[u8]) -> i128 {
        if self.looked_at.iter().any(|seen| seen.as_slice() == name) {
            NOW + self.recheck_delay
        } else {
            self.looked_at.push(name.to_vec());
            NOW
        }
    }

    /// Runs a session to its end. Returns the directory to use, or `None` if it can't be used, and
    /// the warnings.
    fn handle(
        &mut self,
        info: &GitVersionInfo,
        overrides: &Overrides,
        is_ci: bool,
    ) -> (Option<String>, Vec<Warning>) {
        let (mut session, warnings) = handle_db_versioning(info, overrides, is_ci);
        let directory = session.directory().to_string();
        let mut listing: Vec<(Vec<u8>, Node)> = Vec::new();
        loop {
            let request = session.request();
            let event = match &request {
                Request::OpenListing => {
                    listing = self.entries.clone();
                    listing.reverse();
                    Event::ListingOpened(!self.listing_fails)
                }
                Request::NextEntry => {
                    if self.unreadable_entries > 0 {
                        self.unreadable_entries -= 1;
                        Event::EntryUnreadable
                    } else {
                        match listing.pop() {
                            Some((name, Node::Dir(_))) => Event::Entry {
                                name,
                                is_dir: Some(true),
                            },
                            Some((name, Node::Plain)) => Event::Entry {
                                name,
                                is_dir: Some(false),
                            },
                            Some((name, Node::UnknownType)) => Event::Entry { name, is_dir: None },
                            None => Event::ListingEnded,
                        }
                    }
                }
                Request::RemoveDir(name) => Event::Removed(self.remove(name)),
                Request::ReadStamp(name) => {
                    let modified = self.files(name).and_then(|files| {
                        files
                            .iter()
                            .find(|file| file.name == LAST_USED_FILE)
                            .and_then(|file| file.modified)
                    });
                    let now = if modified.is_some() {
                        self.clock(name)
                    } else {
                        NOW
                    };
                    Event::StampRead { modified, now }
                }
                Request::ReadContents(name) => {
                    let files = self
                        .files(name)
                        .map(|files| files.iter().map(|file| file.modified).collect::<Vec<_>>());
                    let now = self.clock(name);
                    Event::ContentsRead { files, now }
                }
                Request::Rename { from, to } => Event::Renamed(self.rename(from, to)),
                Request::OpenStamp => {
                    let stamped = self
                        .files(directory.as_bytes())
                        .map_or(false, |files| files.iter().any(|f| f.name == LAST_USED_FILE));
                    Event::StampOpened(match self.stamp_open {
                        Some(outcome) => outcome,
                        None if stamped => OpenOutcome::Opened,
                        None => OpenOutcome::NotFound,
                    })
                }
                Request::TouchStamp if self.touches_fail => Event::StampTouched(false),
                Request::TouchStamp => {
                    for file in self.files_mut(directory.as_bytes()).unwrap() {
                        if file.name == LAST_USED_FILE {
                            file.modified = Some(NOW);
                        }
                    }
                    Event::StampTouched(true)
                }
                Request::CheckTemp => Event::TempChecked(self.has_entry(directory.as_bytes())),
                Request::RemoveTemp => Event::Removed(self.remove(directory.as_bytes())),
                Request::CreateTemp => {
                    if !self.creations_fail {
                        self.create_dir(&directory);
                    }
                    Event::TempCreated(!self.creations_fail)
                }
                Request::Finish => {
                    self.marked = session.marked();
                    return (Some(directory), warnings);
                }
                Request::Fail => return (None, warnings),
            };
            self.requests.push(request);
            session.reply(event);
        }
    }

    fn handle_plainly(&mut self, is_ci: bool) -> String {
        let (directory, warnings) = self.handle(&version_info(), &no_overrides(), is_ci);
        assert!(warnings.is_empty());
        directory.unwrap()
    }
}

/// Only the most recently used other version survives, and the current version survives regardless
/// of how stale it is. On CI no other version survives at all.
fn check_max_versions(is_ci: bool, max_other_db_versions: usize) {
    let mut world = World::new();

    // the current version is the least recently used, and should be preserved anyway
    world.create_version_dir(CURRENT_VERSION, secs(60 * 60));

    let num_other_dirs = max_other_db_versions + 3;
    for i in 0..num_other_dirs {
        // `other-dir-0` is the most recently used, so it's the one that should be retained
        world.create_version_dir(&format!("other-dir-{i}"), secs(i as u128 + 1));
    }

    let versioned_path = world.handle_plainly(is_ci);
    assert_eq!(versioned_path, CURRENT_VERSION);

    let mut expected = vec![CURRENT_VERSION.to_string()];
    expected.extend((0..max_other_db_versions).map(|i| format!("other-dir-{i}")));
    expected.sort();
    assert_eq!(world.entry_names(), expected);
}

#[test]
fn test_max_versions_not_ci() {
    check_max_versions(false, MAX_OTHER_DB_VERSIONS);
}

#[test]
fn test_max_versions_ci() {
    check_max_versions(true, 0);
}

/// An other version that hasn't been used within the TTL is evicted even though it's within the
/// count limit.
#[test]
fn test_ttl_evicts_unused_version() {
    let mut world = World::new();

    world.create_version_dir(CURRENT_VERSION, 0);
    world.create_version_dir("stale-version", DEFAULT_OTHER_DB_VERSION_TTL + secs(60));

    world.handle_plainly(/* is_ci */ false);

    assert_eq!(world.entry_names(), vec![CURRENT_VERSION]);
}

/// An other version used within the TTL is retained.
#[test]
fn test_ttl_retains_recently_used_version() {
    let mut world = World::new();

    world.create_version_dir(CURRENT_VERSION, 0);
    world.create_version_dir("recent-version", DEFAULT_OTHER_DB_VERSION_TTL - secs(60));

    world.handle_plainly(/* is_ci */ false);

    assert_eq!(
        world.entry_names(),
        vec!["mock-version", "recent-version"]
    );
}

/// A directory with no `CURRENT` file (e.g. written by a persistence layer that named its files
/// differently) falls back to the newest mtime of its contents, so a recently used one is retained
/// rather than thrown away for lacking the stamp we happen to look for.
#[test]
fn test_version_without_stamp_falls_back_to_contents() {
    let mut world = World::new();

    world.create_version_dir(CURRENT_VERSION, 0);

    world.create_dir("legacy-version");
    // no CURRENT, but a recently written data file
    world.write_file("legacy-version", "00000001.sst", b"data", 0);

    world.handle_plainly(/* is_ci */ false);

    assert_eq!(
        world.entry_names(),
        vec!["legacy-version", CURRENT_VERSION]
    );
}

/// The contents fallback still respects the TTL: a stampless directory whose files are all older
/// than the TTL is evicted.
#[test]
fn test_version_without_stamp_still_expires() {
    let mut world = World::new();

    world.create_version_dir(CURRENT_VERSION, 0);

    world.create_dir("legacy-version");
    world.write_file(
        "legacy-version",
        "00000001.sst",
        b"data",
        DEFAULT_OTHER_DB_VERSION_TTL + secs(60),
    );

    world.handle_plainly(/* is_ci */ false);

    assert_eq!(world.entry_names(), vec![CURRENT_VERSION]);
}

/// A directory with no readable timestamp at all doesn't look like a database, and is evicted
/// rather than occupying the single retention slot.
#[test]
fn test_empty_version_dir_is_evicted() {
    let mut world = World::new();

    world.create_version_dir(CURRENT_VERSION, 0);
    world.create_dir("empty-dir");

    world.handle_plainly(/* is_ci */ false);

    assert_eq!(world.entry_names(), vec![CURRENT_VERSION]);
}

/// A stampless directory must not have a `CURRENT` fabricated for it: the persistence layer reads
/// that file as a `u32`, so an empty one would make the directory un-openable.
#[test]
fn test_mark_used_does_not_create_current() {
    assert_eq!(mark_used(OpenOutcome::NotFound), MarkUsed::Nothing);
    assert_eq!(mark_used(OpenOutcome::Opened), MarkUsed::SetModified);
    assert_eq!(mark_used(OpenOutcome::Failed), MarkUsed::Failed);

    let mut world = World::new();
    world.create_dir("no-current");
    let info = GitVersionInfo {
        describe: "no-current",
        dirty: false,
    };
    let (directory, _) = world.handle(&info, &no_overrides(), false);
    assert_eq!(directory.unwrap(), "no-current");
    assert!(world.files(b"no-current").unwrap().is_empty());
    assert_eq!(world.requests.last(), Some(&Request::OpenStamp));
}

/// Selecting a version refreshes its last-used stamp, so a version that would otherwise expire
/// stays retained as long as it keeps being used.
#[test]
fn test_selecting_version_refreshes_stamp() {
    let mut world = World::new();

    let stale = DEFAULT_OTHER_DB_VERSION_TTL + secs(60);
    world.create_version_dir(CURRENT_VERSION, stale);

    world.handle_plainly(/* is_ci */ false);

    let stamp = world.files(CURRENT_VERSION.as_bytes()).unwrap()[0].clone();
    let age = NOW - stamp.modified.unwrap();
    assert!(age < secs(60) as i128, "stamp was not refreshed");

    // the contents must be left intact: the persistence layer reads them as a sequence number
    assert_eq!(stamp.data, [0u8; 4]);

    // the refreshed version outlives a switch to another one
    let other = GitVersionInfo {
        describe: "next-version",
        dirty: false,
    };
    world.handle(&other, &no_overrides(), false);
    assert_eq!(world.entry_names(), vec![CURRENT_VERSION]);
}

#[test]
fn test_cleanup_of_prefixed_items() {
    let mut world = World::new();

    for i in 0..5 {
        world.create_dir(&format!("{DELETION_PREFIX}other-dir-{i}"));
    }

    world.handle_plainly(/* is_ci */ false);

    assert!(world.entry_names().is_empty());
}

/// The order of the requests for one evicted database.
#[test]
fn eviction_poisons_before_it_removes() {
    let mut world = World::new();
    world.create_version_dir("old", DEFAULT_OTHER_DB_VERSION_TTL + 1);
    world.handle_plainly(false);
    assert_eq!(
        world.requests,
        vec![
            Request::OpenListing,
            Request::NextEntry,
            Request::NextEntry,
            Request::ReadStamp(b"old".to_vec()),
            Request::ReadStamp(b"old".to_vec()),
            Request::Rename {
                from: b"old".to_vec(),
                to: b"__stale_old".to_vec(),
            },
            Request::RemoveDir(b"__stale_old".to_vec()),
            Request::OpenStamp,
        ]
    );
    assert!(world.entry_names().is_empty());
}

#[test]
fn directory_that_cannot_be_poisoned_is_left_alone() {
    let mut world = World::new();
    world.renames_fail = true;
    world.create_version_dir("old-a", DEFAULT_OTHER_DB_VERSION_TTL + 1);
    world.create_version_dir("old-b", DEFAULT_OTHER_DB_VERSION_TTL + 2);
    world.handle_plainly(false);
    assert_eq!(world.entry_names(), vec!["old-a", "old-b"]);
    assert!(!world
        .requests
        .iter()
        .any(|request| matches!(request, Request::RemoveDir(_))));
}

/// What could not be fully deleted is picked up by the next run.
#[test]
fn failed_removal_is_finished_by_the_next_run() {
    let mut world = World::new();
    world.removals_fail = true;
    world.create_version_dir("old", DEFAULT_OTHER_DB_VERSION_TTL + 1);
    world.handle_plainly(false);
    assert_eq!(world.entry_names(), vec!["__stale_old"]);

    world.removals_fail = false;
    world.handle_plainly(false);
    assert!(world.entry_names().is_empty());
}

#[test]
fn plain_files_and_unreadable_entries_are_ignored() {
    let mut world = World::new();
    world.unreadable_entries = 2;
    world
        .entries
        .push((b"plain-file".to_vec(), Node::Plain));
    world
        .entries
        .push((b"__stale_file".to_vec(), Node::Plain));
    world
        .entries
        .push((b"mystery".to_vec(), Node::UnknownType));
    world.handle_plainly(true);
    assert_eq!(
        world.entry_names(),
        vec!["__stale_file", "mystery", "plain-file"]
    );
}

#[test]
fn names_need_not_be_utf8() {
    let mut world = World::new();
    world
        .entries
        .push((vec![0xff, 0xfe], Node::Dir(Vec::new())));
    world.handle_plainly(false);
    assert!(world.entries.is_empty());
    assert!(world.requests.iter().any(|request| *request
        == Request::Rename {
            from: vec![0xff, 0xfe],
            to: vec![b'_', b'_', b's', b't', b'a', b'l', b'e', b'_', 0xff, 0xfe],
        }));
}

#[test]
fn unlistable_directory_is_only_stamped() {
    let mut world = World::new();
    world.listing_fails = true;
    world.create_version_dir(CURRENT_VERSION, secs(5));
    world.create_version_dir("old", DEFAULT_OTHER_DB_VERSION_TTL + 1);
    world.handle_plainly(false);
    assert_eq!(
        world.requests,
        vec![Request::OpenListing, Request::OpenStamp, Request::TouchStamp]
    );
    assert_eq!(world.entry_names(), vec![CURRENT_VERSION, "old"]);
}

/// The age at the second look decides.
#[test]
fn database_that_expires_before_the_second_look_is_evicted() {
    let mut world = World::new();
    world.recheck_delay = 1;
    world.create_version_dir("on-the-edge", DEFAULT_OTHER_DB_VERSION_TTL);
    world.handle_plainly(false);
    assert!(world.entry_names().is_empty());

    let mut world = World::new();
    world.create_version_dir("on-the-edge", DEFAULT_OTHER_DB_VERSION_TTL);
    world.handle_plainly(false);
    assert_eq!(world.entry_names(), vec!["on-the-edge"]);
}

#[test]
fn database_from_the_future_is_retained() {
    let mut world = World::new();
    world.create_dir("future");
    if let Some(files) = world.files_mut(b"future") {
        files.push(File {
            name: LAST_USED_FILE.to_string(),
            modified: Some(NOW + 5),
            data: vec![0; 4],
        });
    }
    let overrides = Overrides {
        version_ttl: Some("0"),
        ..no_overrides()
    };
    world.handle(&version_info(), &overrides, false);
    assert_eq!(world.entry_names(), vec!["future"]);
}

#[test]
fn unreadable_timestamps_sort_last() {
    let mut world = World::new();
    world.create_dir("unknown");
    world.create_version_dir("known", DEFAULT_OTHER_DB_VERSION_TTL);
    world.handle_plainly(false);
    assert_eq!(world.entry_names(), vec!["known"]);
}

#[test]
fn forced_version_is_used_without_any_request() {
    let mut world = World::new();
    world.create_version_dir("old", DEFAULT_OTHER_DB_VERSION_TTL + 1);
    let overrides = Overrides {
        version: Some("forced"),
        ignore_dirty: true,
        disable_versioning: true,
        version_ttl: Some("nonsense"),
    };
    let info = GitVersionInfo {
        describe: CURRENT_VERSION,
        dirty: true,
    };
    let (directory, warnings) = world.handle(&info, &overrides, false);
    assert_eq!(directory.unwrap(), "forced");
    assert!(warnings.is_empty());
    assert!(world.requests.is_empty());
    assert_eq!(world.entry_names(), vec!["old"]);
}

#[test]
fn dirty_repository_gets_an_empty_temporary_directory() {
    let info = GitVersionInfo {
        describe: CURRENT_VERSION,
        dirty: true,
    };
    let mut world = World::new();
    world.create_version_dir("old", DEFAULT_OTHER_DB_VERSION_TTL + 1);
    let (directory, warnings) = world.handle(&info, &no_overrides(), false);
    assert_eq!(directory.unwrap(), "temp");
    assert_eq!(warnings, vec![Warning::DirtyCacheDisabled]);
    assert_eq!(
        world.requests,
        vec![Request::CheckTemp, Request::CreateTemp]
    );
    assert_eq!(world.entry_names(), vec!["old", "temp"]);
    assert!(world.files(b"temp").unwrap().is_empty());

    world.requests.clear();
    world.write_file("temp", LAST_USED_FILE, b"data", 0);
    let (directory, _) = world.handle(&info, &no_overrides(), false);
    assert_eq!(directory.unwrap(), "temp");
    assert_eq!(
        world.requests,
        vec![Request::CheckTemp, Request::RemoveTemp, Request::CreateTemp]
    );
    assert_eq!(world.entry_names(), vec!["old", "temp"]);
    assert!(world.files(b"temp").unwrap().is_empty());
    assert_eq!(world.marked, None);
}

#[test]
fn temporary_directory_that_cannot_be_created_is_no_error() {
    let info = GitVersionInfo {
        describe: CURRENT_VERSION,
        dirty: true,
    };
    let mut world = World::new();
    world.creations_fail = true;
    let (directory, _) = world.handle(&info, &no_overrides(), false);
    assert_eq!(directory.unwrap(), "temp");
}

#[test]
fn stamping_fails_when_it_cannot_open_or_touch() {
    assert_eq!(mark_used_result(OpenOutcome::NotFound, false), Ok(()));
    assert_eq!(mark_used_result(OpenOutcome::NotFound, true), Ok(()));
    assert_eq!(mark_used_result(OpenOutcome::Opened, true), Ok(()));
    assert_eq!(
        mark_used_result(OpenOutcome::Opened, false),
        Err(MarkUsedError::SetModified)
    );
    assert_eq!(
        mark_used_result(OpenOutcome::Failed, true),
        Err(MarkUsedError::Open)
    );

    let mut world = World::new();
    world.create_version_dir(CURRENT_VERSION, secs(5));
    assert_eq!(world.handle_plainly(false), CURRENT_VERSION);
    assert_eq!(world.marked, Some(Ok(())));

    world.touches_fail = true;
    assert_eq!(world.handle_plainly(false), CURRENT_VERSION);
    assert_eq!(world.marked, Some(Err(MarkUsedError::SetModified)));

    world.stamp_open = Some(OpenOutcome::Failed);
    assert_eq!(world.handle_plainly(false), CURRENT_VERSION);
    assert_eq!(world.marked, Some(Err(MarkUsedError::Open)));
}

/// Upgrading on a branch needs a fresh cache, but switching back to the old branch should still
/// find the old cache intact.
#[test]
fn switching_back_finds_the_old_cache() {
    let next = GitVersionInfo {
        describe: "next-version",
        dirty: false,
    };
    let mut world = World::new();
    world.create_version_dir("older-version", secs(20));
    world.create_version_dir(CURRENT_VERSION, secs(10));
    world.handle(&next, &no_overrides(), false);
    world.create_version_dir("next-version", 0);
    world.handle_plainly(false);
    assert_eq!(world.entry_names(), vec![CURRENT_VERSION, "next-version"]);
    let stamp = &world.files(CURRENT_VERSION.as_bytes()).unwrap()[0];
    assert_eq!(stamp.data, [0u8; 4]);
}

#[test]
fn temporary_directory_that_cannot_be_removed_is_an_error() {
    let info = GitVersionInfo {
        describe: CURRENT_VERSION,
        dirty: true,
    };
    let mut world = World::new();
    world.removals_fail = true;
    world.create_version_dir("temp", 0);
    let (directory, _) = world.handle(&info, &no_overrides(), false);
    assert_eq!(directory, None);
}

#[test]
fn warnings_of_each_kind() {
    let dirty = GitVersionInfo {
        describe: CURRENT_VERSION,
        dirty: true,
    };
    let disabled = Overrides {
        disable_versioning: true,
        version_ttl: Some("soon"),
        ..no_overrides()
    };
    let ignoring = Overrides {
        ignore_dirty: true,
        ..no_overrides()
    };

    let (directory, warnings) = World::new().handle(&dirty, &disabled, false);
    assert_eq!(directory.unwrap(), "unversioned");
    assert_eq!(
        warnings,
        vec![Warning::VersioningDisabled, Warning::TtlIgnored]
    );

    // on CI nothing is kept, so the unusable TTL is not even looked at
    let (_, warnings) = World::new().handle(&dirty, &disabled, true);
    assert_eq!(warnings, vec![Warning::VersioningDisabled]);

    let (directory, warnings) = World::new().handle(&dirty, &ignoring, false);
    assert_eq!(directory.unwrap(), CURRENT_VERSION);
    assert_eq!(warnings, vec![Warning::DirtyCacheEnabled]);

    // where a temporary directory is used, the TTL doesn't matter either
    let unusable = Overrides {
        version_ttl: Some("soon"),
        ..no_overrides()
    };
    let (_, warnings) = World::new().handle(&dirty, &unusable, false);
    assert_eq!(warnings, vec![Warning::DirtyCacheDisabled]);
}

#[test]
fn ttl_override_is_in_seconds() {
    for (raw, expected) in [("10", vec!["other"]), ("9", vec![]), ("+10", vec!["other"])] {
        let mut world = World::new();
        world.create_version_dir("other", secs(10));
        let overrides = Overrides {
            version_ttl: Some(raw),
            ..no_overrides()
        };
        let (_, warnings) = world.handle(&version_info(), &overrides, false);
        assert!(warnings.is_empty());
        assert_eq!(world.entry_names(), expected);
    }
}

#[test]
fn unexpected_event_repeats_the_request() {
    let (mut session, _) = handle_db_versioning(&version_info(), &no_overrides(), false);
    assert_eq!(session.request(), Request::OpenListing);
    session.reply(Event::Renamed(true));
    assert_eq!(session.request(), Request::OpenListing);
    session.reply(Event::ListingOpened(true));
    assert_eq!(session.request(), Request::NextEntry);
    session.reply(Event::ListingEnded);
    assert_eq!(session.request(), Request::OpenStamp);
    session.reply(Event::StampOpened(OpenOutcome::Failed));
    assert_eq!(session.request(), Request::Finish);
    session.reply(Event::ListingOpened(true));
    assert_eq!(session.request(), Request::Finish);
}

/// A current version that starts with the deletion prefix can be the name that another database is
/// given.
#[test]
fn prefixed_current_version_can_clash_with_a_poisoned_name() {
    let info = GitVersionInfo {
        describe: "__stale_x",
        dirty: false,
    };
    let mut world = World::new();
    world.create_dir("x");
    world.handle(&info, &no_overrides(), false);
    assert!(world
        .requests
        .contains(&Request::RemoveDir(b"__stale_x".to_vec())));
}
