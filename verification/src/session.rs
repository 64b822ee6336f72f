//! The conversation between the decisions and the file system.
//!
//! A [`Session`] never touches a file. It says what it wants done next as a [`Request`]; whoever
//! drives it does that and hands the outcome back as an [`Event`]. All names in requests and events
//! are those of entries directly inside the directory that holds the databases.
use crate::age::{contents_view, last_used_age, time_since_last_used};
use crate::names::{classify_entry, entry_kind, poisoned, poisoned_name, EntryKind};
use crate::recency::{by_recency, is_fresh, position_view, recency_order, used_within};
use crate::selection::{
    directory_of, retention, retention_for, select_version, selected_directory, selection,
    selection_warning, ttl_is_ignored, GitVersionInfo, Overrides, Retention, Selection, Warning,
};
use vstd::prelude::*;

verus! {

/// How the attempt ended to open a version's last-used file for writing, without creating it and
/// without disturbing its contents.
#[derive(Clone, Copy, PartialEq, Eq, Structural, Debug)]
pub enum OpenOutcome {
    /// The file is open.
    Opened,
    /// There is no such file.
    NotFound,
    /// The file could not be opened for another reason.
    Failed,
}

/// What is left to do to stamp a version directory as used.
#[derive(Clone, Copy, PartialEq, Eq, Structural, Debug)]
pub enum MarkUsed {
    /// The modification time of the opened file is to be set to the current time.
    SetModified,
    /// There is nothing to stamp.
    Nothing,
    /// The stamp could not be set.
    Failed,
}

/// What is left to do after the last-used file was to be opened.
pub open spec fn mark_used_after(opened: OpenOutcome) -> MarkUsed {
    match opened {
        OpenOutcome::Opened => MarkUsed::SetModified,
        OpenOutcome::NotFound => MarkUsed::Nothing,
        OpenOutcome::Failed => MarkUsed::Failed,
    }
}

/// Stamps a version directory as used now, by setting the mtime of its last-used file to the
/// current time, once it was tried to open that file.
///
/// This is a no-op when the file doesn't exist. Creating it here would be actively harmful: the
/// persistence layer reads `CURRENT` as a big-endian `u32` sequence number, so an empty file we
/// fabricated would fail that read and make the directory un-openable. A directory in that state is
/// either brand new (the persistence layer writes `CURRENT` as it initializes, which stamps it for
/// us moments later) or not a database, and [`time_since_last_used`] has its own fallback for
/// judging the age of one that lacks the file.
pub fn mark_used(opened: OpenOutcome) -> (step: MarkUsed)
    ensures
        step == mark_used_after(opened),
        step == MarkUsed::SetModified <==> opened == OpenOutcome::Opened,
        step == MarkUsed::Nothing <==> opened == OpenOutcome::NotFound,
        step == MarkUsed::Failed <==> opened == OpenOutcome::Failed,
{
    match opened {
        OpenOutcome::Opened => MarkUsed::SetModified,
        OpenOutcome::NotFound => MarkUsed::Nothing,
        OpenOutcome::Failed => MarkUsed::Failed,
    }
}

/// Why a version directory could not be stamped as used.
#[derive(Clone, Copy, PartialEq, Eq, Structural, Debug)]
pub enum MarkUsedError {
    /// Its last-used file is there and could not be opened.
    Open,
    /// Its last-used file was opened and its modification time could not be set.
    SetModified,
}

/// What comes of stamping a version directory as used, given how the attempt ended to open its
/// last-used file and, where it was opened, whether its modification time could be set.
pub open spec fn mark_used_outcome(opened: OpenOutcome, touched: bool) -> Result<
    (),
    MarkUsedError,
> {
    match opened {
        OpenOutcome::Opened => if touched {
            Ok(())
        } else {
            Err(MarkUsedError::SetModified)
        },
        OpenOutcome::NotFound => Ok(()),
        OpenOutcome::Failed => Err(MarkUsedError::Open),
    }
}

/// What comes of stamping a version directory as used. It fails exactly when the last-used file is
/// there and can't be opened, or is opened and its modification time can't be set.
pub fn mark_used_result(opened: OpenOutcome, touched: bool) -> (outcome: Result<(), MarkUsedError>)
    ensures
        outcome == mark_used_outcome(opened, touched),
        outcome is Err <==> opened == OpenOutcome::Failed || opened == OpenOutcome::Opened
            && !touched,
        outcome == Err::<(), MarkUsedError>(MarkUsedError::Open) <==> opened == OpenOutcome::Failed,
{
    match opened {
        OpenOutcome::Opened => if touched {
            Ok(())
        } else {
            Err(MarkUsedError::SetModified)
        },
        OpenOutcome::NotFound => Ok(()),
        OpenOutcome::Failed => Err(MarkUsedError::Open),
    }
}

/// The modification time is to be set exactly when the last-used file was opened, and only then does
/// it matter whether that succeeds. A file that is missing is no failure, and each failure is told
/// apart from the other.
pub proof fn law_only_an_opened_file_is_touched(opened: OpenOutcome, touched: bool)
    ensures
        mark_used_after(opened) == MarkUsed::SetModified <==> opened == OpenOutcome::Opened,
        mark_used_after(opened) == MarkUsed::Failed <==> opened == OpenOutcome::Failed,
        opened != OpenOutcome::Opened ==> mark_used_outcome(opened, touched) == mark_used_outcome(
            opened,
            !touched,
        ),
        mark_used_outcome(opened, touched) is Ok <==> opened == OpenOutcome::NotFound || opened
            == OpenOutcome::Opened && touched,
        mark_used_outcome(opened, touched) == Err::<(), MarkUsedError>(MarkUsedError::Open) <==> opened
            == OpenOutcome::Failed,
{
}

/// What a session wants done next.
#[derive(PartialEq, Eq, Debug)]
pub enum Request {
    /// Open the listing of the directory that holds the databases.
    OpenListing,
    /// Read the next entry of the listing.
    NextEntry,
    /// Remove this directory with everything in it.
    RemoveDir(Vec<u8>),
    /// Read the mtime of the last-used file in this directory, then the clock.
    ReadStamp(Vec<u8>),
    /// Read the mtime of each file directly inside this directory, then the clock.
    ReadContents(Vec<u8>),
    /// Rename the directory `from` to `to`.
    Rename { from: Vec<u8>, to: Vec<u8> },
    /// Open the last-used file of the selected directory for writing, without creating it and
    /// without disturbing its contents.
    OpenStamp,
    /// Set the modification time of the file that was opened to the current time.
    TouchStamp,
    /// Find out whether the selected directory exists.
    CheckTemp,
    /// Remove the selected directory with everything in it.
    RemoveTemp,
    /// Create the selected directory.
    CreateTemp,
    /// Nothing: the selected directory can be used.
    Finish,
    /// Nothing: the selected directory can't be used, because it could not be removed.
    Fail,
}

/// A [`Request`] as the contracts see it.
pub enum RequestView {
    OpenListing,
    NextEntry,
    RemoveDir(Seq<u8>),
    ReadStamp(Seq<u8>),
    ReadContents(Seq<u8>),
    Rename { from: Seq<u8>, to: Seq<u8> },
    OpenStamp,
    TouchStamp,
    CheckTemp,
    RemoveTemp,
    CreateTemp,
    Finish,
    Fail,
}

impl View for Request {
    type V = RequestView;

    open spec fn view(&self) -> RequestView {
        match *self {
            Request::OpenListing => RequestView::OpenListing,
            Request::NextEntry => RequestView::NextEntry,
            Request::RemoveDir(name) => RequestView::RemoveDir(name@),
            Request::ReadStamp(name) => RequestView::ReadStamp(name@),
            Request::ReadContents(name) => RequestView::ReadContents(name@),
            Request::Rename { from, to } => RequestView::Rename { from: from@, to: to@ },
            Request::OpenStamp => RequestView::OpenStamp,
            Request::TouchStamp => RequestView::TouchStamp,
            Request::CheckTemp => RequestView::CheckTemp,
            Request::RemoveTemp => RequestView::RemoveTemp,
            Request::CreateTemp => RequestView::CreateTemp,
            Request::Finish => RequestView::Finish,
            Request::Fail => RequestView::Fail,
        }
    }
}

/// What came of a [`Request`]. Each flag says whether the request succeeded.
#[derive(Debug)]
pub enum Event {
    /// The answer to [`Request::OpenListing`].
    ListingOpened(bool),
    /// An answer to [`Request::NextEntry`]: an entry, with `is_dir` being `None` where its type
    /// could not be read.
    Entry { name: Vec<u8>, is_dir: Option<bool> },
    /// An answer to [`Request::NextEntry`]: an entry that could not be read.
    EntryUnreadable,
    /// An answer to [`Request::NextEntry`]: there are no more entries.
    ListingEnded,
    /// The answer to [`Request::RemoveDir`] and [`Request::RemoveTemp`].
    Removed(bool),
    /// The answer to [`Request::ReadStamp`]: the mtime, if it could be read, and the time after.
    StampRead { modified: Option<i128>, now: i128 },
    /// The answer to [`Request::ReadContents`]: the mtime of each file, if it could be read, or
    /// `None` where the directory could not be listed, and the time after.
    ContentsRead { files: Option<Vec<Option<i128>>>, now: i128 },
    /// The answer to [`Request::Rename`].
    Renamed(bool),
    /// The answer to [`Request::OpenStamp`].
    StampOpened(OpenOutcome),
    /// The answer to [`Request::TouchStamp`].
    StampTouched(bool),
    /// The answer to [`Request::CheckTemp`]: whether the directory exists.
    TempChecked(bool),
    /// The answer to [`Request::CreateTemp`].
    TempCreated(bool),
}

/// Where the age of a directory is read from.
#[derive(Clone, Copy, PartialEq, Eq, Structural, Debug)]
pub enum Source {
    /// The last-used file.
    Stamp,
    /// The files directly inside.
    Contents,
}

/// How far a session has come.
#[derive(Clone, Copy, PartialEq, Eq, Structural, Debug)]
pub enum Stage {
    /// The listing is being opened.
    OpeningListing,
    /// The entries are being gone through.
    Listing,
    /// A leftover directory is being removed, after which the listing goes on.
    Sweeping,
    /// The ages by which the other databases are ordered are being read.
    Dating(Source),
    /// The age of a database that may be kept is being read again.
    Rechecking(Source),
    /// A database that is not kept is being poisoned.
    Renaming,
    /// A poisoned database is being removed.
    Removing,
    /// The selected directory is being stamped as used: its last-used file is being opened.
    OpeningStamp,
    /// The selected directory is being stamped as used: the opened file is being touched.
    TouchingStamp,
    /// It is being found out whether the temporary directory exists.
    CheckingTemp,
    /// The temporary directory is being removed.
    RemovingTemp,
    /// The temporary directory is being created.
    CreatingTemp,
    /// The selected directory can be used.
    Done,
    /// The temporary directory could not be removed.
    Failed,
}

/// The state of a session, as the contracts see it.
#[verifier::ext_equal]
pub struct SessionState {
    /// The path of the selected directory, relative to the directory that holds the databases.
    pub directory: Seq<char>,
    /// How much is kept of the other databases.
    pub retention: Retention,
    /// The names of the other databases, in listing order.
    pub others: Seq<Seq<u8>>,
    /// The ages of the other databases that are known so far, in listing order.
    pub ages: Seq<Option<u128>>,
    /// Once all ages are known: the positions of the other databases, most recently used first.
    pub order: Seq<int>,
    /// How many of the most recently used ones are kept.
    pub retained: int,
    /// How many in `order` have been dealt with.
    pub evicted: int,
    /// While sweeping: the name of the leftover directory.
    pub leftover: Seq<u8>,
    /// What came of stamping the selected directory as used, once that was tried.
    pub marked: Option<Result<(), MarkUsedError>>,
    /// How far the session has come.
    pub stage: Stage,
}

impl SessionState {
    /// The name that the current version's directory has in a listing.
    pub open spec fn version(self) -> Seq<u8> {
        vstd::utf8::encode_utf8(self.directory)
    }

    /// The name of the other database that stands at `i` when they are ordered by recency.
    pub open spec fn ranked(self, i: int) -> Seq<u8> {
        self.others[self.order[i]]
    }

    /// Goes on to evict the next database, or to the stamp if none is left.
    pub open spec fn evict_next(self) -> SessionState {
        SessionState {
            stage: if self.evicted < self.order.len() {
                Stage::Renaming
            } else {
                Stage::OpeningStamp
            },
            ..self
        }
    }

    /// Begins to evict the databases that are not kept.
    pub open spec fn begin_eviction(self) -> SessionState {
        SessionState { evicted: self.retained, ..self }.evict_next()
    }

    /// Goes on to look at the next database that may be kept, or to the eviction if there is none.
    pub open spec fn recheck_next(self) -> SessionState {
        if self.retained < self.retention.max_other_db_versions && self.retained < self.order.len() {
            SessionState { stage: Stage::Rechecking(Source::Stamp), ..self }
        } else {
            self.begin_eviction()
        }
    }

    /// Goes on to read the next age, or to rank the databases if all ages are known.
    pub open spec fn date_next(self) -> SessionState {
        if self.ages.len() < self.others.len() {
            SessionState { stage: Stage::Dating(Source::Stamp), ..self }
        } else {
            SessionState { order: recency_order(self.ages), ..self }.recheck_next()
        }
    }

    /// Takes in the age of the next database in listing order.
    pub open spec fn dated(self, age: Option<u128>) -> SessionState {
        SessionState { ages: self.ages.push(age), ..self }.date_next()
    }

    /// Takes in the age of a database that may be kept: it is, if it was used within the time.
    pub open spec fn rechecked(self, age: Option<u128>) -> SessionState {
        if is_fresh(age, self.retention.ttl) {
            SessionState { retained: self.retained + 1, ..self }.recheck_next()
        } else {
            self.begin_eviction()
        }
    }

    /// Takes in what came of stamping the selected directory, which can be used either way.
    pub open spec fn finish_stamp(self, outcome: Result<(), MarkUsedError>) -> SessionState {
        SessionState { marked: Some(outcome), stage: Stage::Done, ..self }
    }

    /// The state that `event` leads to. An event that is no answer to what the session asked for
    /// changes nothing.
    pub open spec fn next(self, event: Event) -> SessionState {
        match (self.stage, event) {
            (Stage::OpeningListing, Event::ListingOpened(ok)) => SessionState {
                stage: if ok {
                    Stage::Listing
                } else {
                    Stage::OpeningStamp
                },
                ..self
            },
            (Stage::Listing, Event::Entry { name, is_dir }) => match entry_kind(
                name@,
                is_dir,
                self.version(),
            ) {
                EntryKind::Ignored => self,
                EntryKind::Leftover => SessionState {
                    leftover: name@,
                    stage: Stage::Sweeping,
                    ..self
                },
                EntryKind::OtherDb => SessionState { others: self.others.push(name@), ..self },
            },
            (Stage::Listing, Event::ListingEnded) => self.date_next(),
            (Stage::Sweeping, Event::Removed(_)) => SessionState { stage: Stage::Listing, ..self },
            (Stage::Dating(Source::Stamp), Event::StampRead { modified, now }) => match modified {
                Some(_) => self.dated(last_used_age(modified, None, now)),
                None => SessionState { stage: Stage::Dating(Source::Contents), ..self },
            },
            (Stage::Dating(Source::Contents), Event::ContentsRead { files, now }) => self.dated(
                last_used_age(None, contents_view(files), now),
            ),
            (Stage::Rechecking(Source::Stamp), Event::StampRead { modified, now }) => match modified {
                Some(_) => self.rechecked(last_used_age(modified, None, now)),
                None => SessionState { stage: Stage::Rechecking(Source::Contents), ..self },
            },
            (Stage::Rechecking(Source::Contents), Event::ContentsRead { files, now }) =>
                self.rechecked(last_used_age(None, contents_view(files), now)),
            (Stage::Renaming, Event::Renamed(ok)) => if ok {
                SessionState { stage: Stage::Removing, ..self }
            } else {
                SessionState { evicted: self.evicted + 1, ..self }.evict_next()
            },
            (Stage::Removing, Event::Removed(_)) => SessionState {
                evicted: self.evicted + 1,
                ..self
            }.evict_next(),
            (Stage::OpeningStamp, Event::StampOpened(opened)) => if mark_used_after(opened)
                == MarkUsed::SetModified {
                SessionState { stage: Stage::TouchingStamp, ..self }
            } else {
                self.finish_stamp(mark_used_outcome(opened, false))
            },
            (Stage::TouchingStamp, Event::StampTouched(ok)) => self.finish_stamp(
                mark_used_outcome(OpenOutcome::Opened, ok),
            ),
            (Stage::CheckingTemp, Event::TempChecked(exists_now)) => SessionState {
                stage: if exists_now {
                    Stage::RemovingTemp
                } else {
                    Stage::CreatingTemp
                },
                ..self
            },
            (Stage::RemovingTemp, Event::Removed(ok)) => SessionState {
                stage: if ok {
                    Stage::CreatingTemp
                } else {
                    Stage::Failed
                },
                ..self
            },
            (Stage::CreatingTemp, Event::TempCreated(_)) => SessionState {
                stage: Stage::Done,
                ..self
            },
            _ => self,
        }
    }

    /// What the session wants done next.
    pub open spec fn request(self) -> RequestView {
        match self.stage {
            Stage::OpeningListing => RequestView::OpenListing,
            Stage::Listing => RequestView::NextEntry,
            Stage::Sweeping => RequestView::RemoveDir(self.leftover),
            Stage::Dating(Source::Stamp) => RequestView::ReadStamp(
                self.others[self.ages.len() as int],
            ),
            Stage::Dating(Source::Contents) => RequestView::ReadContents(
                self.others[self.ages.len() as int],
            ),
            Stage::Rechecking(Source::Stamp) => RequestView::ReadStamp(self.ranked(self.retained)),
            Stage::Rechecking(Source::Contents) => RequestView::ReadContents(
                self.ranked(self.retained),
            ),
            Stage::Renaming => RequestView::Rename {
                from: self.ranked(self.evicted),
                to: poisoned(self.ranked(self.evicted)),
            },
            Stage::Removing => RequestView::RemoveDir(poisoned(self.ranked(self.evicted))),
            Stage::OpeningStamp => RequestView::OpenStamp,
            Stage::TouchingStamp => RequestView::TouchStamp,
            Stage::CheckingTemp => RequestView::CheckTemp,
            Stage::RemovingTemp => RequestView::RemoveTemp,
            Stage::CreatingTemp => RequestView::CreateTemp,
            Stage::Done => RequestView::Finish,
            Stage::Failed => RequestView::Fail,
        }
    }

    /// What holds in every state of a session.
    pub open spec fn valid(self) -> bool {
        let ranked = self.ages.len() == self.others.len() && self.order == recency_order(self.ages);
        let unranked = self.order.len() == 0 && self.retained == 0 && self.evicted == 0;
        &&& 0 <= self.retained <= self.order.len()
        &&& self.retained <= self.retention.max_other_db_versions
        &&& match self.stage {
            Stage::OpeningListing => self.others.len() == 0 && self.ages.len() == 0 && unranked,
            Stage::Listing => self.ages.len() == 0 && unranked,
            Stage::Sweeping => self.ages.len() == 0 && unranked,
            Stage::Dating(_) => self.ages.len() < self.others.len() && unranked,
            Stage::Rechecking(_) => ranked && self.evicted == 0 && self.retained < self.order.len()
                && self.retained < self.retention.max_other_db_versions,
            Stage::Renaming => ranked && self.retained <= self.evicted < self.order.len(),
            Stage::Removing => ranked && self.retained <= self.evicted < self.order.len(),
            _ => ranked && self.evicted == self.order.len(),
        }
    }
}

/// The state in which a session starts.
pub open spec fn initial_state(
    info: GitVersionInfo,
    overrides: Overrides,
    is_ci: bool,
) -> SessionState {
    let selected = selection(info, overrides);
    SessionState {
        directory: directory_of(selected),
        retention: retention(is_ci, overrides.version_ttl),
        others: Seq::empty(),
        ages: Seq::empty(),
        order: Seq::empty(),
        retained: 0,
        evicted: 0,
        leftover: Seq::empty(),
        marked: None,
        stage: match selected {
            Selection::Forced(_) => Stage::Done,
            Selection::Version(_) => Stage::OpeningListing,
            Selection::Temporary => Stage::CheckingTemp,
        },
    }
}

/// What the user is told at the start of a session. An unusable override of the time is mentioned
/// only where the time matters.
pub open spec fn initial_warnings(
    info: GitVersionInfo,
    overrides: Overrides,
    is_ci: bool,
) -> Seq<Warning> {
    let of_selection = match selection_warning(info, overrides) {
        Some(warning) => seq![warning],
        None => Seq::empty(),
    };
    if selection(info, overrides) is Version && !is_ci && ttl_is_ignored(overrides.version_ttl) {
        of_selection.push(Warning::TtlIgnored)
    } else {
        of_selection
    }
}

/// The decisions that are made while a version directory is selected and older ones are cleaned up.
pub struct Session {
    directory: String,
    retention: Retention,
    others: Vec<Vec<u8>>,
    ages: Vec<Option<u128>>,
    order: Vec<usize>,
    retained: usize,
    evicted: usize,
    leftover: Vec<u8>,
    marked: Option<Result<(), MarkUsedError>>,
    stage: Stage,
}

impl View for Session {
    type V = SessionState;

    closed spec fn view(&self) -> SessionState {
        SessionState {
            directory: self.directory@,
            retention: self.retention,
            others: Seq::new(self.others@.len(), |i: int| self.others@[i]@),
            ages: self.ages@,
            order: position_view(self.order@),
            retained: self.retained as int,
            evicted: self.evicted as int,
            leftover: self.leftover@,
            marked: self.marked,
            stage: self.stage,
        }
    }
}

/// Selects a version directory for the given `info`, and starts the session that cleans up
/// old/stale databases. Also says what the user is to be told.
///
/// A database whose version isn't the current one is retained only if it is among the
/// [`MAX_OTHER_DB_VERSIONS`](crate::selection::MAX_OTHER_DB_VERSIONS) most recently used *and* was
/// used within
/// [`DEFAULT_OTHER_DB_VERSION_TTL`](crate::selection::DEFAULT_OTHER_DB_VERSION_TTL). The current
/// version's database is always retained, no matter how long ago it was last used.
pub fn handle_db_versioning(
    info: &GitVersionInfo,
    overrides: &Overrides,
    is_ci: bool,
) -> (started: (Session, Vec<Warning>))
    ensures
        started.0@ == initial_state(*info, *overrides, is_ci),
        started.0@.valid(),
        started.1@ == initial_warnings(*info, *overrides, is_ci),
{
    let (selected, warning) = select_version(info, overrides);
    let (retention, ttl_ignored) = retention_for(is_ci, overrides.version_ttl);
    let mut warnings: Vec<Warning> = Vec::new();
    if let Some(warning) = warning {
        warnings.push(warning);
    }
    let stage = match selected {
        Selection::Forced(_) => Stage::Done,
        Selection::Version(_) => Stage::OpeningListing,
        Selection::Temporary => Stage::CheckingTemp,
    };
    if let Selection::Version(_) = selected {
        if ttl_ignored {
            warnings.push(Warning::TtlIgnored);
        }
    }
    let session = Session {
        directory: selected_directory(&selected).to_owned(),
        retention,
        others: Vec::new(),
        ages: Vec::new(),
        order: Vec::new(),
        retained: 0,
        evicted: 0,
        leftover: Vec::new(),
        marked: None,
        stage,
    };
    assert(session@ =~= initial_state(*info, *overrides, is_ci));
    proof {
        lemma_initial_state_is_valid(*info, *overrides, is_ci);
    }
    assert(warnings@ =~= initial_warnings(*info, *overrides, is_ci));
    (session, warnings)
}

impl Session {
    /// The path of the selected directory, relative to the directory that holds the databases.
    pub fn directory(&self) -> (directory: &str)
        ensures
            directory@ == self@.directory,
    {
        self.directory.as_str()
    }

    /// What came of stamping the selected directory as used, or `None` where that was not tried.
    pub fn marked(&self) -> (outcome: Option<Result<(), MarkUsedError>>)
        ensures
            outcome == self@.marked,
    {
        self.marked
    }

    fn evict_next(&mut self)
        ensures
            final(self)@ == old(self)@.evict_next(),
    {
        self.stage = if self.evicted < self.order.len() {
            Stage::Renaming
        } else {
            Stage::OpeningStamp
        };
        assert(self@ =~= old(self)@.evict_next());
    }

    fn begin_eviction(&mut self)
        ensures
            final(self)@ == old(self)@.begin_eviction(),
    {
        self.evicted = self.retained;
        assert(self@ =~= (SessionState { evicted: old(self)@.retained, ..old(self)@ }));
        self.evict_next();
    }

    fn recheck_next(&mut self)
        ensures
            final(self)@ == old(self)@.recheck_next(),
    {
        if self.retained < self.retention.max_other_db_versions && self.retained < self.order.len() {
            self.stage = Stage::Rechecking(Source::Stamp);
            assert(self@ =~= old(self)@.recheck_next());
        } else {
            self.begin_eviction();
        }
    }

    fn date_next(&mut self)
        ensures
            final(self)@ == old(self)@.date_next(),
    {
        if self.ages.len() < self.others.len() {
            self.stage = Stage::Dating(Source::Stamp);
            assert(self@ =~= old(self)@.date_next());
        } else {
            self.order = by_recency(&self.ages);
            assert(self@ =~= (SessionState { order: recency_order(old(self)@.ages), ..old(self)@ }));
            self.recheck_next();
        }
    }

    fn dated(&mut self, age: Option<u128>)
        ensures
            final(self)@ == old(self)@.dated(age),
    {
        self.ages.push(age);
        assert(self@ =~= (SessionState { ages: old(self)@.ages.push(age), ..old(self)@ }));
        self.date_next();
    }

    fn rechecked(&mut self, age: Option<u128>)
        requires
            old(self)@.retained < old(self)@.order.len(),
        ensures
            final(self)@ == old(self)@.rechecked(age),
    {
        assert(self@.order.len() == self.order.len());
        if used_within(age, self.retention.ttl) {
            self.retained = self.retained + 1;
            assert(self@ =~= (SessionState { retained: old(self)@.retained + 1, ..old(self)@ }));
            self.recheck_next();
        } else {
            self.begin_eviction();
        }
    }

    fn evicted_one(&mut self)
        requires
            old(self)@.evicted < old(self)@.order.len(),
        ensures
            final(self)@ == (SessionState {
                evicted: old(self)@.evicted + 1,
                ..old(self)@
            }).evict_next(),
    {
        assert(self@.order.len() == self.order.len());
        self.evicted = self.evicted + 1;
        assert(self@ =~= (SessionState { evicted: old(self)@.evicted + 1, ..old(self)@ }));
        self.evict_next();
    }

    fn listed(&mut self, name: Vec<u8>, is_dir: Option<bool>)
        requires
            old(self)@.stage == Stage::Listing,
        ensures
            final(self)@ == old(self)@.next(Event::Entry { name, is_dir }),
    {
        match classify_entry(name.as_slice(), is_dir, self.directory.as_str().as_bytes()) {
            EntryKind::Ignored => {},
            EntryKind::Leftover => {
                self.leftover = name;
                self.stage = Stage::Sweeping;
            },
            EntryKind::OtherDb => {
                self.others.push(name);
            },
        }
        assert(self@ =~= old(self)@.next(Event::Entry { name, is_dir }));
    }

    fn move_to(&mut self, stage: Stage)
        ensures
            final(self)@ == (SessionState { stage, ..old(self)@ }),
    {
        self.stage = stage;
        assert(self@ =~= (SessionState { stage, ..old(self)@ }));
    }

    fn finish_stamp(&mut self, outcome: Result<(), MarkUsedError>)
        ensures
            final(self)@ == old(self)@.finish_stamp(outcome),
    {
        self.marked = Some(outcome);
        self.stage = Stage::Done;
        assert(self@ =~= old(self)@.finish_stamp(outcome));
    }

    /// Takes in what came of the last request. An event that is no answer to it changes nothing, so
    /// that the session asks again.
    pub fn reply(&mut self, event: Event)
        requires
            old(self)@.valid(),
        ensures
            final(self)@ == old(self)@.next(event),
            final(self)@.valid(),
    {
        proof {
            lemma_next_is_valid(self@, event);
        }
        match (self.stage, event) {
            (Stage::OpeningListing, Event::ListingOpened(ok)) => {
                self.move_to(if ok { Stage::Listing } else { Stage::OpeningStamp });
            },
            (Stage::Listing, Event::Entry { name, is_dir }) => {
                self.listed(name, is_dir);
            },
            (Stage::Listing, Event::ListingEnded) => {
                self.date_next();
            },
            (Stage::Sweeping, Event::Removed(_)) => {
                // failures during cleanup of a cache directory are not fatal
                self.move_to(Stage::Listing);
            },
            (Stage::Dating(Source::Stamp), Event::StampRead { modified, now }) => {
                if modified.is_some() {
                    self.dated(time_since_last_used(modified, &None, now));
                } else {
                    self.move_to(Stage::Dating(Source::Contents));
                }
            },
            (Stage::Dating(Source::Contents), Event::ContentsRead { files, now }) => {
                self.dated(time_since_last_used(None, &files, now));
            },
            (Stage::Rechecking(Source::Stamp), Event::StampRead { modified, now }) => {
                if modified.is_some() {
                    self.rechecked(time_since_last_used(modified, &None, now));
                } else {
                    self.move_to(Stage::Rechecking(Source::Contents));
                }
            },
            (Stage::Rechecking(Source::Contents), Event::ContentsRead { files, now }) => {
                self.rechecked(time_since_last_used(None, &files, now));
            },
            (Stage::Renaming, Event::Renamed(ok)) => {
                // Only try to delete the files if the rename succeeded, it's not safe to delete
                // contents if we didn't manage to first poison the directory by renaming it.
                if ok {
                    self.move_to(Stage::Removing);
                } else {
                    self.evicted_one();
                }
            },
            (Stage::Removing, Event::Removed(_)) => {
                // It's okay if this failed, as we've already poisoned the directory.
                self.evicted_one();
            },
            (Stage::OpeningStamp, Event::StampOpened(opened)) => {
                // A failure is no reason to stop: an unstamped directory only risks being evicted
                // early.
                match mark_used(opened) {
                    MarkUsed::SetModified => {
                        self.move_to(Stage::TouchingStamp);
                    },
                    MarkUsed::Nothing => {
                        self.finish_stamp(mark_used_result(opened, false));
                    },
                    MarkUsed::Failed => {
                        self.finish_stamp(mark_used_result(opened, false));
                    },
                }
            },
            (Stage::TouchingStamp, Event::StampTouched(ok)) => {
                self.finish_stamp(mark_used_result(OpenOutcome::Opened, ok));
            },
            (Stage::CheckingTemp, Event::TempChecked(exists_now)) => {
                self.move_to(if exists_now { Stage::RemovingTemp } else { Stage::CreatingTemp });
            },
            (Stage::RemovingTemp, Event::Removed(ok)) => {
                // Not ignored: if this fails we may have stale files left over in the temporary
                // directory.
                self.move_to(if ok { Stage::CreatingTemp } else { Stage::Failed });
            },
            (Stage::CreatingTemp, Event::TempCreated(_)) => {
                // A directory that is missing can still be created by whoever uses it.
                self.move_to(Stage::Done);
            },
            _ => {},
        }
    }

    fn name_at(&self, i: usize) -> (name: Vec<u8>)
        requires
            i < self@.order.len(),
            self@.order[i as int] < self@.others.len(),
        ensures
            name@ == self@.ranked(i as int),
    {
        vstd::slice::slice_to_vec(self.others[self.order[i]].as_slice())
    }

    /// What is to be done next.
    pub fn request(&self) -> (wanted: Request)
        requires
            self@.valid(),
        ensures
            wanted@ == self@.request(),
            match (wanted, self@.request()) {
                (Request::OpenListing, RequestView::OpenListing) => true,
                (Request::NextEntry, RequestView::NextEntry) => true,
                (Request::RemoveDir(name), RequestView::RemoveDir(bytes)) => name@ == bytes,
                (Request::ReadStamp(name), RequestView::ReadStamp(bytes)) => name@ == bytes,
                (Request::ReadContents(name), RequestView::ReadContents(bytes)) => name@ == bytes,
                (
                    Request::Rename { from, to },
                    RequestView::Rename { from: from_bytes, to: to_bytes },
                ) => from@ == from_bytes && to@ == to_bytes,
                (Request::OpenStamp, RequestView::OpenStamp) => true,
                (Request::TouchStamp, RequestView::TouchStamp) => true,
                (Request::CheckTemp, RequestView::CheckTemp) => true,
                (Request::RemoveTemp, RequestView::RemoveTemp) => true,
                (Request::CreateTemp, RequestView::CreateTemp) => true,
                (Request::Finish, RequestView::Finish) => true,
                (Request::Fail, RequestView::Fail) => true,
                _ => false,
            },
    {
        proof {
            crate::recency::law_recency_order_is_unique(self@.ages);
        }
        match self.stage {
            Stage::OpeningListing => Request::OpenListing,
            Stage::Listing => Request::NextEntry,
            Stage::Sweeping => Request::RemoveDir(
                vstd::slice::slice_to_vec(self.leftover.as_slice()),
            ),
            Stage::Dating(source) => {
                let name = vstd::slice::slice_to_vec(self.others[self.ages.len()].as_slice());
                match source {
                    Source::Stamp => Request::ReadStamp(name),
                    Source::Contents => Request::ReadContents(name),
                }
            },
            Stage::Rechecking(source) => {
                let name = self.name_at(self.retained);
                match source {
                    Source::Stamp => Request::ReadStamp(name),
                    Source::Contents => Request::ReadContents(name),
                }
            },
            Stage::Renaming => {
                let from = self.name_at(self.evicted);
                let to = poisoned_name(from.as_slice());
                Request::Rename { from, to }
            },
            Stage::Removing => Request::RemoveDir(
                poisoned_name(self.name_at(self.evicted).as_slice()),
            ),
            Stage::OpeningStamp => Request::OpenStamp,
            Stage::TouchingStamp => Request::TouchStamp,
            Stage::CheckingTemp => Request::CheckTemp,
            Stage::RemovingTemp => Request::RemoveTemp,
            Stage::CreatingTemp => Request::CreateTemp,
            Stage::Done => Request::Finish,
            Stage::Failed => Request::Fail,
        }
    }
}

/// A session starts in a valid state.
pub proof fn lemma_initial_state_is_valid(info: GitVersionInfo, overrides: Overrides, is_ci: bool)
    ensures
        initial_state(info, overrides, is_ci).valid(),
{
    let start = initial_state(info, overrides, is_ci);
    crate::recency::law_recency_order_is_unique(start.ages);
    assert(start.order =~= recency_order(start.ages));
}

/// Every event keeps a state valid.
pub proof fn lemma_next_is_valid(state: SessionState, event: Event)
    requires
        state.valid(),
    ensures
        state.next(event).valid(),
{
    crate::recency::law_recency_order_is_unique(state.ages);
    if state.ages.len() == 0 && state.order.len() == 0 {
        assert(state.order =~= recency_order(state.ages));
    }
    assert forall|age: Option<u128>| #[trigger]
        recency_order(state.ages.push(age)).len() == state.ages.len() + 1 by {
        crate::recency::law_recency_order_is_unique(state.ages.push(age));
    }
}

} // verus!
