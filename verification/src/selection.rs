//! Which version's directory is used, and how much is kept of the others.
use crate::recency::MAX_AGE;
use vstd::prelude::*;

verus! {

/// Information on the state of the git repository that the running binary was built from. It must
/// be computed in the top-level crate for cargo incremental compilation to work correctly.
#[derive(Clone, Copy, Debug)]
pub struct GitVersionInfo<'a> {
    /// Output of `git describe --match 'v[0-9]' --dirty`.
    pub describe: &'a str,
    /// Is the git repository dirty? Always forced to `false` when the `CI` environment variable is
    /// set and non-empty.
    pub dirty: bool,
}

/// The name of the environment variable that forces use of a specific database version.
pub const VERSION_VAR: &'static str = "TURBO_ENGINE_VERSION";

/// The name of the environment variable that enables the filesystem cache in a dirty git
/// repository. Otherwise a temporary directory is created.
pub const IGNORE_DIRTY_VAR: &'static str = "TURBO_ENGINE_IGNORE_DIRTY";

/// The name of the environment variable that, when set, has versioning ignored and the same
/// "unversioned" database used always.
pub const DISABLE_VERSIONING_VAR: &'static str = "TURBO_ENGINE_DISABLE_VERSIONING";

/// The name of the environment variable that says how long, in seconds, to retain a database whose
/// version isn't the current one. It overrides [`DEFAULT_OTHER_DB_VERSION_TTL`].
pub const VERSION_TTL_VAR: &'static str = "TURBO_ENGINE_VERSION_TTL";

/// What the environment variables say.
#[derive(Clone, Copy, Debug)]
pub struct Overrides<'a> {
    /// The value of [`VERSION_VAR`].
    pub version: Option<&'a str>,
    /// Whether [`IGNORE_DIRTY_VAR`] is set.
    pub ignore_dirty: bool,
    /// Whether [`DISABLE_VERSIONING_VAR`] is set.
    pub disable_versioning: bool,
    /// The value of [`VERSION_TTL_VAR`].
    pub version_ttl: Option<&'a str>,
}

/// The directory that is used when versioning is disabled.
pub const UNVERSIONED: &'static str = "unversioned";

/// The directory that is created anew when the filesystem cache is disabled.
pub const TEMP_DIR: &'static str = "temp";

/// The directory to use.
#[derive(Clone, Copy, PartialEq, Eq, Debug)]
pub enum Selection<'a> {
    /// A version that the environment forces. Nothing but the path is decided for it.
    Forced(&'a str),
    /// The directory of this version, next to which older databases are cleaned up.
    Version(&'a str),
    /// The temporary directory.
    Temporary,
}

/// Something the user is told.
#[derive(Clone, Copy, PartialEq, Eq, Structural, Debug)]
pub enum Warning {
    /// Versioning is disabled, so the database might have to be removed by hand.
    VersioningDisabled,
    /// The repository is dirty and the filesystem cache still enabled, so the database might have
    /// to be removed by hand.
    DirtyCacheEnabled,
    /// The repository is dirty and the filesystem cache disabled.
    DirtyCacheDisabled,
    /// [`VERSION_TTL_VAR`] is not a whole number of seconds and was ignored.
    TtlIgnored,
}

/// The directory that is used.
pub open spec fn selection<'a>(info: GitVersionInfo<'a>, overrides: Overrides<'a>) -> Selection<'a> {
    if overrides.version is Some {
        Selection::Forced(overrides.version->0)
    } else if overrides.disable_versioning {
        Selection::Version(UNVERSIONED)
    } else if info.dirty && !overrides.ignore_dirty {
        Selection::Temporary
    } else {
        Selection::Version(info.describe)
    }
}

/// What the user is told about the selection.
pub open spec fn selection_warning(info: GitVersionInfo, overrides: Overrides) -> Option<Warning> {
    if overrides.version is Some {
        None
    } else if overrides.disable_versioning {
        Some(Warning::VersioningDisabled)
    } else if !info.dirty {
        None
    } else if overrides.ignore_dirty {
        Some(Warning::DirtyCacheEnabled)
    } else {
        Some(Warning::DirtyCacheDisabled)
    }
}

/// Selects the directory to use, and says what the user is to be told about it.
pub fn select_version<'a>(info: &GitVersionInfo<'a>, overrides: &Overrides<'a>) -> (selected: (
    Selection<'a>,
    Option<Warning>,
))
    ensures
        selected.0 == selection(*info, *overrides),
        selected.1 == selection_warning(*info, *overrides),
        selected.0 is Forced <==> overrides.version is Some,
        selected.0 is Temporary <==> overrides.version is None && !overrides.disable_versioning
            && info.dirty && !overrides.ignore_dirty,
        selected.0 matches Selection::Forced(version) ==> version@ == overrides.version->0@,
        selected.0 matches Selection::Version(version) ==> version@ == (
        if overrides.disable_versioning {
            UNVERSIONED@
        } else {
            info.describe@
        }),
{
    if let Some(version) = overrides.version {
        return (Selection::Forced(version), None);
    }
    if overrides.disable_versioning {
        (Selection::Version(UNVERSIONED), Some(Warning::VersioningDisabled))
    } else if !info.dirty {
        (Selection::Version(info.describe), None)
    } else if overrides.ignore_dirty {
        (Selection::Version(info.describe), Some(Warning::DirtyCacheEnabled))
    } else {
        (Selection::Temporary, Some(Warning::DirtyCacheDisabled))
    }
}

/// The path of the selected directory, relative to the directory that holds the databases.
pub open spec fn directory_of(selected: Selection) -> Seq<char> {
    match selected {
        Selection::Forced(version) => version@,
        Selection::Version(version) => version@,
        Selection::Temporary => TEMP_DIR@,
    }
}

/// A version that the environment forces is used whatever else is set and whatever the state of the
/// repository. Where none is forced and versioning is disabled, the same directory is used always.
/// A clean repository uses the directory of its own version, and a dirty one does so only where its
/// dirtiness is ignored.
pub proof fn law_overrides_take_precedence(info: GitVersionInfo, overrides: Overrides)
    ensures
        ({
            let directory = directory_of(selection(info, overrides));
            &&& overrides.version is Some ==> directory == overrides.version->0@
            &&& overrides.version is None && overrides.disable_versioning ==> directory
                == UNVERSIONED@
            &&& overrides.version is None && !overrides.disable_versioning ==> directory == (if info.dirty
                && !overrides.ignore_dirty {
                TEMP_DIR@
            } else {
                info.describe@
            })
        }),
{
}

/// The temporary directory is used exactly where no version is forced, versioning is not disabled,
/// the repository is dirty and its dirtiness is not ignored. Where a version is forced, nothing but
/// its path is decided. In every other case older databases are cleaned up next to the directory
/// that is used. None of this depends on how the version is written.
pub proof fn law_only_dirtiness_calls_for_the_temporary_directory(
    info: GitVersionInfo,
    overrides: Overrides,
)
    ensures
        ({
            let selected = selection(info, overrides);
            let free = overrides.version is None;
            let by_version = free && !overrides.disable_versioning;
            &&& selected is Forced <==> overrides.version is Some
            &&& selected is Temporary <==> by_version && info.dirty && !overrides.ignore_dirty
            &&& selected is Version <==> free && (overrides.disable_versioning || !info.dirty
                || overrides.ignore_dirty)
            &&& selected matches Selection::Forced(version) ==> version@ == overrides.version->0@
            &&& selected matches Selection::Version(version) ==> version@ == (if by_version {
                info.describe@
            } else {
                "unversioned"@
            })
            &&& selected is Temporary ==> directory_of(selected) == "temp"@
        }),
{
}

/// The user is told that versioning is disabled, or that the repository is dirty and whether the
/// filesystem cache is enabled nonetheless, and nothing where a version is forced or the repository
/// is clean.
pub proof fn law_unusual_selections_are_warned_about(info: GitVersionInfo, overrides: Overrides)
    ensures
        ({
            let warning = selection_warning(info, overrides);
            let free = overrides.version is None;
            let dirty = free && !overrides.disable_versioning && info.dirty;
            &&& warning == Some(Warning::VersioningDisabled) <==> free && overrides.disable_versioning
            &&& warning == Some(Warning::DirtyCacheEnabled) <==> dirty && overrides.ignore_dirty
            &&& warning == Some(Warning::DirtyCacheDisabled) <==> dirty && !overrides.ignore_dirty
            &&& warning != Some(Warning::TtlIgnored)
        }),
{
}

/// The path of the selected directory, relative to the directory that holds the databases.
pub fn selected_directory<'a>(selected: &Selection<'a>) -> (directory: &'a str)
    ensures
        directory@ == directory_of(*selected),
{
    match selected {
        Selection::Forced(version) => version,
        Selection::Version(version) => version,
        Selection::Temporary => TEMP_DIR,
    }
}

/// How many databases with a version other than the current one are retained.
///
/// The point of retaining any at all is to make version changes cheap to undo: upgrading on a
/// branch needs a fresh cache, but switching back to the old branch should still find the old cache
/// intact. One spare version covers that round trip, and each additional one costs real disk
/// (caches are routinely multiple GB). On CI it never keeps any other versions.
pub const MAX_OTHER_DB_VERSIONS: usize = 1;

/// Nanoseconds in a second.
pub const NANOS_PER_SEC: u128 = 1_000_000_000;

/// How long, in nanoseconds, a database with a version other than the current one is retained since
/// it was last used: 3 days. Beyond this it's unlikely to be switched back to, and the disk space
/// is better reclaimed.
///
/// Overridable via the environment variable [`VERSION_TTL_VAR`] (in seconds).
pub const DEFAULT_OTHER_DB_VERSION_TTL: u128 = 3 * 24 * 60 * 60 * 1_000_000_000;

/// The number that decimal digits denote.
pub open spec fn decimal_value(digits: Seq<char>) -> nat
    decreases digits.len(),
{
    if digits.len() == 0 {
        0
    } else {
        10 * decimal_value(digits.drop_last()) + ((digits.last() as int - '0' as int) as nat)
    }
}

/// Whether there is at least one character and each is a decimal digit.
pub open spec fn is_decimal(digits: Seq<char>) -> bool {
    digits.len() > 0 && forall|i: int|
        0 <= i < digits.len() ==> '0' <= #[trigger] digits[i] <= '9'
}

/// The whole number that `raw` denotes: an optional `+`, then only digits, no more than `u64::MAX`.
pub open spec fn whole_number(raw: Seq<char>) -> Option<u64> {
    let digits = if raw.len() > 0 && raw[0] == '+' {
        raw.drop_first()
    } else {
        raw
    };
    if is_decimal(digits) && decimal_value(digits) <= u64::MAX {
        Some(decimal_value(digits) as u64)
    } else {
        None
    }
}

/// More digits never denote a smaller number.
proof fn lemma_decimal_value_grows(digits: Seq<char>, n: int)
    requires
        is_decimal(digits),
        0 <= n <= digits.len(),
    ensures
        decimal_value(digits.take(n)) <= decimal_value(digits),
    decreases digits.len() - n,
{
    if n < digits.len() {
        let longer = digits.take(n + 1);
        assert(longer.drop_last() =~= digits.take(n));
        assert(longer.last() == digits[n]);
        lemma_decimal_value_grows(digits, n + 1);
    } else {
        assert(digits.take(n) =~= digits);
    }
}

/// A digit counts ten times as much for each digit that follows it.
pub proof fn law_digits_have_place_value(high: Seq<char>, low: Seq<char>, digit: char)
    requires
        '0' <= digit <= '9',
    ensures
        decimal_value(high.add(low)) == decimal_value(high) * vstd::arithmetic::power::pow(
            10,
            low.len(),
        ) + decimal_value(low),
        decimal_value(seq![digit]) == digit as int - 48,
        decimal_value(Seq::empty()) == 0,
    decreases low.len(),
{
    assert(seq![digit].drop_last() =~= Seq::empty());
    assert(decimal_value(Seq::empty()) == 0);
    let weight = vstd::arithmetic::power::pow(10, low.len());
    if low.len() == 0 {
        assert(high.add(low) =~= high);
        vstd::arithmetic::power::lemma_pow0(10);
        assert(decimal_value(high) * 1 == decimal_value(high));
    } else {
        let shorter = low.drop_last();
        let value = decimal_value(high);
        let rest = vstd::arithmetic::power::pow(10, shorter.len());
        law_digits_have_place_value(high, shorter, digit);
        assert(high.add(low).drop_last() =~= high.add(shorter));
        assert(weight == 10 * rest) by {
            reveal(vstd::arithmetic::power::pow);
        }
        assert(10 * (value * rest) == value * (10 * rest)) by (nonlinear_arith);
    }
}

/// The decimal digits of `number`, without leading zeros.
pub open spec fn decimal_digits(number: nat) -> Seq<char>
    decreases number,
{
    let last = (48 + number % 10) as char;
    if number < 10 {
        seq![last]
    } else {
        decimal_digits(number / 10).push(last)
    }
}

/// Every number can be written in digits that denote it.
proof fn lemma_digits_denote_their_number(number: nat)
    ensures
        is_decimal(decimal_digits(number)),
        decimal_value(decimal_digits(number)) == number,
    decreases number,
{
    let digits = decimal_digits(number);
    if number < 10 {
        assert(digits.drop_last() =~= Seq::empty());
        assert(decimal_value(Seq::empty()) == 0);
    } else {
        lemma_digits_denote_their_number(number / 10);
        assert(digits.drop_last() =~= decimal_digits(number / 10));
    }
}

/// Whether `raw` is made of decimal digits, at least one, behind at most one `+`.
pub open spec fn is_written_as(raw: Seq<char>, digits: Seq<char>) -> bool {
    &&& digits.len() > 0
    &&& forall|i: int| 0 <= i < digits.len() ==> '0' <= #[trigger] digits[i] <= '9'
    &&& raw == digits || raw == seq!['+'].add(digits)
}

/// A text denotes a whole number exactly when it is made of digits behind at most one `+` and the
/// number is no more than `u64::MAX`, and then it denotes that number. Each such number, written
/// out, is read back.
pub proof fn law_whole_numbers_are_read(raw: Seq<char>, digits: Seq<char>, number: u64)
    ensures
        is_written_as(raw, digits) ==> whole_number(raw) == (if decimal_value(digits) <= u64::MAX {
            Some(decimal_value(digits) as u64)
        } else {
            None
        }),
        whole_number(raw) is Some ==> exists|denoted: Seq<char>| #[trigger]
            is_written_as(raw, denoted),
        whole_number(decimal_digits(number as nat)) == Some(number),
        whole_number(seq!['+'].add(decimal_digits(number as nat))) == Some(number),
{
    if is_written_as(raw, digits) {
        if raw == seq!['+'].add(digits) {
            assert(raw.drop_first() =~= digits);
        }
        assert(raw == digits ==> raw[0] == digits[0]);
    }
    if whole_number(raw) is Some {
        if raw[0] == '+' {
            assert(raw =~= seq!['+'].add(raw.drop_first()));
            assert(is_written_as(raw, raw.drop_first()));
        } else {
            assert(is_written_as(raw, raw));
        }
    }
    let written = decimal_digits(number as nat);
    lemma_digits_denote_their_number(number as nat);
    assert('0' <= written[0] <= '9');
    assert(seq!['+'].add(written).drop_first() =~= written);
}

/// Reads a whole number: an optional `+`, then only ASCII digits, no more than `u64::MAX`.
pub fn parse_whole_number(raw: &str) -> (number: Option<u64>)
    ensures
        number == whole_number(raw@),
{
    if !raw.is_ascii() {
        proof {
            let i = choose|i: int| 0 <= i < raw@.len() && !('\0' <= #[trigger] raw@[i] <= '\u{7f}');
            if raw@.len() > 0 && raw@[0] == '+' {
                assert(raw@.drop_first()[i - 1] == raw@[i]);
            }
        }
        return None;
    }
    let bytes: &[u8] = raw.as_bytes();
    proof {
        vstd::string::is_ascii_spec_bytes(raw);
    }
    let first: usize = if bytes.len() > 0 && bytes[0] == 43 {
        1
    } else {
        0
    };
    let ghost digits = raw@.skip(first as int);
    proof {
        assert(raw@.skip(0) =~= raw@);
        assert(raw@.len() > 0 ==> raw@.skip(1) =~= raw@.drop_first());
        assert(digits.take(0) =~= Seq::empty());
    }
    let mut value: u64 = 0;
    let mut i: usize = first;
    while i < bytes.len()
        invariant
            first <= i <= bytes.len(),
            bytes@.len() == raw@.len(),
            digits == raw@.skip(first as int),
            forall|j: int| 0 <= j < raw@.len() ==> #[trigger] raw@[j] as int == bytes@[j] as int,
            whole_number(raw@) == (if is_decimal(digits) && decimal_value(digits) <= u64::MAX {
                Some(decimal_value(digits) as u64)
            } else {
                None
            }),
            forall|j: int| 0 <= j < i - first ==> '0' <= #[trigger] digits[j] <= '9',
            value == decimal_value(digits.take(i - first)),
        decreases bytes.len() - i,
    {
        let byte: u8 = bytes[i];
        proof {
            assert(digits[i - first] == raw@[i as int]);
        }
        if byte < 48 || byte > 57 {
            return None;
        }
        let digit: u64 = (byte - 48) as u64;
        proof {
            let longer = digits.take(i + 1 - first);
            assert(longer.drop_last() =~= digits.take(i - first));
            assert(longer.last() == digits[i - first]);
            assert(decimal_value(longer) == 10 * value + digit);
            if 10 * value + digit > u64::MAX && is_decimal(digits) {
                lemma_decimal_value_grows(digits, i + 1 - first);
            }
        }
        if value > (u64::MAX - digit) / 10 {
            return None;
        }
        value = 10 * value + digit;
        i = i + 1;
    }
    assert(digits.take(i - first) =~= digits);
    if first == bytes.len() {
        None
    } else {
        Some(value)
    }
}

/// How long a database with another version is retained under the override `raw`.
pub open spec fn other_version_ttl(raw: Option<&str>) -> u128 {
    match raw {
        Some(text) => match whole_number(text@) {
            Some(secs) => (secs * NANOS_PER_SEC) as u128,
            None => DEFAULT_OTHER_DB_VERSION_TTL,
        },
        None => DEFAULT_OTHER_DB_VERSION_TTL,
    }
}

/// Whether the override `raw` is set and can't be used.
pub open spec fn ttl_is_ignored(raw: Option<&str>) -> bool {
    raw matches Some(text) && whole_number(text@) is None
}

/// How long, in nanoseconds, to retain a database whose version isn't the current one, honoring the
/// override `raw` (in seconds). Falls back to [`DEFAULT_OTHER_DB_VERSION_TTL`] if the override is
/// unset or unparsable; also says whether it was unparsable.
pub fn other_db_version_ttl(raw: Option<&str>) -> (ttl: (u128, bool))
    ensures
        ttl.0 == other_version_ttl(raw),
        ttl.1 == ttl_is_ignored(raw),
        raw is None ==> ttl == (DEFAULT_OTHER_DB_VERSION_TTL, false),
        raw is Some && whole_number(raw->0@) is Some ==> ttl.0 == whole_number(raw->0@)->0
            * 1_000_000_000 && !ttl.1,
        raw is Some && whole_number(raw->0@) is None ==> ttl == (
            DEFAULT_OTHER_DB_VERSION_TTL,
            true,
        ),
{
    match raw {
        Some(text) => match parse_whole_number(text) {
            Some(secs) => (secs as u128 * NANOS_PER_SEC, false),
            None => (DEFAULT_OTHER_DB_VERSION_TTL, true),
        },
        None => (DEFAULT_OTHER_DB_VERSION_TTL, false),
    }
}

/// How much is kept of the databases with a version other than the current one.
#[derive(Clone, Copy, PartialEq, Eq, Structural, Debug)]
pub struct Retention {
    /// How many of them are kept at most.
    pub max_other_db_versions: usize,
    /// How long, in nanoseconds, they are kept since they were last used.
    pub ttl: u128,
}

/// How much is kept: nothing on CI.
pub open spec fn retention(is_ci: bool, ttl_override: Option<&str>) -> Retention {
    if is_ci {
        Retention { max_other_db_versions: 0, ttl: 0 }
    } else {
        Retention {
            max_other_db_versions: MAX_OTHER_DB_VERSIONS,
            ttl: other_version_ttl(ttl_override),
        }
    }
}

/// How much is kept, and whether the override of the time was unusable. On CI it is not looked at.
pub fn retention_for(is_ci: bool, ttl_override: Option<&str>) -> (kept: (Retention, bool))
    ensures
        kept.0 == retention(is_ci, ttl_override),
        kept.1 == (!is_ci && ttl_is_ignored(ttl_override)),
        is_ci ==> kept.0.max_other_db_versions == 0 && kept.0.ttl == 0 && !kept.1,
        !is_ci ==> kept.0.max_other_db_versions == MAX_OTHER_DB_VERSIONS && kept.0.ttl
            == other_version_ttl(ttl_override),
{
    if is_ci {
        (Retention { max_other_db_versions: 0, ttl: 0 }, false)
    } else {
        let (ttl, ignored) = other_db_version_ttl(ttl_override);
        (Retention { max_other_db_versions: MAX_OTHER_DB_VERSIONS, ttl }, ignored)
    }
}

/// An override that denotes a whole number of seconds sets the time to just that number of seconds,
/// be it long or short, and is not called unusable.
pub proof fn law_override_sets_the_time(text: &str, digits: Seq<char>)
    requires
        is_written_as(text@, digits),
        decimal_value(digits) <= u64::MAX,
    ensures
        other_version_ttl(Some(text)) == decimal_value(digits) * 1_000_000_000,
        retention(false, Some(text)).ttl == decimal_value(digits) * 1_000_000_000,
        !ttl_is_ignored(Some(text)),
{
    law_whole_numbers_are_read(text@, digits, 0);
}

/// A number of seconds that is written out without leading zeros sets the time to that number.
pub proof fn law_written_seconds_set_the_time(text: &str, seconds: u64)
    requires
        text@ == decimal_digits(seconds as nat),
    ensures
        other_version_ttl(Some(text)) == seconds * 1_000_000_000,
        retention(false, Some(text)).ttl == seconds * 1_000_000_000,
        !ttl_is_ignored(Some(text)),
{
    law_whole_numbers_are_read(text@, text@, seconds);
}

/// An override that denotes no whole number of seconds, or one that is more than `u64::MAX`, is
/// called unusable and leaves the time at 3 days. So it is, without a word, where there is none.
pub proof fn law_unusable_override_leaves_the_default(text: &str)
    requires
        forall|digits: Seq<char>| #[trigger]
            is_written_as(text@, digits) ==> decimal_value(digits) > u64::MAX,
    ensures
        other_version_ttl(Some(text)) == 259_200 * 1_000_000_000,
        retention(false, Some(text)).ttl == 259_200 * 1_000_000_000,
        ttl_is_ignored(Some(text)),
        other_version_ttl(None) == 259_200 * 1_000_000_000,
        retention(false, None).ttl == 259_200 * 1_000_000_000,
        !ttl_is_ignored(None),
{
    law_whole_numbers_are_read(text@, text@, 0);
    if whole_number(text@) is Some {
        let digits = choose|digits: Seq<char>| #[trigger] is_written_as(text@, digits);
        law_whole_numbers_are_read(text@, digits, 0);
    }
}

/// Outside CI exactly one other database may be kept, whatever the override. On CI none may, for no
/// time at all, and the override makes no difference.
pub proof fn law_only_ci_keeps_nothing(ttl_override: Option<&str>)
    ensures
        retention(false, ttl_override).max_other_db_versions == 1,
        retention(true, ttl_override).max_other_db_versions == 0,
        retention(true, ttl_override).ttl == 0,
{
}

/// At most [`MAX_OTHER_DB_VERSIONS`] databases are kept and none on CI, and no override reaches the
/// longest time span, which stands for an unknown age.
pub proof fn law_retention_is_bounded(is_ci: bool, ttl_override: Option<&str>)
    ensures
        retention(is_ci, ttl_override).max_other_db_versions <= MAX_OTHER_DB_VERSIONS,
        is_ci ==> retention(is_ci, ttl_override).max_other_db_versions == 0,
        retention(is_ci, ttl_override).ttl < MAX_AGE,
{
}

} // verus!
