//! Keeping the geolocation databases: where they are, what a sync asks for and
//! how a download is written.

use crate::providers::parsers::utf8_string;
use crate::text::{
    chars_of, contains, copy_str, decimal, holds, parse_number, push_decimal, read_number, trim_str,
    trimmed,
};
use vstd::prelude::*;
use vstd::slice::slice_to_vec;
use vstd::utf8::*;

verus! {

/// Where the city database is published.
pub const GEOLITE_ENDPOINT_URL: &'static str = "https://raw.githubusercontent.com/P3TERX/GeoLite.mmdb/download/GeoLite2-City.mmdb";

/// Where the ASN database is published.
pub const GEOLITE_ASN_ENDPOINT_URL: &'static str = "https://raw.githubusercontent.com/P3TERX/GeoLite.mmdb/download/GeoLite2-ASN.mmdb";

/// The file of the city database.
pub const CITY_DATABASE: &'static str = "geolite2-city.mmdb";

/// The file of the ASN database.
pub const ASN_DATABASE: &'static str = "geolite2-asn.mmdb";

/// Bytes that a database may have.
pub const MAX_DATABASE_SIZE: usize = 134_217_728;

/// Milliseconds that a download may take.
pub const DATABASE_DOWNLOAD_TIMEOUT: u64 = 120_000;

/// Milliseconds that reaching the mirror may take.
pub const GEOLITE_CONNECT_TIMEOUT: u64 = 20_000;

/// Milliseconds that another instance's lock is waited for.
pub const LOCK_TIMEOUT: u64 = 5_000;

/// The moment until which the mirror has to answer: reaching it is bounded
/// apart from the body, so a mirror that cannot be reached fails fast.
pub fn request_deadline(deadline: u64, now: u64) -> (r: u64)
    requires
        now + GEOLITE_CONNECT_TIMEOUT <= u64::MAX,
    ensures
        r <= deadline,
        r <= now + GEOLITE_CONNECT_TIMEOUT,
        r == deadline || r == now + GEOLITE_CONNECT_TIMEOUT,
{
    if deadline <= now + GEOLITE_CONNECT_TIMEOUT {
        deadline
    } else {
        now + GEOLITE_CONNECT_TIMEOUT
    }
}

// ---------------------------------------------------------------------------
// Files
// ---------------------------------------------------------------------------

/// The name of a file, or the city database's where it has none that is text.
pub open spec fn named(file_name: Option<&str>) -> Seq<char> {
    match file_name {
        Some(n) => n@,
        None => CITY_DATABASE@,
    }
}

fn name_or_default(file_name: Option<&str>) -> (s: String)
    ensures
        s@ == named(file_name),
{
    match file_name {
        Some(n) => copy_str(n),
        None => copy_str(CITY_DATABASE),
    }
}

/// The file beside a file that a download is written to before it is installed.
pub fn temporary_path(file_name: Option<&str>) -> (s: String)
    ensures
        s@ == "."@ + named(file_name) + ".part"@,
{
    let mut s = ".".to_owned();
    s.append(name_or_default(file_name).as_str());
    s.append(".part");
    s
}

/// The file beside a file that keeps other instances from writing it.
pub fn lock_path(file_name: Option<&str>) -> (s: String)
    ensures
        s@ == "."@ + named(file_name) + ".lock"@,
{
    let mut s = ".".to_owned();
    s.append(name_or_default(file_name).as_str());
    s.append(".lock");
    s
}

/// The file beside a database that holds the revision it was synced to.
pub fn sync_marker_path(file_name: Option<&str>) -> (s: String)
    ensures
        s@ == named(file_name) + ".etag"@,
{
    let mut s = name_or_default(file_name);
    s.append(".etag");
    s
}

/// The files beside a file never take its own name, nor each other's.
pub proof fn files_beside_differ(name: Seq<char>)
    ensures
        "."@ + name + ".part"@ != name,
        "."@ + name + ".lock"@ != name,
        name + ".etag"@ != name,
        "."@ + name + ".part"@ != "."@ + name + ".lock"@,
        "."@ + name + ".part"@ != name + ".etag"@,
        "."@ + name + ".lock"@ != name + ".etag"@,
{
    reveal_strlit(".");
    reveal_strlit(".part");
    reveal_strlit(".lock");
    reveal_strlit(".etag");
    let part = "."@ + name + ".part"@;
    let lock = "."@ + name + ".lock"@;
    assert(part.len() == name.len() + 6);
    assert(lock.len() == name.len() + 6);
    assert((name + ".etag"@).len() == name.len() + 5);
    assert(part[name.len() as int + 2] == 'p');
    assert(lock[name.len() as int + 2] == 'l');
}

/// The database that an address publishes.
pub open spec fn published(url: Seq<char>) -> Seq<char> {
    if holds(url, "ASN"@) {
        "GeoLite2-ASN.mmdb"@
    } else {
        "GeoLite2-City.mmdb"@
    }
}

/// The database that an address publishes.
pub fn database_name(url: &str) -> (s: &'static str)
    ensures
        s@ == published(url@),
{
    let cs = chars_of(url);
    if contains(cs.as_slice(), "ASN") {
        "GeoLite2-ASN.mmdb"
    } else {
        "GeoLite2-City.mmdb"
    }
}

/// Whether a database that an older release left moves in, and whether its
/// marker moves along.
pub open spec fn moving_in(
    new_exists: bool,
    legacy_exists: bool,
    marker_exists: bool,
    legacy_marker_exists: bool,
) -> (bool, bool) {
    let moves = legacy_exists && !new_exists;
    (moves, moves && legacy_marker_exists && !marker_exists)
}

/// What becomes of a database that an older release left beside the data
/// directory: whether it moves in, and whether its marker moves along.
pub fn migrate_legacy_database(
    new_exists: bool,
    legacy_exists: bool,
    marker_exists: bool,
    legacy_marker_exists: bool,
) -> (r: (bool, bool))
    ensures
        r.0 == (!new_exists && legacy_exists),
        r.1 == (r.0 && !marker_exists && legacy_marker_exists),
        r == moving_in(new_exists, legacy_exists, marker_exists, legacy_marker_exists),
{
    let moves = !new_exists && legacy_exists;
    (moves, moves && !marker_exists && legacy_marker_exists)
}

/// The revision that a marker's bytes hold.
pub open spec fn marked(content: Seq<u8>) -> Option<Seq<char>> {
    if valid_utf8(content) && trimmed(decode_utf8(content)).len() > 0 {
        Some(trimmed(decode_utf8(content)))
    } else {
        None
    }
}

/// The revision that a marker's bytes hold.
pub fn read_synced_etag(content: &[u8]) -> (r: Option<String>)
    ensures
        match r {
            Some(t) => marked(content@) == Some(t@),
            None => marked(content@) is None,
        },
{
    match utf8_string(slice_to_vec(content)) {
        Some(text) => {
            let t = trim_str(text.as_str());
            if chars_of(t.as_str()).len() > 0 {
                Some(t)
            } else {
                None
            }
        },
        None => None,
    }
}

/// A revision that was written is read back, where it holds something and no
/// white space around it.
pub proof fn marker_reads_back(etag: Seq<char>)
    requires
        etag.len() > 0,
        trimmed(etag) == etag,
    ensures
        marked(encode_utf8(etag)) == Some(etag),
{
    encode_utf8_valid_utf8(etag);
    encode_utf8_decode_utf8(etag);
}

// ---------------------------------------------------------------------------
// Progress
// ---------------------------------------------------------------------------

/// Snapshot of a database download under way.
#[derive(Clone, Copy, Debug)]
pub struct DownloadProgress {
    pub name: &'static str,
    pub downloaded: usize,
    /// Bytes that were announced, or zero where none were.
    pub total: usize,
}

/// The first event of a download, which is told before the request is made, so
/// that observers see it while the mirror is being reached.
pub fn begin_download(name: &'static str) -> (p: DownloadProgress)
    ensures
        p.name@ == name@,
        p.downloaded == 0,
        p.total == 0,
{
    DownloadProgress { name, downloaded: 0, total: 0 }
}

impl DownloadProgress {
    /// The event after one more chunk.
    pub fn report_download(self, chunk: usize) -> (p: DownloadProgress)
        ensures
            p.name@ == self.name@,
            p.total == self.total,
            p.downloaded == (if self.downloaded + chunk <= usize::MAX {
                self.downloaded + chunk
            } else {
                usize::MAX as int
            }),
    {
        DownloadProgress { downloaded: self.downloaded.saturating_add(chunk), ..self }
    }
}

// ---------------------------------------------------------------------------
// Sync
// ---------------------------------------------------------------------------

/// Result of a sync against the mirror.
#[derive(Clone, Copy, Debug, PartialEq, Eq, Structural)]
pub enum SyncOutcome {
    /// The local database is up to date.
    UpToDate,
    /// A newer database was downloaded.
    Synced,
}

/// Result of a sync of both databases.
pub fn sync_database(city: SyncOutcome, asn: SyncOutcome) -> (r: SyncOutcome)
    ensures
        r == SyncOutcome::UpToDate <==> city == SyncOutcome::UpToDate && asn
            == SyncOutcome::UpToDate,
{
    if city == SyncOutcome::UpToDate && asn == SyncOutcome::UpToDate {
        SyncOutcome::UpToDate
    } else {
        SyncOutcome::Synced
    }
}

/// The revision that the mirror is asked to compare with. A missing or corrupt
/// copy always needs the full body.
pub fn condition(db_valid: bool, stored_etag: Option<String>) -> (r: Option<String>)
    ensures
        r == (if db_valid {
            stored_etag
        } else {
            None
        }),
{
    if db_valid {
        stored_etag
    } else {
        None
    }
}

/// What a response of the mirror comes to.
#[derive(Clone, Copy, Debug, PartialEq, Eq, Structural)]
pub enum SyncReply {
    /// The local copy is what the mirror has.
    Unchanged,
    /// The body is to be installed; so many bytes were announced, or none.
    Install(usize),
    /// The status says that there is no database.
    Refused(u16),
    /// More bytes were announced than a database may have.
    TooLarge,
}

/// The length that a header announces.
pub open spec fn announced(content_length: Option<Seq<char>>) -> Option<nat> {
    match content_length {
        Some(t) => read_number(t, usize::MAX as nat),
        None => None,
    }
}

/// What a response comes to whose body is wanted.
pub open spec fn installable(status: int, content_length: Option<Seq<char>>) -> SyncReply {
    let length = announced(content_length);
    if !(200 <= status < 300) {
        SyncReply::Refused(status as u16)
    } else if length is Some && length->0 > MAX_DATABASE_SIZE {
        SyncReply::TooLarge
    } else {
        SyncReply::Install(
            match length {
                Some(n) => n as usize,
                None => 0,
            },
        )
    }
}

/// What a response comes to whose body is wanted.
pub fn install_response(status: u16, content_length: Option<&str>) -> (r: SyncReply)
    ensures
        r == installable(
            status as int,
            match content_length {
                Some(t) => Some(t@),
                None => None,
            },
        ),
{
    if status < 200 || status >= 300 {
        return SyncReply::Refused(status);
    }
    let length: Option<u64> = match content_length {
        Some(t) => parse_number(chars_of(t).as_slice(), usize::MAX as u64),
        None => None,
    };
    match length {
        Some(n) => if n as usize > MAX_DATABASE_SIZE {
            SyncReply::TooLarge
        } else {
            SyncReply::Install(n as usize)
        },
        None => SyncReply::Install(0),
    }
}

/// What a response to a sync comes to.
pub fn sync_one(status: u16, content_length: Option<&str>) -> (r: SyncReply)
    ensures
        r == (if status == 304 {
            SyncReply::Unchanged
        } else {
            installable(
                status as int,
                match content_length {
                    Some(t) => Some(t@),
                    None => None,
                },
            )
        }),
{
    if status == 304 {
        SyncReply::Unchanged
    } else {
        install_response(status, content_length)
    }
}

// ---------------------------------------------------------------------------
// Writing a download
// ---------------------------------------------------------------------------

/// Why a download is not installed.
#[derive(Clone, Copy, Debug, PartialEq, Eq, Structural)]
pub enum DownloadError {
    /// The file that the download is written to cannot be made.
    Create,
    /// The body did not arrive in time.
    TimedOut,
    /// The body broke off.
    Interrupted,
    /// The size cannot be counted any more.
    SizeOverflow,
    /// The body is larger than a database may be.
    TooLarge,
    Write,
    Flush,
    /// What arrived is no database.
    Invalid,
    Install,
}

/// Where a download is. Each step says what is to be done next.
#[derive(Clone, Copy, Debug, PartialEq, Eq, Structural)]
pub enum DownloadStep {
    /// Make the temporary file anew.
    Create,
    /// Wait for a chunk, with so many bytes received.
    Receive(usize),
    /// Write the chunk, with so many bytes received.
    Write(usize),
    /// Flush the temporary file to disk.
    Flush(usize),
    /// Open the temporary file as a database.
    Validate(usize),
    /// Rename the temporary file to the database.
    Install(usize),
    /// The database is installed.
    Done(usize),
    /// Remove the temporary file.
    CleanUp(DownloadError),
    /// Nothing was installed and no temporary file is left.
    Failed(DownloadError),
    /// Nothing was installed and the temporary file could not be removed.
    Leftover(DownloadError),
}

/// What came of a step.
#[derive(Clone, Copy, Debug, PartialEq, Eq, Structural)]
pub enum DownloadEvent {
    /// The step succeeded; of waiting for a chunk, that the body ended.
    Succeeded,
    Failed,
    /// A chunk of so many bytes arrived.
    Chunk(usize),
    TimedOut,
}

/// What follows a chunk.
pub open spec fn received(downloaded: int, chunk: int, max_size: int) -> DownloadStep {
    if downloaded + chunk > usize::MAX {
        DownloadStep::CleanUp(DownloadError::SizeOverflow)
    } else if downloaded + chunk > max_size {
        DownloadStep::CleanUp(DownloadError::TooLarge)
    } else {
        DownloadStep::Write((downloaded + chunk) as usize)
    }
}

/// What follows a step.
pub open spec fn following(step: DownloadStep, event: DownloadEvent, max_size: int) -> DownloadStep {
    let ok = event == DownloadEvent::Succeeded;
    match step {
        DownloadStep::Create => if ok {
            DownloadStep::Receive(0)
        } else {
            DownloadStep::CleanUp(DownloadError::Create)
        },
        DownloadStep::Receive(n) => match event {
            DownloadEvent::Chunk(len) => received(n as int, len as int, max_size),
            DownloadEvent::Succeeded => DownloadStep::Flush(n),
            DownloadEvent::Failed => DownloadStep::CleanUp(DownloadError::Interrupted),
            DownloadEvent::TimedOut => DownloadStep::CleanUp(DownloadError::TimedOut),
        },
        DownloadStep::Write(n) => if ok {
            DownloadStep::Receive(n)
        } else {
            DownloadStep::CleanUp(DownloadError::Write)
        },
        DownloadStep::Flush(n) => if ok {
            DownloadStep::Validate(n)
        } else {
            DownloadStep::CleanUp(DownloadError::Flush)
        },
        DownloadStep::Validate(n) => if ok {
            DownloadStep::Install(n)
        } else {
            DownloadStep::CleanUp(DownloadError::Invalid)
        },
        DownloadStep::Install(n) => if ok {
            DownloadStep::Done(n)
        } else {
            DownloadStep::CleanUp(DownloadError::Install)
        },
        DownloadStep::CleanUp(e) => if ok {
            DownloadStep::Failed(e)
        } else {
            DownloadStep::Leftover(e)
        },
        DownloadStep::Done(n) => DownloadStep::Done(n),
        DownloadStep::Failed(e) => DownloadStep::Failed(e),
        DownloadStep::Leftover(e) => DownloadStep::Leftover(e),
    }
}

/// What follows a step of a download. A temporary file that is not there
/// counts as removed.
pub fn write_database_chunks(step: DownloadStep, event: DownloadEvent, max_size: usize) -> (r:
    DownloadStep)
    ensures
        r == following(step, event, max_size as int),
{
    let ok = event == DownloadEvent::Succeeded;
    match step {
        DownloadStep::Create => if ok {
            DownloadStep::Receive(0)
        } else {
            DownloadStep::CleanUp(DownloadError::Create)
        },
        DownloadStep::Receive(n) => match event {
            DownloadEvent::Chunk(len) => match n.checked_add(len) {
                None => DownloadStep::CleanUp(DownloadError::SizeOverflow),
                Some(total) => if total > max_size {
                    DownloadStep::CleanUp(DownloadError::TooLarge)
                } else {
                    DownloadStep::Write(total)
                },
            },
            DownloadEvent::Succeeded => DownloadStep::Flush(n),
            DownloadEvent::Failed => DownloadStep::CleanUp(DownloadError::Interrupted),
            DownloadEvent::TimedOut => DownloadStep::CleanUp(DownloadError::TimedOut),
        },
        DownloadStep::Write(n) => if ok {
            DownloadStep::Receive(n)
        } else {
            DownloadStep::CleanUp(DownloadError::Write)
        },
        DownloadStep::Flush(n) => if ok {
            DownloadStep::Validate(n)
        } else {
            DownloadStep::CleanUp(DownloadError::Flush)
        },
        DownloadStep::Validate(n) => if ok {
            DownloadStep::Install(n)
        } else {
            DownloadStep::CleanUp(DownloadError::Invalid)
        },
        DownloadStep::Install(n) => if ok {
            DownloadStep::Done(n)
        } else {
            DownloadStep::CleanUp(DownloadError::Install)
        },
        DownloadStep::CleanUp(e) => if ok {
            DownloadStep::Failed(e)
        } else {
            DownloadStep::Leftover(e)
        },
        DownloadStep::Done(n) => DownloadStep::Done(n),
        DownloadStep::Failed(e) => DownloadStep::Failed(e),
        DownloadStep::Leftover(e) => DownloadStep::Leftover(e),
    }
}

/// Where a download is after some events, from the first on.
pub open spec fn after(events: Seq<DownloadEvent>, max_size: int) -> DownloadStep
    decreases events.len(),
{
    if events.len() == 0 {
        DownloadStep::Create
    } else {
        following(after(events.drop_last(), max_size), events.last(), max_size)
    }
}

/// The bytes that a step counts.
pub open spec fn counted(step: DownloadStep) -> int {
    match step {
        DownloadStep::Receive(n) => n as int,
        DownloadStep::Write(n) => n as int,
        DownloadStep::Flush(n) => n as int,
        DownloadStep::Validate(n) => n as int,
        DownloadStep::Install(n) => n as int,
        DownloadStep::Done(n) => n as int,
        _ => 0,
    }
}

/// No more bytes are kept than a database may have, whatever arrives; so none
/// that is larger is ever installed.
pub proof fn downloads_are_bounded(events: Seq<DownloadEvent>, max_size: int)
    requires
        max_size >= 0,
    ensures
        counted(after(events, max_size)) <= max_size,
    decreases events.len(),
{
    if events.len() > 0 {
        downloads_are_bounded(events.drop_last(), max_size);
    }
}

/// A database is only installed once it was opened as one: the step before the
/// rename is the check that succeeded, and the step before the end is the
/// rename.
pub proof fn only_valid_databases_are_installed(step: DownloadStep, event: DownloadEvent, max_size: int)
    ensures
        following(step, event, max_size) is Install ==> step is Validate && event
            == DownloadEvent::Succeeded,
        following(step, event, max_size) is Done && !(step is Done) ==> step is Install && event
            == DownloadEvent::Succeeded,
{
}

/// No failure leaves the temporary file behind unasked: a download only ends
/// in failure after its removal was tried.
pub proof fn failures_clean_up(step: DownloadStep, event: DownloadEvent, max_size: int)
    requires
        !(step is Failed),
        !(step is Leftover),
        following(step, event, max_size) is Failed || following(step, event, max_size) is Leftover,
    ensures
        step is CleanUp,
{
}

impl DownloadError {
    /// What an error says.
    pub open spec fn text(
        self,
        temporary: Seq<char>,
        database: Seq<char>,
        max_size: int,
    ) -> Seq<char> {
        match self {
            DownloadError::Create => "failed to create "@ + temporary,
            DownloadError::TimedOut => "GeoLite2 download body timed out"@,
            DownloadError::Interrupted => "GeoLite2 download stream interrupted"@,
            DownloadError::SizeOverflow => "GeoLite2 database size overflow"@,
            DownloadError::TooLarge => "GeoLite2 database exceeds maximum size of "@ + decimal(
                max_size as nat,
            ) + " bytes"@,
            DownloadError::Write => "failed to write to "@ + temporary,
            DownloadError::Flush => "failed to flush "@ + temporary,
            DownloadError::Invalid => "downloaded GeoLite2 file is not a valid MMDB database"@,
            DownloadError::Install => "failed to atomically install "@ + temporary + " as "@
                + database,
        }
    }

    /// What the error says, with the files it is about.
    pub fn to_text(self, temporary: &str, database: &str, max_size: usize) -> (s: String)
        ensures
            s@ == self.text(temporary@, database@, max_size as int),
    {
        match self {
            DownloadError::Create => {
                let mut s = "failed to create ".to_owned();
                s.append(temporary);
                s
            },
            DownloadError::TimedOut => "GeoLite2 download body timed out".to_owned(),
            DownloadError::Interrupted => "GeoLite2 download stream interrupted".to_owned(),
            DownloadError::SizeOverflow => "GeoLite2 database size overflow".to_owned(),
            DownloadError::TooLarge => {
                let mut s = "GeoLite2 database exceeds maximum size of ".to_owned();
                push_decimal(&mut s, max_size as u64);
                s.append(" bytes");
                s
            },
            DownloadError::Write => {
                let mut s = "failed to write to ".to_owned();
                s.append(temporary);
                s
            },
            DownloadError::Flush => {
                let mut s = "failed to flush ".to_owned();
                s.append(temporary);
                s
            },
            DownloadError::Invalid =>
                "downloaded GeoLite2 file is not a valid MMDB database".to_owned(),
            DownloadError::Install => {
                let mut s = "failed to atomically install ".to_owned();
                s.append(temporary);
                s.append(" as ");
                s.append(database);
                s
            },
        }
    }
}

// ---------------------------------------------------------------------------
// Opening a database
// ---------------------------------------------------------------------------

/// What is done to have a database open.
#[derive(Clone, Copy, Debug, PartialEq, Eq, Structural)]
pub enum EnsureStep {
    Download,
    Open,
    /// Remove the file, which is corrupt or cut off, so that the next run
    /// downloads it.
    Remove,
    Ready,
    /// The download failed.
    NotDownloaded,
    /// The file could not be opened.
    NotOpened,
}

/// What is done first to have a database open.
pub open spec fn opening_step(exists_already: bool) -> EnsureStep {
    if exists_already {
        EnsureStep::Open
    } else {
        EnsureStep::Download
    }
}

/// What is done first to have a database open.
pub fn first_step(exists_already: bool) -> (r: EnsureStep)
    ensures
        r == (if exists_already {
            EnsureStep::Open
        } else {
            EnsureStep::Download
        }),
        r == opening_step(exists_already),
{
    if exists_already {
        EnsureStep::Open
    } else {
        EnsureStep::Download
    }
}

/// What is done after a step, which succeeded or not.
pub open spec fn step_behind(step: EnsureStep, succeeded: bool) -> EnsureStep {
    match step {
        EnsureStep::Download => if succeeded {
            EnsureStep::Open
        } else {
            EnsureStep::NotDownloaded
        },
        EnsureStep::Open => if succeeded {
            EnsureStep::Ready
        } else {
            EnsureStep::Remove
        },
        EnsureStep::Remove => EnsureStep::NotOpened,
        other => other,
    }
}

/// What is done after a step, which succeeded or not. Whether a corrupt file
/// could be removed changes nothing.
pub fn ensure_database(step: EnsureStep, succeeded: bool) -> (r: EnsureStep)
    ensures
        r == (match step {
            EnsureStep::Download => if succeeded {
                EnsureStep::Open
            } else {
                EnsureStep::NotDownloaded
            },
            EnsureStep::Open => if succeeded {
                EnsureStep::Ready
            } else {
                EnsureStep::Remove
            },
            EnsureStep::Remove => EnsureStep::NotOpened,
            other => other,
        }),
        r == step_behind(step, succeeded),
{
    match step {
        EnsureStep::Download => if succeeded {
            EnsureStep::Open
        } else {
            EnsureStep::NotDownloaded
        },
        EnsureStep::Open => if succeeded {
            EnsureStep::Ready
        } else {
            EnsureStep::Remove
        },
        EnsureStep::Remove => EnsureStep::NotOpened,
        other => other,
    }
}

/// A response is installed where it succeeded and does not announce more than
/// 128 mebibytes; every other status is refused as it is.
pub proof fn responses_are_installed(status: int, length: Option<Seq<char>>)
    requires
        0 <= status <= u16::MAX,
    ensures
        status / 100 != 2 ==> installable(status, length) == SyncReply::Refused(status as u16),
        status / 100 == 2 && announced(length) is None ==> installable(status, length)
            == SyncReply::Install(0),
        status / 100 == 2 && announced(length) is Some && announced(length)->0 <= 128 * 1024 * 1024
            ==> installable(status, length) == SyncReply::Install(announced(length)->0 as usize),
        status / 100 == 2 && announced(length) is Some && announced(length)->0 > 128 * 1024 * 1024
            ==> installable(status, length) == SyncReply::TooLarge,
{
}

/// A download that goes well is received chunk by chunk, flushed, validated and
/// installed, with every byte counted.
pub proof fn downloads_go_their_way(n: usize, chunk: usize, max_size: usize)
    ensures
        following(DownloadStep::Create, DownloadEvent::Succeeded, max_size as int)
            == DownloadStep::Receive(0),
        n + chunk <= max_size ==> following(
            DownloadStep::Receive(n),
            DownloadEvent::Chunk(chunk),
            max_size as int,
        ) == DownloadStep::Write((n + chunk) as usize),
        following(DownloadStep::Write(n), DownloadEvent::Succeeded, max_size as int)
            == DownloadStep::Receive(n),
        following(DownloadStep::Receive(n), DownloadEvent::Succeeded, max_size as int)
            == DownloadStep::Flush(n),
        following(DownloadStep::Flush(n), DownloadEvent::Succeeded, max_size as int)
            == DownloadStep::Validate(n),
        following(DownloadStep::Validate(n), DownloadEvent::Succeeded, max_size as int)
            == DownloadStep::Install(n),
        following(DownloadStep::Install(n), DownloadEvent::Succeeded, max_size as int)
            == DownloadStep::Done(n),
{
}

/// A step that fails is named by its failure, and what was written is removed
/// first; a download that grows too large is given up.
pub proof fn downloads_fail_by_their_step(n: usize, chunk: usize, e: DownloadError, max_size: usize)
    ensures
        following(DownloadStep::Create, DownloadEvent::Failed, max_size as int)
            == DownloadStep::CleanUp(DownloadError::Create),
        max_size < n + chunk <= usize::MAX ==> following(
            DownloadStep::Receive(n),
            DownloadEvent::Chunk(chunk),
            max_size as int,
        ) == DownloadStep::CleanUp(DownloadError::TooLarge),
        n + chunk > usize::MAX ==> following(
            DownloadStep::Receive(n),
            DownloadEvent::Chunk(chunk),
            max_size as int,
        ) == DownloadStep::CleanUp(DownloadError::SizeOverflow),
        following(DownloadStep::Receive(n), DownloadEvent::Failed, max_size as int)
            == DownloadStep::CleanUp(DownloadError::Interrupted),
        following(DownloadStep::Receive(n), DownloadEvent::TimedOut, max_size as int)
            == DownloadStep::CleanUp(DownloadError::TimedOut),
        following(DownloadStep::Write(n), DownloadEvent::Failed, max_size as int)
            == DownloadStep::CleanUp(DownloadError::Write),
        following(DownloadStep::Flush(n), DownloadEvent::Failed, max_size as int)
            == DownloadStep::CleanUp(DownloadError::Flush),
        following(DownloadStep::Validate(n), DownloadEvent::Failed, max_size as int)
            == DownloadStep::CleanUp(DownloadError::Invalid),
        following(DownloadStep::Install(n), DownloadEvent::Failed, max_size as int)
            == DownloadStep::CleanUp(DownloadError::Install),
        following(DownloadStep::CleanUp(e), DownloadEvent::Succeeded, max_size as int)
            == DownloadStep::Failed(e),
        following(DownloadStep::CleanUp(e), DownloadEvent::Failed, max_size as int)
            == DownloadStep::Leftover(e),
{
}

/// An address that names the networks publishes their database; any other one
/// the places.
pub proof fn addresses_publish_their_database(a: Seq<char>, b: Seq<char>)
    ensures
        published(a + "ASN"@ + b) == "GeoLite2-ASN.mmdb"@,
        !holds(a, "ASN"@) ==> published(a) == "GeoLite2-City.mmdb"@,
{
    let s = a + "ASN"@ + b;
    let n = a.len() as int;
    reveal_strlit("ASN");
    assert(s.subrange(n, n + 3) =~= "ASN"@);
    assert(crate::text::occurs_at(s, "ASN"@, n));
}

/// A database that is there is opened without a download, and one that is not is
/// downloaded first; a file that does not open is removed, and the failure is
/// told whether or not that succeeds.
pub proof fn databases_are_opened(removed: bool, succeeded: bool)
    ensures
        step_behind(opening_step(true), true) is Ready,
        step_behind(step_behind(opening_step(false), true), true) is Ready,
        step_behind(opening_step(false), false) is NotDownloaded,
        step_behind(step_behind(opening_step(true), false), removed) is NotOpened,
        step_behind(EnsureStep::Ready, succeeded) is Ready,
        step_behind(EnsureStep::NotOpened, succeeded) is NotOpened,
        step_behind(EnsureStep::NotDownloaded, succeeded) is NotDownloaded,
{
}

/// An old database never takes the place of a new one, and an old marker never
/// that of a new one nor comes without its database.
pub proof fn old_files_replace_nothing(legacy: bool, marker: bool, legacy_marker: bool)
    ensures
        moving_in(true, legacy, marker, legacy_marker) == (false, false),
        moving_in(false, true, marker, legacy_marker).0,
        !moving_in(false, false, marker, legacy_marker).0,
        !moving_in(false, legacy, true, legacy_marker).1,
        moving_in(false, true, false, true) == (true, true),
        !moving_in(false, legacy, marker, false).1,
{
}

/// How long a download and its parts may take, and where they come from and go
/// to.
pub proof fn limits_of_a_download()
    ensures
        MAX_DATABASE_SIZE == 128 * 1024 * 1024,
        DATABASE_DOWNLOAD_TIMEOUT == 120_000,
        GEOLITE_CONNECT_TIMEOUT == 20_000,
        LOCK_TIMEOUT == 5_000,
        CITY_DATABASE@ == "geolite2-city.mmdb"@,
        ASN_DATABASE@ == "geolite2-asn.mmdb"@,
{
}

} // verus!
