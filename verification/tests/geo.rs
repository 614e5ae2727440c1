//! The geolocation databases: lookups, syncs and downloads.

use flx::geolookup::database::{
    begin_download, condition, database_name, ensure_database, first_step, install_response,
    lock_path, migrate_legacy_database, read_synced_etag, request_deadline, sync_database,
    sync_marker_path, sync_one, temporary_path, write_database_chunks, DownloadError,
    DownloadEvent, DownloadStep, EnsureStep, SyncOutcome, SyncReply, GEOLITE_ASN_ENDPOINT_URL,
    GEOLITE_ENDPOINT_URL, MAX_DATABASE_SIZE,
};
use flx::geolookup::ip_type::IpType;
use flx::geolookup::lookup::{locate, AsnRecord, CityRecord, GeoError, GeoLookup};
use flx::net::Ipv4Addr;

fn ip(a: u8, b: u8, c: u8, d: u8) -> Ipv4Addr {
    Ipv4Addr { a, b, c, d }
}

// ---- a database of one node ---------------------------------------------

fn string(out: &mut Vec<u8>, s: &str) {
    assert!(s.len() < 29);
    out.push(0x40 | s.len() as u8);
    out.extend_from_slice(s.as_bytes());
}

fn map(out: &mut Vec<u8>, entries: usize) {
    out.push(0xe0 | entries as u8);
}

fn array(out: &mut Vec<u8>, items: usize) {
    out.push(items as u8);
    out.push(4);
}

fn short(out: &mut Vec<u8>, n: u16) {
    out.push(0xa2);
    out.extend_from_slice(&n.to_be_bytes());
}

fn long(out: &mut Vec<u8>, n: u32) {
    out.push(0xc4);
    out.extend_from_slice(&n.to_be_bytes());
}

/// A database that knows the lower half of all addresses.
fn database(kind: &str, record: &[u8]) -> Vec<u8> {
    let mut out = vec![0, 0, 17, 0, 0, 1];
    out.extend_from_slice(&[0; 16]);
    out.extend_from_slice(record);
    out.extend_from_slice(b"\xab\xcd\xefMaxMind.com");
    map(&mut out, 9);
    string(&mut out, "binary_format_major_version");
    short(&mut out, 2);
    string(&mut out, "binary_format_minor_version");
    short(&mut out, 0);
    string(&mut out, "build_epoch");
    out.extend_from_slice(&[1, 2, 1]);
    string(&mut out, "database_type");
    string(&mut out, kind);
    string(&mut out, "description");
    map(&mut out, 0);
    string(&mut out, "ip_version");
    short(&mut out, 4);
    string(&mut out, "languages");
    array(&mut out, 0);
    string(&mut out, "node_count");
    long(&mut out, 1);
    string(&mut out, "record_size");
    short(&mut out, 24);
    out
}

fn named(out: &mut Vec<u8>, name: &str) {
    string(out, "names");
    map(out, 1);
    string(out, "en");
    string(out, name);
}

fn city_database() -> Vec<u8> {
    let mut record = Vec::new();
    map(&mut record, 4);
    string(&mut record, "city");
    map(&mut record, 1);
    named(&mut record, "Jakarta");
    string(&mut record, "continent");
    map(&mut record, 2);
    string(&mut record, "code");
    string(&mut record, "AS");
    named(&mut record, "Asia");
    string(&mut record, "country");
    map(&mut record, 2);
    string(&mut record, "iso_code");
    string(&mut record, "ID");
    named(&mut record, "Indonesia");
    string(&mut record, "subdivisions");
    array(&mut record, 1);
    map(&mut record, 2);
    string(&mut record, "iso_code");
    string(&mut record, "JK");
    named(&mut record, "Jakarta Raya");
    database("GeoLite2-City", &record)
}

fn asn_database() -> Vec<u8> {
    let mut record = Vec::new();
    map(&mut record, 2);
    string(&mut record, "autonomous_system_number");
    long(&mut record, 24940);
    record.push(0x5d);
    record.push(30 - 29);
    record.extend_from_slice(b"autonomous_system_organization");
    string(&mut record, "Hetzner Online GmbH");
    database("GeoLite2-ASN", &record)
}

#[test]
fn a_known_address_is_located() {
    let geo = GeoLookup::new(city_database(), Some(asn_database())).ok().unwrap();
    let found = geo.lookup(ip(1, 2, 3, 4));
    assert_eq!(found.iso_code.as_deref(), Some("ID"));
    assert_eq!(found.name.as_deref(), Some("Indonesia"));
    assert_eq!(found.region_iso_code.as_deref(), Some("JK"));
    assert_eq!(found.region_name.as_deref(), Some("Jakarta Raya"));
    assert_eq!(found.city_name.as_deref(), Some("Jakarta"));
    assert_eq!(found.asn, Some(24940));
    assert_eq!(found.aso.as_deref(), Some("Hetzner Online GmbH"));
    assert_eq!(found.ip_type, IpType::Datacenter);
}

#[test]
fn an_unknown_address_has_no_place() {
    let geo = GeoLookup::new(city_database(), Some(asn_database())).ok().unwrap();
    assert!(geo.lookup(ip(200, 2, 3, 4)).is_empty());
}

#[test]
fn without_an_asn_database_the_class_is_open() {
    let geo = GeoLookup::new(city_database(), None).ok().unwrap();
    let found = geo.lookup(ip(1, 2, 3, 4));
    assert_eq!(found.iso_code.as_deref(), Some("ID"));
    assert_eq!(found.asn, None);
    assert_eq!(found.ip_type, IpType::Unknown);
}

#[test]
fn bytes_that_are_no_database_are_refused() {
    let broken = b"not a maxmind database".to_vec();
    assert_eq!(GeoLookup::new(broken.clone(), None).err(), Some(GeoError::City));
    assert_eq!(GeoLookup::new(city_database(), Some(broken)).err(), Some(GeoError::Asn));
}

#[test]
fn the_continent_stands_in_for_an_unknown_country() {
    let record = CityRecord {
        country_known: false,
        country_code: None,
        country_name: None,
        continent_code: Some("EU".to_string()),
        continent_name: Some("Europe".to_string()),
        divisions: Vec::new(),
        city_name: None,
    };
    let found = locate(Some(Some(Some(record))), None);
    assert_eq!(found.iso_code.as_deref(), Some("EU"));
    assert_eq!(found.name.as_deref(), Some("Europe"));
    assert_eq!(found.region_name, None);
}

#[test]
fn the_first_subdivision_is_the_region() {
    let record = CityRecord {
        country_known: true,
        country_code: Some("GB".to_string()),
        country_name: Some("United Kingdom".to_string()),
        continent_code: Some("EU".to_string()),
        continent_name: Some("Europe".to_string()),
        divisions: vec![
            (Some("ENG".to_string()), Some("England".to_string())),
            (Some("WBK".to_string()), Some("West Berkshire".to_string())),
        ],
        city_name: None,
    };
    let found = locate(Some(Some(Some(record))), None);
    assert_eq!(found.iso_code.as_deref(), Some("GB"));
    assert_eq!(found.region_iso_code.as_deref(), Some("ENG"));
    assert_eq!(found.region_name.as_deref(), Some("England"));
}

#[test]
fn a_database_that_cannot_be_searched_says_nothing() {
    let owner = AsnRecord { number: Some(24940), organization: None };
    assert!(locate(None, Some(owner.clone())).is_empty());
    assert_eq!(locate(Some(None), Some(owner)).asn, Some(24940));
}

// ---- syncs ----------------------------------------------------------------

#[test]
fn download_start_event_is_announced_then_cleared() {
    let event = begin_download("GeoLite2-City.mmdb");
    assert_eq!(event.name, "GeoLite2-City.mmdb");
    assert_eq!(event.downloaded, 0);
    assert_eq!(event.total, 0);
    let later = event.report_download(10).report_download(5);
    assert_eq!(later.downloaded, 15);
    assert_eq!(later.report_download(usize::MAX).downloaded, usize::MAX);
}

#[test]
fn etag_marker_round_trips_through_sidecar() {
    assert!(read_synced_etag(b"").is_none());
    assert_eq!(
        read_synced_etag(b"\"1c87b8b3c4670be9\"").as_deref(),
        Some("\"1c87b8b3c4670be9\"")
    );
    assert_eq!(read_synced_etag(b" etag\n").as_deref(), Some("etag"));
    assert!(read_synced_etag(b" \n").is_none());
    assert!(read_synced_etag(&[0xff, 0xfe]).is_none());
}

#[test]
fn files_beside_a_database_have_their_own_names() {
    assert_eq!(temporary_path(Some("a.mmdb")), ".a.mmdb.part");
    assert_eq!(lock_path(Some("a.mmdb")), ".a.mmdb.lock");
    assert_eq!(sync_marker_path(Some("a.mmdb")), "a.mmdb.etag");
}

#[test]
fn databases_are_told_by_their_address() {
    assert_eq!(database_name(GEOLITE_ENDPOINT_URL), "GeoLite2-City.mmdb");
    assert_eq!(database_name(GEOLITE_ASN_ENDPOINT_URL), "GeoLite2-ASN.mmdb");
}

#[test]
fn a_mirror_is_given_up_before_the_download_is() {
    assert_eq!(request_deadline(120_000, 0), 20_000);
    assert_eq!(request_deadline(120_000, 110_000), 120_000);
}

#[test]
fn a_sync_asks_only_for_what_changed() {
    assert_eq!(condition(true, Some("e".to_string())).as_deref(), Some("e"));
    assert_eq!(condition(false, Some("e".to_string())), None);
    assert_eq!(sync_one(304, None), SyncReply::Unchanged);
    assert_eq!(sync_one(200, Some("1000")), SyncReply::Install(1000));
    assert_eq!(sync_one(200, None), SyncReply::Install(0));
    assert_eq!(install_response(304, None), SyncReply::Refused(304));
    assert_eq!(install_response(404, Some("12")), SyncReply::Refused(404));
    let limit = MAX_DATABASE_SIZE.to_string();
    assert_eq!(sync_one(200, Some(&limit)), SyncReply::Install(MAX_DATABASE_SIZE));
    let over = (MAX_DATABASE_SIZE + 1).to_string();
    assert_eq!(sync_one(200, Some(&over)), SyncReply::TooLarge);
    let both = sync_database(SyncOutcome::UpToDate, SyncOutcome::UpToDate);
    assert_eq!(both, SyncOutcome::UpToDate);
    let one = sync_database(SyncOutcome::UpToDate, SyncOutcome::Synced);
    assert_eq!(one, SyncOutcome::Synced);
}

// ---- downloads ------------------------------------------------------------

fn run(events: &[DownloadEvent], max_size: usize) -> DownloadStep {
    let mut step = DownloadStep::Create;
    for event in events {
        step = write_database_chunks(step, *event, max_size);
    }
    step
}

#[test]
fn oversized_database_is_rejected_and_partial_file_is_removed() {
    let ok = DownloadEvent::Succeeded;
    let events = [ok, DownloadEvent::Chunk(4), ok, DownloadEvent::Chunk(4)];
    let step = run(&events, 6);
    assert_eq!(step, DownloadStep::CleanUp(DownloadError::TooLarge));
    let step = write_database_chunks(step, ok, 6);
    assert_eq!(step, DownloadStep::Failed(DownloadError::TooLarge));
}

#[test]
fn interrupted_database_download_removes_partial_file() {
    let ok = DownloadEvent::Succeeded;
    let events = [ok, DownloadEvent::Chunk(4), ok, DownloadEvent::Failed, ok];
    assert_eq!(run(&events, 64), DownloadStep::Failed(DownloadError::Interrupted));
}

#[test]
fn invalid_database_is_rejected_before_atomic_install() {
    let ok = DownloadEvent::Succeeded;
    let body = b"not a maxmind database";
    let opened = match GeoLookup::new(body.to_vec(), None) {
        Ok(_) => DownloadEvent::Succeeded,
        Err(_) => DownloadEvent::Failed,
    };
    let events = [ok, DownloadEvent::Chunk(body.len()), ok, ok, ok, opened];
    let step = run(&events, 64);
    assert_eq!(step, DownloadStep::CleanUp(DownloadError::Invalid));
    let step = write_database_chunks(step, ok, 64);
    assert_eq!(step, DownloadStep::Failed(DownloadError::Invalid));
}

#[test]
fn stalled_database_body_times_out_and_removes_partial_file() {
    let ok = DownloadEvent::Succeeded;
    let step = run(&[ok, DownloadEvent::TimedOut, ok], 64);
    assert_eq!(step, DownloadStep::Failed(DownloadError::TimedOut));
    assert!(DownloadError::TimedOut.to_text("a", "b", 64).contains("body timed out"));
}

#[test]
fn a_whole_download_is_installed() {
    let ok = DownloadEvent::Succeeded;
    let events = [ok, DownloadEvent::Chunk(4), ok, DownloadEvent::Chunk(2), ok, ok, ok, ok, ok];
    assert_eq!(run(&events, 6), DownloadStep::Done(6));
}

#[test]
fn every_step_of_a_download_can_fail() {
    let ok = DownloadEvent::Succeeded;
    let no = DownloadEvent::Failed;
    let chunk = DownloadEvent::Chunk(4);
    assert_eq!(run(&[no], 64), DownloadStep::CleanUp(DownloadError::Create));
    assert_eq!(run(&[ok, chunk, no], 64), DownloadStep::CleanUp(DownloadError::Write));
    assert_eq!(run(&[ok, ok, no], 64), DownloadStep::CleanUp(DownloadError::Flush));
    assert_eq!(run(&[ok, ok, ok, ok, no], 64), DownloadStep::CleanUp(DownloadError::Install));
    let huge = DownloadEvent::Chunk(usize::MAX);
    assert_eq!(
        run(&[ok, chunk, ok, huge], usize::MAX),
        DownloadStep::CleanUp(DownloadError::SizeOverflow)
    );
    assert_eq!(run(&[ok, no, no], 64), DownloadStep::Leftover(DownloadError::Interrupted));
}

#[test]
fn download_errors_say_what_happened() {
    assert_eq!(DownloadError::Create.to_text("t", "d", 6), "failed to create t");
    assert_eq!(
        DownloadError::TooLarge.to_text("t", "d", 6),
        "GeoLite2 database exceeds maximum size of 6 bytes"
    );
    assert_eq!(
        DownloadError::Install.to_text("t", "d", 6),
        "failed to atomically install t as d"
    );
}

#[test]
fn legacy_database_is_migrated_into_data_dir() {
    assert_eq!(migrate_legacy_database(false, true, false, true), (true, true));
    assert_eq!(migrate_legacy_database(false, true, false, false), (true, false));
}

#[test]
fn migration_never_touches_fresh_installs() {
    assert_eq!(migrate_legacy_database(false, false, false, false), (false, false));
    assert_eq!(migrate_legacy_database(true, true, false, true), (false, false));
}

#[test]
fn a_missing_database_is_downloaded_and_a_corrupt_one_removed() {
    assert_eq!(first_step(false), EnsureStep::Download);
    assert_eq!(ensure_database(EnsureStep::Download, true), EnsureStep::Open);
    assert_eq!(ensure_database(EnsureStep::Download, false), EnsureStep::NotDownloaded);
    assert_eq!(first_step(true), EnsureStep::Open);
    assert_eq!(ensure_database(EnsureStep::Open, true), EnsureStep::Ready);
    assert_eq!(ensure_database(EnsureStep::Open, false), EnsureStep::Remove);
    assert_eq!(ensure_database(EnsureStep::Remove, true), EnsureStep::NotOpened);
}
