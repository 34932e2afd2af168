use dim_scanner::model::{
    DiscoveredFile, Library, MediaType, Mounted, OrphanMatch, ParsedName, ProbeFacts, QueryResult,
    ReconcileError, RegistrationError,
};
use dim_scanner::scanner::IterativeScanner;
use dim_scanner::store::Store;
use dim_scanner::text::{backdrop_address, decimal_text, is_media_name, is_parser_safe, poster_address, topic_for};

fn library(id: i32, media_type: MediaType) -> Library {
    Library { id, location: String::from("/media/lib"), media_type }
}

fn scanner(media_type: MediaType) -> IterativeScanner {
    let store = Store::new(vec![library(1, media_type)]).expect("library ids are distinct");
    match IterativeScanner::new(1, store) {
        Ok(s) => s,
        Err(()) => panic!("library 1 exists"),
    }
}

fn probe() -> ProbeFacts {
    ProbeFacts {
        quality: Some(String::from("1080p")),
        codec: Some(String::from("h264")),
        container: Some(String::from("matroska")),
        audio: Some(String::from("aac")),
        original_resolution: Some(String::from("1920x1080")),
        duration: Some(8160),
        corrupt: false,
    }
}

fn found(path: &str) -> DiscoveredFile {
    let name = path.rsplit('/').next().unwrap_or(path);
    DiscoveredFile { path: String::from(path), file_name: String::from(name), probe: Some(probe()) }
}

fn answer(title: Option<&str>, genres: &[&str]) -> QueryResult {
    QueryResult {
        title: title.map(String::from),
        overview: Some(String::from("A hacker learns the truth.")),
        release_date: Some(String::from("1999-03-31")),
        rating: Some(8.7_f64 as i32),
        poster_path: Some(String::from("/m.jpg")),
        backdrop_path: None,
        genres: genres.iter().map(|g| String::from(*g)).collect(),
    }
}

fn mount(s: &mut IterativeScanner, path: &str) -> Result<Mounted, RegistrationError> {
    let name = path.rsplit('/').next().unwrap_or(path);
    s.mount_file(String::from(path), name, Some(probe()))
}

#[test]
fn register_twice_keeps_one_record() {
    let mut s = scanner(MediaType::Movie);
    let first = mount(&mut s, "/media/lib/The.Matrix.1999.mkv");
    assert_eq!(first, Ok(Mounted::Registered(0)));
    let second = mount(&mut s, "/media/lib/The.Matrix.1999.mkv");
    assert_eq!(second, Ok(Mounted::AlreadyKnown));
    assert_eq!(s.store.media_files.len(), 1);
    assert!(s.is_mounted(&String::from("/media/lib/The.Matrix.1999.mkv")));
}

#[test]
fn poster_and_backdrop_urls() {
    assert_eq!(poster_address(&String::from("/abc.jpg")), "https://image.tmdb.org/t/p/w600_and_h900_bestv2/abc.jpg");
    assert_eq!(backdrop_address(&String::from("/xyz.jpg")), "https://image.tmdb.org/t/p/original//xyz.jpg");
}

#[test]
fn scenario_matrix_end_to_end() {
    let mut s = scanner(MediaType::Movie);
    let r = s.start(vec![found("/media/lib/The.Matrix.1999.mkv")]);
    assert_eq!(r, vec![Some(Ok(Mounted::Registered(0)))]);
    let f = &s.store.media_files[0];
    assert_eq!(f.raw_name, "The Matrix");
    assert_eq!(f.raw_year, Some(1999));
    assert_eq!(f.media_id, None);
    assert_eq!(f.library_id, 1);

    let queries = s.find_orphans();
    assert_eq!(queries.len(), 1);
    assert_eq!(queries[0].file_id, 0);
    assert_eq!(queries[0].title, "The Matrix");
    assert_eq!(queries[0].year, Some(1999));
    assert!(!queries[0].is_series);

    let out = s.fix_orphans(vec![OrphanMatch { file_id: 0, result: Some(answer(Some("The Matrix"), &["Action"])) }]);
    assert_eq!(out, vec![Ok(0)]);
    assert_eq!(s.store.media.len(), 1);
    let m = &s.store.media[0].data;
    assert_eq!(m.name, "The Matrix");
    assert_eq!(m.year, Some(1999));
    assert_eq!(m.rating, Some(8));
    assert_eq!(m.poster_path.as_deref(), Some("https://image.tmdb.org/t/p/w600_and_h900_bestv2/m.jpg"));
    assert_eq!(m.backdrop_path, None);
    assert_eq!(m.description.as_deref(), Some("A hacker learns the truth."));
    assert_eq!(m.media_type, MediaType::Movie);
    assert_eq!(s.store.genres.len(), 1);
    assert_eq!(s.store.genres[0].name, "Action");
    assert_eq!(s.store.genre_media.len(), 1);
    assert_eq!(s.store.genre_media[0].genre_id, 0);
    assert_eq!(s.store.genre_media[0].media_id, 0);
    assert_eq!(s.store.media_files[0].media_id, Some(0));
    assert_eq!(s.events.len(), 1);
    assert_eq!(s.events[0].id, 0);
    assert_eq!(s.events[0].topic, "/events/library/1");
}

#[test]
fn scenario_rescan_is_a_no_op() {
    let mut s = scanner(MediaType::Movie);
    s.start(vec![found("/media/lib/The.Matrix.1999.mkv")]);
    s.fix_orphans(vec![OrphanMatch { file_id: 0, result: Some(answer(Some("The Matrix"), &["Action"])) }]);
    let again = s.start(vec![found("/media/lib/The.Matrix.1999.mkv")]);
    assert_eq!(again, vec![Some(Ok(Mounted::AlreadyKnown))]);
    let queries = s.find_orphans();
    assert!(queries.is_empty());
    let out = s.fix_orphans(Vec::new());
    assert!(out.is_empty());
    assert_eq!(s.store.media_files.len(), 1);
    assert_eq!(s.store.media.len(), 1);
    assert_eq!(s.events.len(), 1);
}

#[test]
fn scenario_provider_miss_leaves_orphan() {
    let mut s = scanner(MediaType::Movie);
    mount(&mut s, "/media/lib/Unknown.Film.2004.mkv").unwrap();
    let out = s.fix_orphans(vec![OrphanMatch { file_id: 0, result: None }]);
    assert_eq!(out, vec![Err(ReconcileError::ProviderMiss)]);
    assert_eq!(s.store.media_files[0].media_id, None);
    assert!(s.store.media.is_empty());
    assert!(s.events.is_empty());
    assert_eq!(s.find_orphans().len(), 1);
}

#[test]
fn scenario_missing_title_fails() {
    let mut s = scanner(MediaType::Movie);
    mount(&mut s, "/media/lib/The.Matrix.1999.mkv").unwrap();
    let out = s.fix_orphans(vec![OrphanMatch { file_id: 0, result: Some(answer(None, &["Action"])) }]);
    assert_eq!(out, vec![Err(ReconcileError::MissingTitle)]);
    assert_eq!(s.store.media_files[0].media_id, None);
    assert!(s.store.media.is_empty());
    assert!(s.store.genres.is_empty());
    assert!(s.events.is_empty());
}

#[test]
fn same_title_shares_one_record() {
    let mut s = scanner(MediaType::Movie);
    mount(&mut s, "/media/lib/The.Matrix.1999.mkv").unwrap();
    mount(&mut s, "/media/lib/The.Matrix.1999.1080p.mkv").unwrap();
    mount(&mut s, "/media/lib/rips/The.Matrix.1999.mp4").unwrap();
    let matches = (0..3)
        .map(|i| OrphanMatch { file_id: i, result: Some(answer(Some("The Matrix"), &["Action", "Science Fiction"])) })
        .collect();
    let out = s.fix_orphans(matches);
    assert_eq!(out, vec![Ok(0), Ok(0), Ok(0)]);
    assert_eq!(s.store.media.len(), 1);
    for f in &s.store.media_files {
        assert_eq!(f.media_id, Some(0));
    }
    assert_eq!(s.events.len(), 3);
}

#[test]
fn shared_genre_stored_once() {
    let mut s = scanner(MediaType::Movie);
    mount(&mut s, "/media/lib/The.Matrix.1999.mkv").unwrap();
    mount(&mut s, "/media/lib/Heat.1995.mkv").unwrap();
    mount(&mut s, "/media/lib/Heat.1995.720p.mkv").unwrap();
    let out = s.fix_orphans(vec![
        OrphanMatch { file_id: 0, result: Some(answer(Some("The Matrix"), &["Action"])) },
        OrphanMatch { file_id: 1, result: Some(answer(Some("Heat"), &["Action", "Crime"])) },
        OrphanMatch { file_id: 2, result: Some(answer(Some("Heat"), &["Action"])) },
    ]);
    assert_eq!(out, vec![Ok(0), Ok(1), Ok(1)]);
    let action = s.store.genres.iter().filter(|g| g.name == "Action").count();
    assert_eq!(action, 1);
    assert_eq!(s.store.genres.len(), 2);
    assert_eq!(s.store.genre_media.len(), 3);
}

#[test]
fn linked_record_is_not_selected_again() {
    let mut s = scanner(MediaType::Movie);
    mount(&mut s, "/media/lib/The.Matrix.1999.mkv").unwrap();
    mount(&mut s, "/media/lib/Heat.1995.mkv").unwrap();
    s.fix_orphans(vec![OrphanMatch { file_id: 0, result: Some(answer(Some("The Matrix"), &[])) }]);
    let queries = s.find_orphans();
    assert_eq!(queries.len(), 1);
    assert_eq!(queries[0].file_id, 1);
    assert_eq!(queries[0].title, "Heat");
    let again = s.fix_orphans(vec![OrphanMatch { file_id: 0, result: Some(answer(Some("Heat"), &[])) }]);
    assert_eq!(again, vec![Err(ReconcileError::NotOrphan)]);
    assert_eq!(s.store.media_files[0].media_id, Some(0));
}

#[test]
fn registration_errors() {
    let mut s = scanner(MediaType::Movie);
    let no_probe = s.mount_file(String::from("/media/lib/Heat.1995.mkv"), "Heat.1995.mkv", None);
    assert_eq!(no_probe, Err(RegistrationError::ProbeError));
    let long_digits = mount(&mut s, "/media/lib/Film.12345678901.mkv");
    assert_eq!(long_digits, Err(RegistrationError::ParseError));
    let arabic_digit = mount(&mut s, "/media/lib/Film.\u{0662}\u{0660}\u{0660}\u{0661}.mkv");
    assert_eq!(arabic_digit, Err(RegistrationError::ParseError));
    assert!(s.store.media_files.is_empty());
    let accented = mount(&mut s, "/media/lib/Amélie.2001.mkv");
    assert_eq!(accented, Ok(Mounted::Registered(0)));
    assert_eq!(s.store.media_files[0].raw_name, "Amélie");
    assert_eq!(s.store.media_files[0].raw_year, Some(2001));
    let hangul = mount(&mut s, "/media/lib/기생충.2019.mkv");
    assert_eq!(hangul, Ok(Mounted::Registered(1)));
    assert_eq!(s.store.media_files[1].raw_year, Some(2019));
}

#[test]
fn start_skips_hidden_and_foreign_files() {
    let mut s = scanner(MediaType::Movie);
    let r = s.start(vec![
        found("/media/lib/.Hidden.2000.mkv"),
        found("/media/lib/notes.txt"),
        found("/media/lib/Heat.1995.MKV"),
        found("/media/lib/Heat.1995.avi"),
    ]);
    assert_eq!(r, vec![None, None, None, Some(Ok(Mounted::Registered(0)))]);
    assert_eq!(s.store.media_files.len(), 1);
}

#[test]
fn reconcile_errors() {
    let mut s = scanner(MediaType::Movie);
    mount(&mut s, "/media/lib/Heat.1995.mkv").unwrap();
    let out = s.fix_orphans(vec![OrphanMatch { file_id: 7, result: Some(answer(Some("Heat"), &[])) }]);
    assert_eq!(out, vec![Err(ReconcileError::UnknownRecord)]);

    let mut series = scanner(MediaType::Series);
    mount(&mut series, "/media/lib/Doctor.Who.2005.S01E01.mkv").unwrap();
    let q = series.find_orphans();
    assert!(q[0].is_series);
    assert_eq!(q[0].title, "Doctor Who");
    let out = series.fix_orphans(vec![OrphanMatch { file_id: 0, result: Some(answer(Some("Doctor Who"), &[])) }]);
    assert_eq!(out, vec![Err(ReconcileError::SeriesUnsupported)]);
    assert_eq!(series.store.media_files[0].media_id, None);
    assert_eq!(series.store.media_files[0].season, Some(1));
    assert_eq!(series.store.media_files[0].episode, Some(1));
}

#[test]
fn unknown_library_is_refused() {
    let store = Store::new(vec![library(1, MediaType::Movie)]).expect("library ids are distinct");
    assert!(IterativeScanner::new(2, store).is_err());
}

#[test]
fn invalid_release_date_gives_no_year() {
    let mut s = scanner(MediaType::Movie);
    mount(&mut s, "/media/lib/Heat.1995.mkv").unwrap();
    let mut q = answer(Some("Heat"), &[]);
    q.release_date = Some(String::from("1995-02-30"));
    q.backdrop_path = Some(String::from("/h.jpg"));
    q.rating = None;
    s.fix_orphans(vec![OrphanMatch { file_id: 0, result: Some(q) }]);
    let m = &s.store.media[0].data;
    assert_eq!(m.year, None);
    assert_eq!(m.rating, None);
    assert_eq!(m.backdrop_path.as_deref(), Some("https://image.tmdb.org/t/p/original//h.jpg"));
}

#[test]
fn decimal_and_topic_text() {
    assert_eq!(decimal_text(0), "0");
    assert_eq!(decimal_text(-42), "-42");
    assert_eq!(decimal_text(i32::MIN), "-2147483648");
    assert_eq!(decimal_text(1234567), "1234567");
    assert_eq!(topic_for(17), "/events/library/17");
}

#[test]
fn name_checks() {
    assert!(is_media_name("a.mkv"));
    assert!(is_media_name("Heat.mp4"));
    assert!(!is_media_name(".mkv"));
    assert!(!is_media_name("mkv"));
    assert!(!is_media_name(""));
    assert!(is_parser_safe("The.Matrix.1999.mkv"));
    assert!(is_parser_safe("tt123456789"));
    assert!(!is_parser_safe("tt1234567890"));
    assert!(is_parser_safe("Amélie"));
    assert!(is_parser_safe("千と千尋の神隠し"));
    assert!(!is_parser_safe("\u{0661}"));
    assert!(!is_parser_safe("\u{FF11}"));
}

#[test]
fn mount_parsed_stores_the_reading() {
    let mut s = scanner(MediaType::Series);
    let parsed = ParsedName { title: String::from("Doctor Who"), year: Some(2005), season: Some(2), episode: Some(4) };
    let r = s.mount_parsed(String::from("/media/lib/dw.mkv"), parsed, Some(probe()));
    assert_eq!(r, Ok(Mounted::Registered(0)));
    let f = &s.store.media_files[0];
    assert_eq!(f.target_file, "/media/lib/dw.mkv");
    assert_eq!(f.raw_name, "Doctor Who");
    assert_eq!(f.raw_year, Some(2005));
    assert_eq!(f.season, Some(2));
    assert_eq!(f.episode, Some(4));
    assert_eq!(f.probe.duration, Some(8160));
    assert!(!f.probe.corrupt);
    let again = ParsedName { title: String::from("Other"), year: None, season: None, episode: None };
    assert_eq!(s.mount_parsed(String::from("/media/lib/dw.mkv"), again, None), Ok(Mounted::AlreadyKnown));
    let none = ParsedName { title: String::from("Other"), year: None, season: None, episode: None };
    assert_eq!(s.mount_parsed(String::from("/media/lib/x.mkv"), none, None), Err(RegistrationError::ProbeError));
    assert_eq!(s.store.media_files.len(), 1);
}

#[test]
fn media_from_given_year() {
    let s = scanner(MediaType::Movie);
    let mut q = answer(Some("Heat"), &["Crime"]);
    q.backdrop_path = Some(String::from("/b.jpg"));
    let (m, genres) = s.media_from(String::from("Heat"), q, Some(1995), String::from("2020-01-01 00:00:00 UTC"));
    assert_eq!(m.library_id, 1);
    assert_eq!(m.name, "Heat");
    assert_eq!(m.year, Some(1995));
    assert_eq!(m.rating, Some(8));
    assert_eq!(m.added, "2020-01-01 00:00:00 UTC");
    assert_eq!(m.poster_path.as_deref(), Some("https://image.tmdb.org/t/p/w600_and_h900_bestv2/m.jpg"));
    assert_eq!(m.backdrop_path.as_deref(), Some("https://image.tmdb.org/t/p/original//b.jpg"));
    assert_eq!(genres, vec![String::from("Crime")]);
}

#[test]
fn build_media_reads_release_year() {
    let s = scanner(MediaType::Movie);
    let (m, _) = s.build_media(String::from("The Matrix"), answer(Some("The Matrix"), &[]));
    assert_eq!(m.year, Some(1999));
    assert!(!m.added.is_empty());
}

#[test]
fn duplicate_library_ids_are_refused() {
    assert!(Store::new(vec![library(1, MediaType::Movie), library(1, MediaType::Series)]).is_none());
    assert!(Store::new(vec![library(1, MediaType::Movie), library(2, MediaType::Series)]).is_some());
}

#[test]
fn failures_do_not_stop_later_entries() {
    let mut s = scanner(MediaType::Movie);
    let mut no_probe = found("/media/lib/Heat.1995.mkv");
    no_probe.probe = None;
    let r = s.start(vec![
        no_probe,
        found("/media/lib/Film.12345678901.mkv"),
        found("/media/lib/The.Matrix.1999.mkv"),
        found("/media/lib/The.Matrix.1999.mkv"),
    ]);
    assert_eq!(
        r,
        vec![
            Some(Err(RegistrationError::ProbeError)),
            Some(Err(RegistrationError::ParseError)),
            Some(Ok(Mounted::Registered(0))),
            Some(Ok(Mounted::AlreadyKnown)),
        ]
    );
    let out = s.fix_orphans(vec![
        OrphanMatch { file_id: 0, result: Some(answer(None, &[])) },
        OrphanMatch { file_id: 0, result: Some(answer(Some("The Matrix"), &["Action"])) },
        OrphanMatch { file_id: 0, result: Some(answer(Some("The Matrix"), &["Action"])) },
    ]);
    assert_eq!(out, vec![Err(ReconcileError::MissingTitle), Ok(0), Err(ReconcileError::NotOrphan)]);
}

#[test]
fn reused_record_keeps_library_type() {
    let mut s = scanner(MediaType::Movie);
    mount(&mut s, "/media/lib/Heat.1995.mkv").unwrap();
    mount(&mut s, "/media/lib/Heat.1995.720p.mkv").unwrap();
    let out = s.fix_orphans(vec![
        OrphanMatch { file_id: 0, result: Some(answer(Some("Heat"), &["Crime"])) },
        OrphanMatch { file_id: 1, result: Some(answer(Some("Heat"), &["Drama"])) },
    ]);
    assert_eq!(out, vec![Ok(0), Ok(0)]);
    assert_eq!(s.store.media[0].data.media_type, MediaType::Movie);
    assert_eq!(s.store.genres.len(), 2);
    assert!(s.store.genre_media.iter().all(|l| l.media_id == 0));
    assert_eq!(s.store.media_files[1].raw_name, "Heat");
}
