use imdb_import::id_handler::IdHandler;
use imdb_import::movies::{format_year_field, parse_year_field, LineKind, Movie, Movies, ParseError};

#[test]
fn test_movie_full_title() {
    let mut id_handler = IdHandler::new();
    let m1 = Movie::new(&mut id_handler, "\"1st Amendment Stand Up\" (2005) {E. Griff/Ralphie May (#1.3)}\t2005");
    assert_eq!("\"1st Amendment Stand Up\" (2005) {E. Griff/Ralphie May (#1.3)}", m1.full_title);

    let m2 = Movie::new(&mut id_handler, "\"!Next?\" (1994)\t\t\t\t\t1994-1995");
    assert_eq!("\"!Next?\" (1994)", m2.full_title);

    let m3 = Movie::new(&mut id_handler, "\"#1 Single\" (2006)\t\t\t\t\t2006-????");
    assert_eq!("\"#1 Single\" (2006)", m3.full_title);
}

#[test]
fn test_movie_suspended() {
    let mut id_handler = IdHandler::new();
    let m1 = Movie::new(&mut id_handler, "\"1st Amendment Stand Up\" (2005) {E. Griff/Ralphie May (#1.3)}\t2005");
    assert_eq!(false, m1.suspended);
    assert_eq!("2005", m1.full_year);

    let m2 = Movie::new(&mut id_handler, "\"!Next?\" (1994) {{SUSPENDED}}\t\t\t1994-1995");
    assert_eq!(true, m2.suspended);
    assert_eq!("", m2.full_year);
}

#[test]
fn test_movie_full_year() {
    let mut id_handler = IdHandler::new();
    let m1 = Movie::new(&mut id_handler, "\"1st Amendment Stand Up\" (2005) {E. Griff/Ralphie May (#1.3)}\t2005");
    assert_eq!("2005", m1.full_year);

    let m2 = Movie::new(&mut id_handler, "\"!Next?\" (1994)\t\t\t\t\t1994-1995");
    assert_eq!("1994-1995", m2.full_year);

    let m3 = Movie::new(&mut id_handler, "\"#1 Single\" (2006)\t\t\t\t\t2006-????");
    assert_eq!("2006-????", m3.full_year);
}

#[test]
fn test_movie_years() {
    let mut id_handler = IdHandler::new();
    let m1 = Movie::new(&mut id_handler, "\"1st Amendment Stand Up\" (2005) {E. Griff/Ralphie May (#1.3)}\t2005");
    assert_eq!(1, m1.years.len());
    assert_eq!(2005, m1.years[0]);

    let m2 = Movie::new(&mut id_handler, "\"!Next?\" (1994)\t\t\t\t\t1994-1995");
    assert_eq!(2, m2.years.len());
    assert_eq!(1994, m2.years[0]);
    assert_eq!(1995, m2.years[1]);

    let m3 = Movie::new(&mut id_handler, "\"#1 Single\" (2006)\t\t\t\t\t2006-????");
    assert_eq!(true, m3.years.len() > 9);
    assert_eq!(2006, m3.years[0]);
    assert_eq!(2007, m3.years[1]);
    assert_eq!(2008, m3.years[2]);
    assert_eq!(2009, m3.years[3]);
    assert_eq!(2010, m3.years[4]);
    assert_eq!(2011, m3.years[5]);
    assert_eq!(2012, m3.years[6]);
    assert_eq!(2013, m3.years[7]);
    assert_eq!(2014, m3.years[8]);
    assert_eq!(2015, m3.years[9]);
}

#[test]
fn test_movie_episode() {
    let mut id_handler = IdHandler::new();
    let m1 = Movie::new(&mut id_handler, "\"1st Amendment Stand Up\" (2005) {E. Griff/Ralphie May (#1.3)}\t2005");
    assert_eq!(true, m1.is_episode);
    assert_eq!("E. Griff/Ralphie May", m1.episode_name);
    assert_eq!("1", m1.episode_season);
    assert_eq!("3", m1.episode_episode);
    assert_eq!("\"1st Amendment Stand Up\" (2005)", m1.episode_parent_title);

    let m2 = Movie::new(&mut id_handler, "\"!Next?\" (1994)\t\t\t\t\t1994-1995");
    assert_eq!(false, m2.is_episode);
    assert_eq!("", m2.episode_parent_title);

    let m3 = Movie::new(&mut id_handler, "\"#1 Single\" (2006)\t\t\t\t\t2006-????");
    assert_eq!(false, m3.is_episode);
    assert_eq!("", m3.episode_parent_title);

    let m1 = Movie::new(&mut id_handler, "\"#Adulting\" (2016/I) {(#1.3)}\t\t\t\t2016");
    assert_eq!(true, m1.is_episode);
    assert_eq!("", m1.episode_name);
    assert_eq!("1", m1.episode_season);
    assert_eq!("3", m1.episode_episode);
    assert_eq!("\"#Adulting\" (2016/I)", m1.episode_parent_title);
}

#[test]
fn test_movie_title_year() {
    let mut id_handler = IdHandler::new();
    let m1 = Movie::new(&mut id_handler, "\"1st Amendment Stand Up\" (2005) {E. Griff/Ralphie May (#1.3)}\t2005");
    assert_eq!("2005", m1.title_year);

    let m2 = Movie::new(&mut id_handler, "\"!Next?\" (1994/II)\t\t\t\t\t1994-1995");
    assert_eq!("1994/II", m2.title_year);

    let m3 = Movie::new(&mut id_handler, "\"#1 Single\" (2006)\t\t\t\t\t2006-????");
    assert_eq!("2006", m3.title_year);
}

#[test]
fn test_movie_title() {
    let mut id_handler = IdHandler::new();
    let m1 = Movie::new(&mut id_handler, "\"1st Amendment Stand Up\" (2005) {E. Griff/Ralphie May (#1.3)}\t2005");
    assert_eq!("\"1st Amendment Stand Up\"", m1.title);

    let m2 = Movie::new(&mut id_handler, "\"!Next?\" (1994)\t\t\t\t\t1994-1995");
    assert_eq!("\"!Next?\"", m2.title);

    let m3 = Movie::new(&mut id_handler, "\"#1 Single\" (2006)\t\t\t\t\t2006-????");
    assert_eq!("\"#1 Single\"", m3.title);
}

#[test]
fn test_movie_title_category() {
    let mut id_handler = IdHandler::new();
    let m1 = Movie::new(&mut id_handler, "Movie 1 (2005) (TV)\t2005");
    assert_eq!("Movie 1", m1.title);
    assert_eq!("TV", m1.title_category);

    let m2 = Movie::new(&mut id_handler, "\"!Next?\" (1994)\t\t\t\t\t1994-1995");
    assert_eq!("TVS", m2.title_category);

    let m3 = Movie::new(&mut id_handler, "Movie 2 (2005) (VG)\t2005");
    assert_eq!("VG", m3.title_category);

    let m4 = Movie::new(&mut id_handler, "Movie 3 (2005) (V)\t2005");
    assert_eq!("V", m4.title_category);

    let m5 = Movie::new(&mut id_handler, "Movie 4 (2005)\t2005");
    assert_eq!("", m5.title_category);
}

#[test]
fn episode_record_all_fields() {
    let mut ids = IdHandler::new();
    let m = Movie::new_at(&mut ids, "\"Title\" (2005) {E. Griff/Ralphie May (#1.3)}\t2005", 2026);
    assert_eq!("\"Title\" (2005) {E. Griff/Ralphie May (#1.3)}", m.full_title);
    assert_eq!("\"Title\"", m.title);
    assert_eq!("2005", m.title_year);
    assert_eq!(vec![2005], m.years);
    assert!(!m.year_open_end);
    assert!(m.is_episode);
    assert_eq!("E. Griff/Ralphie May", m.episode_name);
    assert_eq!("1", m.episode_season);
    assert_eq!("3", m.episode_episode);
    assert_eq!("\"Title\" (2005)", m.episode_parent_title);
    assert_eq!("TVS", m.title_category);
    assert!(!m.suspended);
    assert_eq!(1, m.id);
}

#[test]
fn closed_range_not_episode() {
    let mut ids = IdHandler::new();
    let m = Movie::new_at(&mut ids, "\"!Next?\" (1994)\t\t\t\t\t1994-1995", 2026);
    assert_eq!(vec![1994, 1995], m.years);
    assert!(!m.is_episode);
    assert_eq!("", m.episode_parent_title);
    assert_eq!("", m.episode_name);
}

#[test]
fn open_range_runs_to_given_year() {
    let mut ids = IdHandler::new();
    let m = Movie::new_at(&mut ids, "\"#1 Single\" (2006)\t\t\t\t\t2006-????", 2010);
    assert!(m.year_open_end);
    assert_eq!(vec![2006, 2007, 2008, 2009, 2010], m.years);
}

#[test]
fn open_range_runs_to_current_year() {
    let mut ids = IdHandler::new();
    let m = Movie::new(&mut ids, "\"#1 Single\" (2006)\t\t\t\t\t2006-????");
    let now = chrono::Datelike::year(&chrono::Local::now());
    assert!(m.year_open_end);
    assert_eq!(2006, m.years[0]);
    assert_eq!(now, *m.years.last().unwrap());
    assert_eq!((now - 2006 + 1) as usize, m.years.len());
}

#[test]
fn open_range_starting_after_now_is_empty() {
    let mut ids = IdHandler::new();
    let m = Movie::new_at(&mut ids, "Later (2030)\t2030-????", 2026);
    assert!(m.year_open_end);
    assert!(m.years.is_empty());
}

#[test]
fn suspended_record_keeps_defaults() {
    let mut ids = IdHandler::new();
    let m = Movie::new_at(&mut ids, "\"!Next?\" (1994) {{SUSPENDED}}\t\t\t\t1994-1995", 2026);
    assert!(m.suspended);
    assert_eq!("", m.full_title);
    assert_eq!("", m.full_year);
    assert_eq!("", m.title);
    assert!(m.years.is_empty());
    assert!(!m.is_episode);
    assert_eq!(-1, m.id);
    assert_eq!(0, ids.max_id());
}

#[test]
fn suspended_marker_spellings() {
    let mut ids = IdHandler::new();
    for line in [
        "A (2000) {{SUSPEND}}\t2000",
        "A (2000) {{SUSPNED}}\t2000",
        "A (2000) {{SUSPENDED}}\t2000",
        "A (2000) {{SUSPNEDED}}\t2000",
    ] {
        assert!(Movie::new_at(&mut ids, line, 2026).suspended);
    }
    assert!(!Movie::new_at(&mut ids, "A (2000){{SUSPENDED}}\t2000", 2026).suspended);
    assert!(!Movie::new_at(&mut ids, "A (2000) {{SUSPENDED}} x\t2000", 2026).suspended);
}

#[test]
fn categories_from_trailing_marker() {
    let mut ids = IdHandler::new();
    let tv = Movie::new_at(&mut ids, "Movie 1 (2005) (TV)\t2005", 2026);
    assert_eq!("TV", tv.title_category);
    assert_eq!("Movie 1", tv.title);
    assert_eq!("2005", tv.title_year);
    let v = Movie::new_at(&mut ids, "Movie 3 (2005) (V)\t2005", 2026);
    assert_eq!("V", v.title_category);
    assert_eq!("Movie 3", v.title);
    let vg = Movie::new_at(&mut ids, "Movie 2 (2005) (VG)\t2005", 2026);
    assert_eq!("VG", vg.title_category);
    assert_eq!("Movie 2", vg.title);
    let quoted = Movie::new_at(&mut ids, "\"Show\" (2005) (TV)\t2005", 2026);
    assert_eq!("TVS", quoted.title_category);
    let plain = Movie::new_at(&mut ids, "Movie 4 (2005)\t2005", 2026);
    assert_eq!("", plain.title_category);
    assert_eq!("Movie 4", plain.title);
}

#[test]
fn year_field_fallbacks() {
    let mut ids = IdHandler::new();
    let empty = Movie::new_at(&mut ids, "Movie (2005)\t", 2026);
    assert_eq!("", empty.full_year);
    assert_eq!(vec![-1], empty.years);
    let odd = Movie::new_at(&mut ids, "Movie (2005)\tabout 2005", 2026);
    assert_eq!(vec![0], odd.years);
    assert!(!odd.year_open_end);
    let backwards = Movie::new_at(&mut ids, "Movie (2005)\t2005-2003", 2026);
    assert!(backwards.years.is_empty());
}

#[test]
fn year_field_round_trip() {
    let mut ids = IdHandler::new();
    for field in ["2005", "1994-1995", "2006-????", "1990-1990"] {
        let line = format!("X (2000)\t{}", field);
        let m = Movie::new_at(&mut ids, &line, 2026);
        let lo = m.years[0];
        let hi = *m.years.last().unwrap();
        let again = if m.year_open_end {
            format!("{:04}-????", lo)
        } else if lo == hi {
            format!("{:04}", lo)
        } else {
            format!("{:04}-{:04}", lo, hi)
        };
        let m2 = Movie::new_at(&mut ids, &format!("X (2000)\t{}", again), 2026);
        assert_eq!(m.years, m2.years);
        assert_eq!(m.year_open_end, m2.year_open_end);
    }
}

#[test]
fn episode_without_numbers() {
    let mut ids = IdHandler::new();
    let m = Movie::new_at(&mut ids, "\"Show\" (2000) {Pilot}\t2000", 2026);
    assert!(m.is_episode);
    assert_eq!("Pilot", m.episode_name);
    assert_eq!("", m.episode_season);
    assert_eq!("", m.episode_episode);
    assert_eq!("\"Show\" (2000)", m.episode_parent_title);
    assert_eq!("\"Show\"", m.title);
}

#[test]
fn episode_number_without_season() {
    let mut ids = IdHandler::new();
    let m = Movie::new_at(&mut ids, "\"Show\" (2000) {Finale (#12)}\t2000", 2026);
    assert!(m.is_episode);
    assert_eq!("Finale (#12)", m.episode_name);
    assert_eq!("", m.episode_season);
}

#[test]
fn coded_title_year() {
    let mut ids = IdHandler::new();
    let m = Movie::new_at(&mut ids, "Movie (1994/XIV) (V)\t1994", 2026);
    assert_eq!("1994/XIV", m.title_year);
    assert_eq!("Movie", m.title);
    assert_eq!("V", m.title_category);
}

#[test]
fn identifier_keyed_by_full_title() {
    let mut ids = IdHandler::new();
    let a = Movie::new_at(&mut ids, "\"Show\" (2000) {One (#1.1)}\t2000", 2026);
    let b = Movie::new_at(&mut ids, "\"Show\" (2000) {Two (#1.2)}\t2000", 2026);
    let a2 = Movie::new_at(&mut ids, "\"Show\" (2000) {One (#1.1)}\t\t2000", 2026);
    assert_eq!(1, a.id);
    assert_eq!(2, b.id);
    assert_eq!(a.id, a2.id);
}

#[test]
fn line_without_tab_is_malformed() {
    let mut ids = IdHandler::new();
    assert!(!Movie::holds_two_fields("Movie (2005)"));
    assert!(matches!(Movie::parse(&mut ids, "Movie (2005)"), Err(ParseError::MalformedRecord)));
    assert_eq!(0, ids.max_id());
    let ok = Movie::parse(&mut ids, "Movie (2005)\t2005");
    assert!(matches!(ok, Ok(ref m) if m.title == "Movie" && m.years == vec![2005]));
}

#[test]
fn scanner_finds_record_block() {
    let mut s = Movies::new();
    let dashes = "-".repeat(80);
    assert_eq!(LineKind::Skip, s.classify_line("preamble"));
    assert_eq!(LineKind::Skip, s.classify_line("MOVIES LIST"));
    assert_eq!(LineKind::Skip, s.classify_line("==========="));
    assert_eq!(LineKind::Skip, s.classify_line(""));
    assert_eq!(LineKind::Record, s.classify_line("Movie (2005)\t2005"));
    assert_eq!(LineKind::Record, s.classify_line("Other (2006)\t2006"));
    assert_eq!(LineKind::End, s.classify_line(&dashes));
}

#[test]
fn year_field_round_trip_all_shapes() {
    for field in ["", "abc", "2005", "1994-1995", "2006-????", "1990-1990", "0000"] {
        let (years, open) = parse_year_field(field, 2026);
        assert!(!years.is_empty());
        let lo = years[0];
        let hi = *years.last().unwrap();
        let again = format_year_field(lo, hi, open);
        assert_eq!((years.clone(), open), parse_year_field(&again, 2026));
    }
    assert_eq!((vec![-1], false), parse_year_field("", 2026));
    assert_eq!((vec![0], false), parse_year_field("abc", 2026));
    assert_eq!((vec![2024, 2025, 2026], true), parse_year_field("2024-????", 2026));
}

#[test]
fn format_year_field_writes_each_shape() {
    assert_eq!("", format_year_field(-1, -1, false));
    assert_eq!("0000", format_year_field(0, 0, false));
    assert_eq!("2005", format_year_field(2005, 2005, false));
    assert_eq!("1994-1995", format_year_field(1994, 1995, false));
    assert_eq!("2006-????", format_year_field(2006, 2026, true));
    assert_eq!("0042", format_year_field(42, 42, false));
}
