use imdb_import::id_handler::{parse_id_line, IdHandler, SeedError};

#[test]
fn assign_is_idempotent_and_unique() {
    let mut ids = IdHandler::new();
    let a = String::from("A (2000)");
    let b = String::from("B (2001)");
    let first = ids.find_or_generate_movie_id(&a);
    let again = ids.find_or_generate_movie_id(&a);
    let other = ids.find_or_generate_movie_id(&b);
    assert_eq!(first, again);
    assert_ne!(first, other);
    assert_eq!(1, first);
    assert_eq!(2, other);
    assert_eq!(2, ids.max_id());
}

#[test]
fn new_movie_id_always_mints() {
    let mut ids = IdHandler::new();
    assert_eq!(1, ids.new_movie_id(String::from("A")));
    assert_eq!(2, ids.new_movie_id(String::from("A")));
    assert_eq!(2, ids.find_or_generate_movie_id(&String::from("A")));
    assert_eq!(3, ids.find_or_generate_movie_id(&String::from("B")));
}

#[test]
fn parse_id_line_reads_id_and_title() {
    assert_eq!(Some((42, String::from("Movie (2005)"))), parse_id_line("42\tMovie (2005)"));
    assert_eq!(Some((-7, String::from("A"))), parse_id_line("-7\tA\textra"));
    assert_eq!(Some((5, String::from(""))), parse_id_line("+5\t"));
    assert_eq!(Some((2147483647, String::from("M"))), parse_id_line("2147483647\tM"));
    assert_eq!(Some((-2147483648, String::from("M"))), parse_id_line("-2147483648\tM"));
}

#[test]
fn parse_id_line_refuses_malformed() {
    assert_eq!(None, parse_id_line("42 Movie"));
    assert_eq!(None, parse_id_line("x42\tMovie"));
    assert_eq!(None, parse_id_line("\tMovie"));
    assert_eq!(None, parse_id_line("-\tMovie"));
    assert_eq!(None, parse_id_line("2147483648\tM"));
    assert_eq!(None, parse_id_line("-2147483649\tM"));
    assert_eq!(None, parse_id_line("99999999999999999999\tM"));
}

#[test]
fn seeding_sets_mark_above_dictionary() {
    let mut ids = IdHandler::new();
    let entries = vec![(5, String::from("A")), (12, String::from("B")), (7, String::from("A"))];
    assert_eq!(Ok(()), ids.generate_movie_ids(&entries, 10));
    assert_eq!(12, ids.max_id());
    assert_eq!(7, ids.find_or_generate_movie_id(&String::from("A")));
    assert_eq!(12, ids.find_or_generate_movie_id(&String::from("B")));
    assert_eq!(13, ids.find_or_generate_movie_id(&String::from("D")));

    let mut big = IdHandler::new();
    assert_eq!(Ok(()), big.generate_movie_ids(&vec![(3, String::from("A"))], 10000000));
    assert_eq!(10000000, big.max_id());
    assert_eq!(3, big.find_or_generate_movie_id(&String::from("A")));
    assert_eq!(10000001, big.find_or_generate_movie_id(&String::from("Z")));
}

#[test]
fn seeding_later_entry_wins_and_frees_old_id() {
    let mut ids = IdHandler::new();
    let entries = vec![(5, String::from("A")), (7, String::from("A")), (5, String::from("C"))];
    assert_eq!(Ok(()), ids.generate_movie_ids(&entries, 0));
    assert_eq!(7, ids.max_id());
    assert_eq!(7, ids.find_or_generate_movie_id(&String::from("A")));
    assert_eq!(5, ids.find_or_generate_movie_id(&String::from("C")));
}

#[test]
fn seeding_keeps_every_title_of_dictionary() {
    let mut ids = IdHandler::new();
    let entries = vec![(5, String::from("A")), (5, String::from("B")), (7, String::from("A"))];
    assert_eq!(Ok(()), ids.generate_movie_ids(&entries, 0));
    assert_eq!(7, ids.find_or_generate_movie_id(&String::from("A")));
    assert_eq!(5, ids.find_or_generate_movie_id(&String::from("B")));
    assert_eq!(8, ids.find_or_generate_movie_id(&String::from("C")));
}

#[test]
fn seeding_replaces_earlier_titles() {
    let mut ids = IdHandler::new();
    ids.find_or_generate_movie_id(&String::from("Old"));
    assert_eq!(Ok(()), ids.generate_movie_ids(&vec![(1, String::from("New"))], 0));
    assert_eq!(1, ids.find_or_generate_movie_id(&String::from("New")));
    assert_eq!(2, ids.find_or_generate_movie_id(&String::from("Old")));
}

#[test]
fn seeding_refuses_shared_identifier() {
    let mut ids = IdHandler::new();
    let entries = vec![(12, String::from("B")), (12, String::from("D"))];
    assert_eq!(Err(SeedError::SharedIdentifier), ids.generate_movie_ids(&entries, 10));
    assert_eq!(0, ids.max_id());
    assert_eq!(1, ids.find_or_generate_movie_id(&String::from("B")));
}
