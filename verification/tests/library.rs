use booklib::book::Book;
use booklib::book_sys::{find_by_genre_simple, BookSystem};
use booklib::caretaker::Caretaker;
use booklib::error::ErrorKind;
use booklib::genres::Genres;
use booklib::persist::ReaderRecord;
use booklib::reader::{Reader, ReaderBase};
use booklib::system::{borrow_book, remove_all_copies, remove_copy, remove_the_book, return_book};
use booklib::text::{compose_identity, parse_u8, u16_to_string};
use booklib::the_book::TheBook;

fn dune_catalog() -> BookSystem {
    let mut bs = BookSystem::new();
    bs.add_title("Dune".to_string(), "Herbert".to_string(), 412)
        .unwrap();
    bs
}

fn paul(rb: &mut ReaderBase) {
    rb.add_reader(
        "Paul".to_string(),
        "Atreides".to_string(),
        "-".to_string(),
        20,
    )
    .unwrap();
}

#[test]
fn borrow_sets_usage_and_history() {
    let mut bs = dune_catalog();
    let mut rb = ReaderBase::new();
    paul(&mut rb);
    let k = borrow_book(&mut rb, &mut bs, 0, 0).unwrap();
    assert_eq!(k, 0);
    let copy = &bs.books[0].books[0];
    assert!(copy.is_using);
    assert_eq!(copy.readers.len(), 1);
    assert!(!copy.readers[0].returned);
    assert_eq!(copy.readers[0].reader, rb.readers[0].id);
    assert_eq!(rb.readers[0].reading, Some(copy.id));
}

#[test]
fn borrow_already_in_use_fails_and_changes_nothing() {
    let mut bs = dune_catalog();
    let mut rb = ReaderBase::new();
    paul(&mut rb);
    rb.add_reader(
        "Leto".to_string(),
        "Atreides".to_string(),
        "-".to_string(),
        55,
    )
    .unwrap();
    borrow_book(&mut rb, &mut bs, 0, 0).unwrap();
    let history_before = bs.books[0].books[0].readers.clone();
    let r = borrow_book(&mut rb, &mut bs, 1, 0);
    assert_eq!(r, Err(ErrorKind::AlreadyInUse));
    assert_eq!(bs.books[0].books[0].readers, history_before);
    assert!(bs.books[0].books[0].is_using);
    assert_eq!(rb.readers[1].reading, None);
    assert!(rb.readers[1].books.is_empty());
}

#[test]
fn direct_begin_borrow_respects_usage_flag() {
    let mut b = Book::new("T".to_string(), "A".to_string(), 5, 0);
    assert!(!b.is_using);
    assert_eq!(b.begin_borrow(7), Ok(()));
    assert!(b.is_using);
    assert_eq!(b.begin_borrow(8), Err(ErrorKind::AlreadyInUse));
    assert_eq!(b.readers.len(), 1);
    assert_eq!(b.end_borrow(), Ok(()));
    assert!(!b.is_using);
    assert!(b.readers[0].returned);
    assert_eq!(b.end_borrow(), Err(ErrorKind::NotInUse));
}

#[test]
fn usage_flag_tracks_last_entry_over_many_borrows() {
    let mut b = Book::new("T".to_string(), "A".to_string(), 5, 0);
    for round in 0..4u64 {
        assert_eq!(b.begin_borrow(round), Ok(()));
        assert!(b.is_using);
        assert!(!b.readers.last().unwrap().returned);
        assert_eq!(b.end_borrow(), Ok(()));
        assert!(!b.is_using);
        assert!(b.readers.last().unwrap().returned);
    }
    assert_eq!(b.readers.len(), 4);
}

#[test]
fn return_book_marks_entry_returned() {
    let mut bs = dune_catalog();
    let mut rb = ReaderBase::new();
    paul(&mut rb);
    borrow_book(&mut rb, &mut bs, 0, 0).unwrap();
    assert_eq!(return_book(&mut rb, &mut bs, 0), Ok(()));
    assert!(!bs.books[0].books[0].is_using);
    assert!(bs.books[0].books[0].readers[0].returned);
    assert_eq!(rb.readers[0].reading, None);
    assert_eq!(rb.readers[0].books.len(), 1);
    assert_eq!(return_book(&mut rb, &mut bs, 0), Err(ErrorKind::NotInUse));
}

#[test]
fn removing_holder_clears_flag_and_keeps_other_history() {
    let mut bs = dune_catalog();
    let mut rb = ReaderBase::new();
    paul(&mut rb);
    rb.add_reader(
        "Leto".to_string(),
        "Atreides".to_string(),
        "-".to_string(),
        55,
    )
    .unwrap();
    // Leto borrows and returns, then Paul borrows and is removed.
    borrow_book(&mut rb, &mut bs, 1, 0).unwrap();
    return_book(&mut rb, &mut bs, 1).unwrap();
    borrow_book(&mut rb, &mut bs, 0, 0).unwrap();
    let leto_id = rb.readers[1].id;
    let r = rb.remove_reader(
        &"Paul".to_string(),
        &"Atreides".to_string(),
        &"-".to_string(),
        20,
        &mut bs,
    );
    assert_eq!(r, Ok(()));
    let copy = &bs.books[0].books[0];
    assert!(!copy.is_using);
    // Leto's past entry is intact, Paul's entry is kept but returned.
    assert_eq!(copy.readers.len(), 2);
    assert_eq!(copy.readers[0].reader, leto_id);
    assert!(copy.readers[0].returned);
    assert!(copy.readers[1].returned);
    assert_eq!(rb.readers.len(), 1);
    assert_eq!(rb.readers[0].name, "Leto");
}

#[test]
fn removing_missing_reader_reports_not_found() {
    let mut bs = dune_catalog();
    let mut rb = ReaderBase::new();
    let r = rb.remove_reader(
        &"Paul".to_string(),
        &"Atreides".to_string(),
        &"-".to_string(),
        20,
        &mut bs,
    );
    assert_eq!(r, Err(ErrorKind::NotFound));
}

#[test]
fn genre_set_never_present_but_empty() {
    let mut bs = dune_catalog();
    assert_eq!(bs.books[0].genres, None);
    assert_eq!(bs.add_genre(0, "saga".to_string()), Ok(true));
    assert_eq!(bs.add_genre(0, "saga".to_string()), Ok(false));
    assert_eq!(bs.books[0].genres.as_ref().unwrap().len(), 1);
    assert_eq!(bs.remove_genre(0, &"saga".to_string()), Ok(true));
    assert_eq!(bs.books[0].genres, None);
    assert_eq!(bs.remove_genre(0, &"saga".to_string()), Ok(false));
}

#[test]
fn removing_last_copy_keeps_genre_invariant() {
    let mut bs = dune_catalog();
    let mut rb = ReaderBase::new();
    bs.add_genre(0, "saga".to_string()).unwrap();
    assert_eq!(remove_copy(&mut rb, &mut bs, 0, 0), Ok(()));
    assert!(bs.books[0].books.is_empty());
    // The genre set is still present and non-empty, never Some(empty).
    assert_eq!(bs.books[0].genres.as_ref().unwrap().len(), 1);
}

#[test]
fn remove_copy_purges_reader_references() {
    let mut bs = dune_catalog();
    let mut rb = ReaderBase::new();
    paul(&mut rb);
    borrow_book(&mut rb, &mut bs, 0, 0).unwrap();
    assert_eq!(remove_copy(&mut rb, &mut bs, 0, 0), Ok(()));
    assert_eq!(rb.readers[0].reading, None);
    assert!(rb.readers[0].books.is_empty());
    assert!(bs.books[0].books.is_empty());
    assert_eq!(
        remove_copy(&mut rb, &mut bs, 0, 0),
        Err(ErrorKind::IndexOutOfRange)
    );
}

#[test]
fn remove_title_purges_reader_references() {
    let mut bs = dune_catalog();
    bs.add_title("Emma".to_string(), "Austen".to_string(), 300)
        .unwrap();
    let mut rb = ReaderBase::new();
    paul(&mut rb);
    borrow_book(&mut rb, &mut bs, 0, 0).unwrap();
    assert_eq!(remove_the_book(&mut rb, &mut bs, 0), Ok(()));
    assert_eq!(bs.books.len(), 1);
    assert_eq!(bs.books[0].title, "Emma");
    assert_eq!(rb.readers[0].reading, None);
    assert!(rb.readers[0].books.is_empty());
}

#[test]
fn snapshot_then_undo_round_trips() {
    let mut bs = dune_catalog();
    let mut rb = ReaderBase::new();
    let mut genres = Genres::new();
    genres.add("saga".to_string());
    paul(&mut rb);
    let mut caretaker = Caretaker::new();
    caretaker.add_memento(&rb, &bs, &genres);
    // A mutating action after the snapshot.
    borrow_book(&mut rb, &mut bs, 0, 0).unwrap();
    genres.add("classic".to_string());
    assert!(caretaker.undo(&mut rb, &mut bs, &mut genres));
    // Structurally equal to the pre-mutation state.
    assert!(!bs.books[0].books[0].is_using);
    assert!(bs.books[0].books[0].readers.is_empty());
    assert_eq!(rb.readers[0].reading, None);
    assert!(rb.readers[0].books.is_empty());
    assert_eq!(genres.genres, vec!["saga".to_string()]);
    assert_eq!(caretaker.len(), 0);
    // Undo with an empty stack reports false and changes nothing.
    assert!(!caretaker.undo(&mut rb, &mut bs, &mut genres));
    assert_eq!(rb.readers.len(), 1);
}

#[test]
fn discarding_a_snapshot_pops_without_restoring() {
    let bs = dune_catalog();
    let rb = ReaderBase::new();
    let genres = Genres::new();
    let mut caretaker = Caretaker::new();
    assert!(!caretaker.pop());
    caretaker.add_memento(&rb, &bs, &genres);
    assert_eq!(caretaker.len(), 1);
    assert!(caretaker.pop());
    assert_eq!(caretaker.len(), 0);
}

#[test]
fn undo_restores_a_relinked_graph() {
    let mut bs = dune_catalog();
    let mut rb = ReaderBase::new();
    let mut genres = Genres::new();
    paul(&mut rb);
    borrow_book(&mut rb, &mut bs, 0, 0).unwrap();
    let mut caretaker = Caretaker::new();
    caretaker.add_memento(&rb, &bs, &genres);
    return_book(&mut rb, &mut bs, 0).unwrap();
    assert!(caretaker.undo(&mut rb, &mut bs, &mut genres));
    // The held reference resolves to the actual in-catalog copy again.
    let held = rb.readers[0].reading.unwrap();
    assert_eq!(held, bs.books[0].books[0].id);
    assert!(bs.books[0].books[0].is_using);
    assert_eq!(
        bs.books[0].books[0].readers.last().unwrap().reader,
        rb.readers[0].id
    );
}

#[test]
fn renaming_to_existing_identity_fails_without_mutation() {
    let mut rb = ReaderBase::new();
    paul(&mut rb);
    rb.add_reader(
        "Leto".to_string(),
        "Atreides".to_string(),
        "-".to_string(),
        20,
    )
    .unwrap();
    let r = rb.change_name(
        &"Leto".to_string(),
        &"Atreides".to_string(),
        &"-".to_string(),
        20,
        "Paul".to_string(),
    );
    assert_eq!(r, Err(ErrorKind::AlreadyExists));
    assert_eq!(rb.readers[1].name, "Leto");
    // The identity check runs before the emptiness check.
    let r2 = rb.change_name(
        &"Leto".to_string(),
        &"Atreides".to_string(),
        &"-".to_string(),
        20,
        String::new(),
    );
    assert_eq!(r2, Err(ErrorKind::EmptyValue));
    let r3 = rb.change_name(
        &"Duncan".to_string(),
        &"Idaho".to_string(),
        &"-".to_string(),
        35,
        "X".to_string(),
    );
    assert_eq!(r3, Err(ErrorKind::NotFound));
    let r4 = rb.change_name(
        &"Leto".to_string(),
        &"Atreides".to_string(),
        &"-".to_string(),
        20,
        "Leto II".to_string(),
    );
    assert_eq!(r4, Ok(()));
    assert_eq!(rb.readers[1].name, "Leto II");
}

#[test]
fn change_age_parses_first() {
    let mut rb = ReaderBase::new();
    paul(&mut rb);
    // Parse failure comes before the existence check.
    let r = rb.change_age(
        &"Duncan".to_string(),
        &"Idaho".to_string(),
        &"-".to_string(),
        35,
        "old".to_string(),
    );
    assert_eq!(r, Err(ErrorKind::ParseError));
    let r2 = rb.change_age(
        &"Duncan".to_string(),
        &"Idaho".to_string(),
        &"-".to_string(),
        35,
        "36".to_string(),
    );
    assert_eq!(r2, Err(ErrorKind::NotFound));
    let r3 = rb.change_age(
        &"Paul".to_string(),
        &"Atreides".to_string(),
        &"-".to_string(),
        20,
        " 21 ".to_string(),
    );
    assert_eq!(r3, Ok(()));
    assert_eq!(rb.readers[0].age, 21);
}

#[test]
fn reader_field_changes_refuse_empty_values() {
    let mut p = Reader::new(
        "Paul".to_string(),
        "Atreides".to_string(),
        "-".to_string(),
        20,
        0,
    );
    assert_eq!(p.change_name(String::new()), Err(ErrorKind::EmptyValue));
    assert_eq!(p.change_family(String::new()), Err(ErrorKind::EmptyValue));
    assert_eq!(p.change_father(String::new()), Err(ErrorKind::EmptyValue));
    assert_eq!(p.change_name("Muad'Dib".to_string()), Ok(()));
    assert_eq!(p.name, "Muad'Dib");
    p.change_age(21);
    assert_eq!(p.age, 21);
}

#[test]
fn parse_u8_exact_values() {
    assert_eq!(parse_u8("0"), Some(0));
    assert_eq!(parse_u8("255"), Some(255));
    assert_eq!(parse_u8("256"), None);
    assert_eq!(parse_u8(" 42\t"), Some(42));
    assert_eq!(parse_u8(""), None);
    assert_eq!(parse_u8("  "), None);
    assert_eq!(parse_u8("4x2"), None);
    assert_eq!(parse_u8("-1"), None);
}

#[test]
fn decimal_rendering_exact_values() {
    assert_eq!(u16_to_string(0), "0");
    assert_eq!(u16_to_string(7), "7");
    assert_eq!(u16_to_string(412), "412");
    assert_eq!(u16_to_string(65535), "65535");
    assert_eq!(
        compose_identity(&"Dune".to_string(), &"Herbert".to_string(), 412),
        "Dune Herbert 412"
    );
}

#[test]
fn title_changes_propagate_to_every_copy() {
    let mut bs = dune_catalog();
    bs.add_copy(0).unwrap();
    bs.add_copy(0).unwrap();
    assert_eq!(bs.change_title(0, "Dune Messiah".to_string()), Ok(()));
    for c in &bs.books[0].books {
        assert_eq!(c.title, "Dune Messiah");
    }
    assert_eq!(bs.change_pages(0, 331), Ok(()));
    for c in &bs.books[0].books {
        assert_eq!(c.pages, 331);
    }
    assert_eq!(bs.change_author(0, "F. Herbert".to_string()), Ok(()));
    for c in &bs.books[0].books {
        assert_eq!(c.author, "F. Herbert");
    }
    // A change colliding with another aggregate's identity is refused.
    bs.add_title("Emma".to_string(), "F. Herbert".to_string(), 331)
        .unwrap();
    assert_eq!(
        bs.change_title(1, "Dune Messiah".to_string()),
        Err(ErrorKind::AlreadyExists)
    );
    assert_eq!(bs.books[1].title, "Emma");
}

#[test]
fn duplicate_title_is_refused() {
    let mut bs = dune_catalog();
    assert_eq!(
        bs.add_title("Dune".to_string(), "Herbert".to_string(), 412),
        Err(ErrorKind::AlreadyExists)
    );
    assert_eq!(bs.books.len(), 1);
    assert_eq!(
        bs.add_copy(3),
        Err(ErrorKind::IndexOutOfRange)
    );
}

#[test]
fn duplicate_reader_is_refused() {
    let mut rb = ReaderBase::new();
    paul(&mut rb);
    let r = rb.add_reader(
        "Paul".to_string(),
        "Atreides".to_string(),
        "-".to_string(),
        20,
    );
    assert_eq!(r, Err(ErrorKind::AlreadyExists));
    assert_eq!(rb.len(), 1);
}

#[test]
fn find_by_genre_lists_matching_titles_in_order() {
    let mut bs = dune_catalog();
    bs.add_title("Emma".to_string(), "Austen".to_string(), 300)
        .unwrap();
    bs.add_title("Ubik".to_string(), "Dick".to_string(), 220)
        .unwrap();
    bs.add_genre(0, "novel".to_string()).unwrap();
    bs.add_genre(2, "novel".to_string()).unwrap();
    bs.add_genre(1, "romance".to_string()).unwrap();
    let found = find_by_genre_simple(&"novel".to_string(), &bs);
    assert_eq!(
        found,
        vec![
            ("Dune".to_string(), "Herbert".to_string(), 412),
            ("Ubik".to_string(), "Dick".to_string(), 220),
        ]
    );
    // An aggregate without a genre set never matches.
    assert!(find_by_genre_simple(&"satire".to_string(), &bs).is_empty());
}

#[test]
fn genre_registry_add_remove() {
    let mut g = Genres::new();
    assert!(g.add("fantasy".to_string()));
    assert!(!g.add("fantasy".to_string()));
    assert!(g.contains(&"fantasy".to_string()));
    assert!(g.remove(&"fantasy".to_string()));
    assert!(!g.remove(&"fantasy".to_string()));
    assert_eq!(g.len(), 0);
}

#[test]
fn paul_borrows_and_is_detached() {
    // Catalog has Title("Dune","Herbert",412) with one copy; the
    // reader "Paul/Atreides/-/20" borrows it, then detaches from
    // everything.
    let mut bs = dune_catalog();
    let mut rb = ReaderBase::new();
    paul(&mut rb);
    borrow_book(&mut rb, &mut bs, 0, 0).unwrap();
    assert!(bs.books[0].books[0].is_using);
    assert_eq!(rb.readers[0].reading, Some(bs.books[0].books[0].id));
    let mut p = rb.readers.remove(0);
    p.remove_all_books(&mut bs);
    assert!(!bs.books[0].books[0].is_using);
    assert_eq!(p.reading, None);
    // The copy's history still records the now-returned entry.
    assert_eq!(bs.books[0].books[0].readers.len(), 1);
    assert!(bs.books[0].books[0].readers[0].returned);
    assert_eq!(bs.books[0].books[0].readers[0].reader, p.id);
}

#[test]
fn persisted_reader_relinks_to_actual_catalog_copy() {
    // Persist a registry with one reader whose current field reads
    // "Dune Herbert 412"; reload with the catalog loaded first.
    let mut bs = dune_catalog();
    let mut rb = ReaderBase::new();
    paul(&mut rb);
    borrow_book(&mut rb, &mut bs, 0, 0).unwrap();
    let text = rb.save_to_string(&bs);
    assert!(text.contains("Name: Paul"));
    assert!(text.contains("Reading: Dune Herbert 412"));

    // A freshly loaded catalog: same titles, nothing lent out.
    let mut bs2 = dune_catalog();
    let mut rb2 = ReaderBase::new();
    assert_eq!(rb2.load(&text, &mut bs2), Ok(()));
    assert_eq!(rb2.len(), 1);
    assert_eq!(rb2.readers[0].name, "Paul");
    assert_eq!(rb2.readers[0].family, "Atreides");
    assert_eq!(rb2.readers[0].age, 20);
    // The reference resolves to the actual in-catalog copy, which is
    // marked lent out to this reader, not to a placeholder.
    let held = rb2.readers[0].reading.unwrap();
    assert_eq!(held, bs2.books[0].books[0].id);
    assert!(bs2.books[0].books[0].is_using);
    assert_eq!(
        bs2.books[0].books[0].readers.last().unwrap().reader,
        rb2.readers[0].id
    );
}

#[test]
fn persisted_idle_reader_reloads_with_no_copy() {
    let bs = dune_catalog();
    let mut rb = ReaderBase::new();
    paul(&mut rb);
    let text = rb.save_to_string(&bs);
    assert!(text.contains("Reading: None"));
    let mut bs2 = dune_catalog();
    let mut rb2 = ReaderBase::new();
    assert_eq!(rb2.load(&text, &mut bs2), Ok(()));
    assert_eq!(rb2.readers[0].reading, None);
    assert!(!bs2.books[0].books[0].is_using);
}

#[test]
fn loading_an_unresolvable_reading_fails_loudly() {
    let mut bs = BookSystem::new();
    let mut rb = ReaderBase::new();
    let records = vec![ReaderRecord {
        num: 1,
        name: "Paul".to_string(),
        family: "Atreides".to_string(),
        father: "-".to_string(),
        age: 20,
        reading: "Dune Herbert 412".to_string(),
    }];
    assert_eq!(
        rb.load_records(&records, &mut bs),
        Err(ErrorKind::NotFound)
    );
    assert_eq!(rb.len(), 0);
    let r = rb.load("not: [valid", &mut bs);
    assert_eq!(r, Err(ErrorKind::ParseError));
}

#[test]
fn loading_duplicate_identities_fails_atomically() {
    let mut bs = dune_catalog();
    let mut rb = ReaderBase::new();
    let rec = ReaderRecord {
        num: 1,
        name: "Paul".to_string(),
        family: "Atreides".to_string(),
        father: "-".to_string(),
        age: 20,
        reading: "None".to_string(),
    };
    let rec2 = ReaderRecord {
        num: 2,
        name: "Paul".to_string(),
        family: "Atreides".to_string(),
        father: "-".to_string(),
        age: 20,
        reading: "None".to_string(),
    };
    let records = vec![rec, rec2];
    assert_eq!(
        rb.load_records(&records, &mut bs),
        Err(ErrorKind::AlreadyExists)
    );
    // Nothing was applied, not even the first record.
    assert_eq!(rb.len(), 0);
}

#[test]
fn the_book_local_operations() {
    let mut t = TheBook::new("Dune".to_string(), "Herbert".to_string(), 412, 0);
    assert_eq!(t.books.len(), 1);
    assert_eq!(t.get_unused(), Some(0));
    t.add_book(1);
    assert_eq!(t.books.len(), 2);
    t.books[0].begin_borrow(9).unwrap();
    assert_eq!(t.get_unused(), Some(1));
    assert_eq!(t.find_by_reader(9), Some(0));
    assert_eq!(t.find_by_reader(8), None);
    assert_eq!(t.remove_book(5), Err(ErrorKind::IndexOutOfRange));
    assert_eq!(t.remove_book(0), Ok(()));
    assert_eq!(t.books.len(), 1);
    t.remove_all_books();
    assert!(t.books.is_empty());
    assert!(t.add_genre("saga".to_string()));
    assert!(!t.add_genre("saga".to_string()));
    assert!(t.remove_genre(&"saga".to_string()));
    assert_eq!(t.genres, None);
}

#[test]
fn reader_local_history_operations() {
    let mut p = Reader::new(
        "Paul".to_string(),
        "Atreides".to_string(),
        "-".to_string(),
        20,
        0,
    );
    p.start_reading(5);
    p.start_reading(7);
    assert_eq!(p.books, vec![5, 7]);
    assert_eq!(p.reading, Some(7));
    assert_eq!(p.find_book(5), 0);
    assert_eq!(p.find_book(9), 2);
    p.finish_reading();
    assert_eq!(p.reading, None);
    assert_eq!(p.books, vec![5, 7]);
    p.start_reading(5);
    p.remove_book(5);
    assert_eq!(p.books, vec![7]);
    assert_eq!(p.reading, None);
}

#[test]
fn registry_family_and_father_changes() {
    let mut rb = ReaderBase::new();
    paul(&mut rb);
    let r = rb.change_family(
        &"Paul".to_string(),
        &"Atreides".to_string(),
        &"-".to_string(),
        20,
        "Harkonnen".to_string(),
    );
    assert_eq!(r, Ok(()));
    assert_eq!(rb.readers[0].family, "Harkonnen");
    let r2 = rb.change_father(
        &"Paul".to_string(),
        &"Harkonnen".to_string(),
        &"-".to_string(),
        20,
        "Leto".to_string(),
    );
    assert_eq!(r2, Ok(()));
    assert_eq!(rb.readers[0].father, "Leto");
    let r3 = rb.change_family(
        &"Paul".to_string(),
        &"Atreides".to_string(),
        &"-".to_string(),
        20,
        "X".to_string(),
    );
    assert_eq!(r3, Err(ErrorKind::NotFound));
}

#[test]
fn lookups_use_length_as_sentinel() {
    let bs = dune_catalog();
    assert_eq!(
        bs.find_book(&"Dune".to_string(), &"Herbert".to_string(), 412),
        0
    );
    assert_eq!(
        bs.find_book(&"Dune".to_string(), &"Herbert".to_string(), 413),
        1
    );
    let mut rb = ReaderBase::new();
    paul(&mut rb);
    assert_eq!(
        rb.find_reader(
            &"Paul".to_string(),
            &"Atreides".to_string(),
            &"-".to_string(),
            20
        ),
        0
    );
    assert_eq!(
        rb.find_reader(
            &"Paul".to_string(),
            &"Atreides".to_string(),
            &"-".to_string(),
            21
        ),
        1
    );
}

#[test]
fn genre_registry_keeps_order_and_access() {
    let mut g = Genres::new();
    g.add("saga".to_string());
    g.add("classic".to_string());
    assert_eq!(g.len(), 2);
    assert_eq!(g.get(0), "saga");
    assert_eq!(g.get(1), "classic");
}

#[test]
fn find_book_last_returns_latest_occurrence() {
    let mut p = Reader::new(
        "Paul".to_string(),
        "Atreides".to_string(),
        "-".to_string(),
        20,
        0,
    );
    p.start_reading(5);
    p.finish_reading();
    p.start_reading(7);
    p.finish_reading();
    p.start_reading(5);
    assert_eq!(p.books, vec![5, 7, 5]);
    assert_eq!(p.find_book(5), 0);
    assert_eq!(p.find_book_last(5), 2);
    assert_eq!(p.find_book_last(7), 1);
    assert_eq!(p.find_book_last(9), 3);
}

#[test]
fn parse_u8_accepts_plus_and_unicode_whitespace() {
    assert_eq!(parse_u8("+42"), Some(42));
    assert_eq!(parse_u8(" +0 "), Some(0));
    assert_eq!(parse_u8("++1"), None);
    assert_eq!(parse_u8("+"), None);
    assert_eq!(parse_u8("\u{a0}7\u{3000}"), Some(7));
    assert_eq!(parse_u8("\u{2003}200\u{85}"), Some(200));
}

#[test]
fn remove_all_copies_keeps_the_aggregate() {
    let mut bs = dune_catalog();
    bs.add_copy(0).unwrap();
    bs.add_genre(0, "saga".to_string()).unwrap();
    let mut rb = ReaderBase::new();
    paul(&mut rb);
    borrow_book(&mut rb, &mut bs, 0, 0).unwrap();
    assert_eq!(remove_all_copies(&mut rb, &mut bs, 0), Ok(()));
    assert_eq!(bs.books.len(), 1);
    assert!(bs.books[0].books.is_empty());
    assert_eq!(bs.books[0].title, "Dune");
    assert_eq!(bs.books[0].genres.as_ref().unwrap().len(), 1);
    assert_eq!(rb.readers[0].reading, None);
    assert!(rb.readers[0].books.is_empty());
    assert_eq!(
        remove_all_copies(&mut rb, &mut bs, 1),
        Err(ErrorKind::IndexOutOfRange)
    );
}

#[test]
fn loads_a_file_in_the_legacy_field_layout() {
    // A hand-written registry file with the numbered-field key and a
    // reader holding the catalog's only copy.
    let text = "---\n№: 1\nName: Paul\nFamily: Atreides\nFather: \"-\"\nAge: 20\nReading: Dune Herbert 412\n";
    let mut bs = dune_catalog();
    let mut rb = ReaderBase::new();
    assert_eq!(rb.load(text, &mut bs), Ok(()));
    assert_eq!(rb.readers[0].name, "Paul");
    assert_eq!(rb.readers[0].reading, Some(bs.books[0].books[0].id));
    assert!(bs.books[0].books[0].is_using);
}

#[test]
fn genre_no_ops_change_nothing() {
    let mut t = TheBook::new("Dune".to_string(), "Herbert".to_string(), 412, 0);
    t.add_genre("saga".to_string());
    let before = t.genres.clone();
    assert!(!t.add_genre("saga".to_string()));
    assert_eq!(t.genres, before);
    assert!(!t.remove_genre(&"epic".to_string()));
    assert_eq!(t.genres, before);
}
