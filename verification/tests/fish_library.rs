use which_bowl::fish::{
    image_path_is_contained, Fish, FishLibrary, LibraryError, LibraryStats, ValidationError,
};

fn test_fish(id: &str, image_path: &str) -> Fish {
    Fish {
        id: id.to_string(),
        name: id.to_string(),
        species: "Test species".to_string(),
        facts: vec!["Test fact one".to_string(), "Test fact two".to_string()],
        image_path: image_path.to_string(),
        is_real: true,
        fact_is_real: true,
    }
}

fn readable_only(available: &'static str) -> impl Fn(&Fish) -> bool {
    move |fish: &Fish| fish.image_path == available
}

#[test]
fn playtest_selection_only_returns_fish_with_readable_assets() {
    let mut library = FishLibrary::new();
    library
        .add_fish(test_fish("available", "fish/available.png"))
        .unwrap();
    library
        .add_fish(test_fish("missing", "fish/missing.png"))
        .unwrap();

    assert_eq!(library.total_count(), 2);
    assert_eq!(
        library.playtest_eligible_count(readable_only("fish/available.png")),
        1
    );
    for _ in 0..10 {
        assert_eq!(
            library
                .select_random_playtest_fish(readable_only("fish/available.png"))
                .unwrap()
                .id,
            "available"
        );
    }
}

#[test]
fn playtest_selection_reports_when_no_readable_assets_exist() {
    let mut library = FishLibrary::new();
    library
        .add_fish(test_fish("missing", "fish/missing.png"))
        .unwrap();

    assert!(matches!(
        library.select_random_playtest_fish(readable_only("fish/available.png")),
        Err(LibraryError::NoEligibleFish)
    ));
}

#[test]
fn fish_requires_non_empty_facts() {
    let mut fish = test_fish("facts", "fish/facts.png");
    fish.facts.clear();
    assert!(matches!(fish.validate(), Err(ValidationError::EmptyFacts)));

    fish.facts = vec!["   ".to_string()];
    assert!(matches!(
        fish.validate(),
        Err(ValidationError::EmptyFact(0))
    ));
}

#[test]
fn valid_fish_passes_validation() {
    assert!(test_fish("clownfish_001", "fish/clownfish.png").validate().is_ok());
}

#[test]
fn invalid_id_is_reported_first() {
    let mut fish = test_fish("bad id!", "fish/x.png");
    fish.name = "   ".to_string();
    match fish.validate() {
        Err(ValidationError::InvalidId(id)) => assert_eq!(id, "bad id!"),
        other => panic!("unexpected {:?}", other),
    }
    let empty = test_fish("", "fish/x.png");
    assert!(matches!(empty.validate(), Err(ValidationError::InvalidId(_))));
}

#[test]
fn blank_name_and_species_are_reported() {
    let mut fish = test_fish("guppy_001", "fish/guppy.png");
    fish.name = " \t ".to_string();
    match fish.validate() {
        Err(ValidationError::EmptyField(field)) => assert_eq!(field, "name"),
        other => panic!("unexpected {:?}", other),
    }
    let mut fish = test_fish("guppy_001", "fish/guppy.png");
    fish.species = String::new();
    match fish.validate() {
        Err(ValidationError::EmptyField(field)) => assert_eq!(field, "species"),
        other => panic!("unexpected {:?}", other),
    }
}

#[test]
fn long_fact_is_reported_with_its_byte_length() {
    let mut fish = test_fish("betta_001", "fish/betta.png");
    fish.facts = vec!["ok".to_string(), "a".repeat(501)];
    match fish.validate() {
        Err(ValidationError::FactTooLong { index, length }) => {
            assert_eq!(index, 1);
            assert_eq!(length, 501);
        }
        other => panic!("unexpected {:?}", other),
    }
    // 250 two-byte characters are 500 bytes: accepted.
    fish.facts = vec!["é".repeat(250)];
    assert!(fish.validate().is_ok());
    // 251 of them are 502 bytes: refused, measured in bytes.
    fish.facts = vec!["é".repeat(251)];
    match fish.validate() {
        Err(ValidationError::FactTooLong { index, length }) => {
            assert_eq!(index, 0);
            assert_eq!(length, 502);
        }
        other => panic!("unexpected {:?}", other),
    }
}

#[test]
fn image_path_without_extension_is_refused() {
    let fish = test_fish("discus_001", "fish/discus");
    match fish.validate() {
        Err(ValidationError::InvalidImagePath(path)) => assert_eq!(path, "fish/discus"),
        other => panic!("unexpected {:?}", other),
    }
    let hidden = test_fish("discus_002", "fish/.hidden");
    assert!(matches!(hidden.validate(), Err(ValidationError::InvalidImagePath(_))));
    assert!(test_fish("discus_003", "fish/discus.png")
        .validate_given_extension(false)
        .is_err());
    assert!(test_fish("discus_003", "fish/discus")
        .validate_given_extension(true)
        .is_ok());
}

#[test]
fn added_fish_is_found_and_duplicates_are_refused() {
    let mut library = FishLibrary::new();
    assert!(library.add_fish(test_fish("salmon_001", "fish/salmon.png")).is_ok());
    assert_eq!(library.total_count(), 1);
    assert_eq!(library.get_fish("salmon_001").unwrap().name, "salmon_001");
    assert!(library.get_fish("salmon_002").is_none());

    let mut second = test_fish("salmon_001", "fish/other.png");
    second.name = "Other".to_string();
    match library.add_fish(second) {
        Err(LibraryError::DuplicateId(id)) => assert_eq!(id, "salmon_001"),
        other => panic!("unexpected {:?}", other),
    }
    assert_eq!(library.total_count(), 1);
    assert_eq!(library.get_fish("salmon_001").unwrap().image_path, "fish/salmon.png");
}

#[test]
fn invalid_fish_is_refused_without_changing_the_library() {
    let mut library = FishLibrary::new();
    let mut fish = test_fish("koi_001", "fish/koi.png");
    fish.facts.clear();
    assert!(matches!(
        library.add_fish(fish),
        Err(LibraryError::Validation(ValidationError::EmptyFacts))
    ));
    assert_eq!(library.total_count(), 0);
}

#[test]
fn stats_report_the_total() {
    let mut library = FishLibrary::default();
    let stats: LibraryStats = library.stats();
    assert_eq!(stats.total_fish, 0);
    library.add_fish(test_fish("a", "fish/a.png")).unwrap();
    library.add_fish(test_fish("b", "fish/b.png")).unwrap();
    assert_eq!(library.stats().total_fish, 2);
}

#[test]
fn empty_library_cannot_select() {
    let mut library = FishLibrary::new();
    assert!(matches!(library.select_random_fish(), Err(LibraryError::EmptyLibrary)));
    assert!(matches!(
        library.select_random_playtest_fish(|_: &Fish| true),
        Err(LibraryError::NoEligibleFish)
    ));
    assert_eq!(library.playtest_eligible_count(|_: &Fish| true), 0);
}

#[test]
fn selection_returns_library_fish_and_leaves_library_intact() {
    let mut library = FishLibrary::new();
    for id in ["a", "b", "c", "d", "e", "f", "g"] {
        library.add_fish(test_fish(id, &format!("fish/{}.png", id))).unwrap();
    }
    for _ in 0..50 {
        let id = library.select_random_fish().unwrap().id.clone();
        assert!(library.get_fish(&id).is_some());
    }
    assert_eq!(library.total_count(), 7);
    library.clear_history();
    assert_eq!(library.total_count(), 7);
}

#[test]
fn single_fish_is_selected_again_after_three_misses() {
    let mut library = FishLibrary::new();
    library.add_fish(test_fish("only", "fish/only.png")).unwrap();
    for _ in 0..8 {
        assert_eq!(library.select_random_fish().unwrap().id, "only");
    }
}

#[test]
fn recently_selected_fish_is_taken_only_at_the_last_draw() {
    let mut library = FishLibrary::new();
    library.add_fish(test_fish("only", "fish/only.png")).unwrap();
    library.add_fish(test_fish("other", "fish/other.png")).unwrap();
    assert!(library.accepts_draw(0, "only"));
    library.clear_history();
    let chosen = library.select_random_fish().unwrap().id.clone();
    let other = if chosen == "only" { "other" } else { "only" };
    assert!(!library.accepts_draw(0, &chosen));
    assert!(!library.accepts_draw(1, &chosen));
    assert!(!library.accepts_draw(2, &chosen));
    assert!(library.accepts_draw(3, &chosen));
    assert!(library.accepts_draw(0, other));
    library.clear_history();
    assert!(library.accepts_draw(0, &chosen));
}

#[test]
fn selection_every_fish_is_reachable() {
    let mut library = FishLibrary::new();
    library.add_fish(test_fish("left", "fish/left.png")).unwrap();
    library.add_fish(test_fish("right", "fish/right.png")).unwrap();
    let mut seen_left = false;
    let mut seen_right = false;
    for _ in 0..200 {
        let id = library.select_random_fish().unwrap().id.clone();
        if id == "left" {
            seen_left = true;
        } else {
            seen_right = true;
        }
    }
    assert!(seen_left && seen_right);
}

#[test]
fn batch_counts_accepted_fish_and_reports_refusals() {
    let mut library = FishLibrary::new();
    let mut bad = test_fish("bad", "fish/bad.png");
    bad.facts.clear();
    let batch = vec![
        test_fish("one", "fish/one.png"),
        bad,
        test_fish("two", "fish/two.png"),
        test_fish("one", "fish/again.png"),
    ];
    match library.add_fish_batch(batch) {
        Err(partial) => {
            assert_eq!(partial.loaded, 2);
            assert_eq!(partial.rejected.len(), 2);
            assert_eq!(partial.rejected[0].id, "bad");
            assert!(matches!(
                partial.rejected[0].error,
                LibraryError::Validation(ValidationError::EmptyFacts)
            ));
            assert_eq!(partial.rejected[1].id, "one");
            assert!(matches!(partial.rejected[1].error, LibraryError::DuplicateId(_)));
        }
        Ok(count) => panic!("unexpected full load of {}", count),
    }
    assert_eq!(library.total_count(), 2);

    let mut fresh = FishLibrary::new();
    let count = fresh
        .add_fish_batch(vec![test_fish("x", "fish/x.png"), test_fish("y", "fish/y.png")])
        .unwrap();
    assert_eq!(count, 2);
    assert_eq!(fresh.total_count(), count);
}

#[test]
fn validation_error_converts_into_library_error() {
    let err: LibraryError = ValidationError::EmptyFacts.into();
    assert!(matches!(err, LibraryError::Validation(ValidationError::EmptyFacts)));
}

#[test]
fn cloned_fish_keeps_its_contents() {
    let fish = test_fish("copy_me", "fish/copy.png");
    let copy = fish.clone();
    assert_eq!(copy, fish);
}

#[test]
fn name_and_species_length_caps() {
    let mut fish = test_fish("cap_001", "fish/cap.png");
    fish.name = "n".repeat(100);
    fish.species = "s".repeat(200);
    assert!(fish.validate().is_ok());
    fish.name = "é".repeat(101);
    match fish.validate() {
        Err(ValidationError::FieldTooLong { field, length }) => {
            assert_eq!(field, "name");
            assert_eq!(length, 101);
        }
        other => panic!("unexpected {:?}", other),
    }
    fish.name = "n".repeat(100);
    fish.species = "s".repeat(201);
    match fish.validate() {
        Err(ValidationError::FieldTooLong { field, length }) => {
            assert_eq!(field, "species");
            assert_eq!(length, 201);
        }
        other => panic!("unexpected {:?}", other),
    }
}

#[test]
fn error_messages() {
    assert_eq!(ValidationError::InvalidId("a b".to_string()).message(), "Invalid fish ID: a b");
    assert_eq!(ValidationError::EmptyField("name".to_string()).message(), "Empty required field: name");
    assert_eq!(
        ValidationError::FieldTooLong { field: "species".to_string(), length: 201 }.message(),
        "Field species too long (201 chars)"
    );
    assert_eq!(ValidationError::EmptyFacts.message(), "Fish must provide at least one fact");
    assert_eq!(ValidationError::EmptyFact(0).message(), "Fact 1 is empty");
    assert_eq!(
        ValidationError::FactTooLong { index: 9, length: 501 }.message(),
        "Fact 10 too long (501 chars, max 500)"
    );
    assert_eq!(
        ValidationError::InvalidImagePath("fish/x".to_string()).message(),
        "Invalid image path: fish/x"
    );
    assert_eq!(
        LibraryError::Validation(ValidationError::EmptyFacts).message(),
        "Validation error: Fish must provide at least one fact"
    );
    assert_eq!(LibraryError::DuplicateId("koi".to_string()).message(), "Duplicate fish ID: koi");
    assert_eq!(LibraryError::EmptyLibrary.message(), "No fish available for selection");
    assert_eq!(
        LibraryError::NoEligibleFish.message(),
        "No fish with a readable image is available for playtest selection"
    );
    assert_eq!(
        ValidationError::EmptyFact(usize::MAX).message(),
        format!("Fact {} is empty", usize::MAX as u128 + 1)
    );
}

#[test]
fn image_paths_must_stay_inside_the_assets_directory() {
    assert!(image_path_is_contained("fish/clownfish.png"));
    assert!(image_path_is_contained("clownfish.png"));
    assert!(!image_path_is_contained(".."));
    assert!(!image_path_is_contained("../secret.png"));
    assert!(!image_path_is_contained("fish/../../secret.png"));
    assert!(!image_path_is_contained(if std::path::Path::new("/x").is_absolute() {
        "/etc/passwd.png"
    } else {
        "C:\\etc\\passwd.png"
    }));
}

#[test]
fn playtest_skips_fish_whose_image_path_escapes() {
    let mut library = FishLibrary::new();
    library.add_fish(test_fish("escape", "../escape.png")).unwrap();
    library.add_fish(test_fish("inside", "fish/inside.png")).unwrap();
    assert_eq!(library.playtest_eligible_count(|_: &Fish| true), 1);
    for _ in 0..10 {
        assert_eq!(
            library.select_random_playtest_fish(|_: &Fish| true).unwrap().id,
            "inside"
        );
    }
    assert_eq!(library.total_count(), 2);
}

#[test]
fn non_ascii_identifiers_follow_unicode() {
    assert!(test_fish("poisson_é", "fish/p.png").validate().is_ok());
    assert!(matches!(
        test_fish("fish-1", "fish/p.png").validate(),
        Err(ValidationError::InvalidId(_))
    ));
}

#[test]
fn extension_is_read_from_the_file_name() {
    for path in [".png", "fish/.hidden", "fish.d/x"] {
        assert!(
            matches!(test_fish("ext_001", path).validate(), Err(ValidationError::InvalidImagePath(_))),
            "{}",
            path
        );
    }
    for path in ["fish/x.png", "a.b/c.d", "x."] {
        assert!(test_fish("ext_002", path).validate().is_ok(), "{}", path);
    }
}

#[test]
fn playtest_skips_fish_whose_image_path_climbs_through_an_inner_segment() {
    let mut library = FishLibrary::new();
    library.add_fish(test_fish("climb", "fish/../../secret.png")).unwrap();
    library.add_fish(test_fish("stay", "fish/stay.png")).unwrap();
    assert_eq!(library.playtest_eligible_count(|_: &Fish| true), 1);
    for _ in 0..10 {
        assert_eq!(
            library.select_random_playtest_fish(|_: &Fish| true).unwrap().id,
            "stay"
        );
    }
    assert!(image_path_is_contained("fish/a..b/x.png"));
}
