use weightlifting_core::create_exercise_repository;
use weightlifting_core::repository::exercise_from_lookup;
use weightlifting_core::repository::row_to_exercise;
use weightlifting_core::repository::sorted_by_name_check;
use weightlifting_core::repository::ExerciseRow;
use weightlifting_core::create_in_memory_repository;
use weightlifting_core::Exercise;
use weightlifting_core::WeightliftingError;

fn strings(items: &[&str]) -> Vec<String> {
    items.iter().map(|s| s.to_string()).collect()
}

#[test]
fn test_in_memory_repository_crud() {
    let repo = create_in_memory_repository().expect("Failed to create repository");

    let exercise = Exercise::with_id(
        "test-123".to_string(),
        "Squat".to_string(),
        Some("Compound leg exercise".to_string()),
        vec!["Quadriceps".to_string(), "Glutes".to_string()],
        Some("Barbell".to_string()),
        7,
    );

    repo.add_exercise(exercise.clone()).expect("Failed to add exercise");

    let retrieved = repo
        .get_exercise("test-123".to_string())
        .expect("Failed to get exercise");
    assert_eq!(retrieved, exercise);

    let all_exercises = repo.get_all_exercises().expect("Failed to get all exercises");
    assert_eq!(all_exercises.len(), 1);
    assert_eq!(all_exercises[0], exercise);

    let deleted = repo
        .delete_exercise("test-123".to_string())
        .expect("Failed to delete exercise");
    assert!(deleted);

    let result = repo.get_exercise("test-123".to_string());
    assert!(result.is_err());
}

#[test]
fn lib_test_in_memory_repository_crud() {
    let repo = create_in_memory_repository().expect("Failed to create repository");

    let exercise = Exercise::with_id(
        "test-123".to_string(),
        "Squat".to_string(),
        Some("Leg exercise".to_string()),
        vec!["Quadriceps".to_string(), "Glutes".to_string()],
        Some("Barbell".to_string()),
        6,
    );

    repo.add_exercise(exercise.clone()).expect("Failed to add exercise");

    let retrieved = repo
        .get_exercise("test-123".to_string())
        .expect("Failed to get exercise");
    assert_eq!(retrieved.name, "Squat");
    assert_eq!(retrieved.difficulty_level, 6);

    let all_exercises = repo.get_all_exercises().expect("Failed to get all exercises");
    assert_eq!(all_exercises.len(), 1);
}

#[test]
fn test_file_based_repository() {
    let temp_file = tempfile::NamedTempFile::new().expect("Failed to create temp file");
    let db_path = temp_file.path().to_str().unwrap().to_string();

    let repo = create_exercise_repository(db_path.clone()).expect("Failed to create repository");

    let exercise = Exercise::with_id(
        "ex1".to_string(),
        "Bench Press".to_string(),
        Some("Upper body strength exercise".to_string()),
        vec![
            "Chest".to_string(),
            "Triceps".to_string(),
            "Shoulders".to_string(),
        ],
        Some("Barbell".to_string()),
        6,
    );

    repo.add_exercise(exercise.clone()).expect("Failed to add exercise");

    let retrieved = repo
        .get_exercise("ex1".to_string())
        .expect("Failed to get exercise");
    assert_eq!(retrieved, exercise);
}

#[test]
fn lib_test_file_based_repository() {
    let temp_file = tempfile::NamedTempFile::new().expect("Failed to create temp file");
    let db_path = temp_file.path().to_str().unwrap().to_string();

    let repo = create_exercise_repository(db_path.clone()).expect("Failed to create repository");

    let exercise = Exercise::with_id(
        "file-test".to_string(),
        "Deadlift".to_string(),
        Some("Full body compound movement".to_string()),
        vec![
            "Hamstrings".to_string(),
            "Glutes".to_string(),
            "Back".to_string(),
        ],
        Some("Barbell".to_string()),
        9,
    );

    repo.add_exercise(exercise.clone()).expect("Failed to add exercise");
    let retrieved = repo
        .get_exercise("file-test".to_string())
        .expect("Failed to get exercise");
    assert_eq!(retrieved.name, "Deadlift");
}

#[test]
fn round_trip_preserves_every_field_and_order() {
    let repo = create_in_memory_repository().expect("open");
    let exercise = Exercise::with_id(
        "rt-1".to_string(),
        "Weird \"Lift\" \\ with\nnewline".to_string(),
        Some("desc with \t tab".to_string()),
        strings(&["Zeta", "Alpha", "mid\"dle", "uni💪code", "\u{1f}low"]),
        None,
        4,
    );
    repo.add_exercise(exercise.clone()).expect("add");
    let back = repo.get_exercise("rt-1".to_string()).expect("get");
    assert_eq!(back, exercise);
    assert_eq!(
        back.muscle_groups,
        strings(&["Zeta", "Alpha", "mid\"dle", "uni💪code", "\u{1f}low"])
    );
}

#[test]
fn stored_difficulty_is_the_clamped_one() {
    let repo = create_in_memory_repository().expect("open");
    let e = Exercise::with_id(
        "c1".to_string(),
        "Squat".to_string(),
        None,
        strings(&["Legs"]),
        None,
        15,
    );
    assert_eq!(e.difficulty_level, 10);
    repo.add_exercise(e).expect("add");
    let back = repo.get_exercise("c1".to_string()).expect("get");
    assert_eq!(back.difficulty_level, 10);
}

#[test]
fn opening_twice_keeps_existing_rows() {
    let temp_file = tempfile::NamedTempFile::new().expect("temp file");
    let db_path = temp_file.path().to_str().unwrap().to_string();

    let first = create_exercise_repository(db_path.clone()).expect("first open");
    let exercise = Exercise::with_id(
        "keep-1".to_string(),
        "Row".to_string(),
        Some("Back pull".to_string()),
        strings(&["Back", "Biceps"]),
        Some("Dumbbell".to_string()),
        5,
    );
    first.add_exercise(exercise.clone()).expect("add");
    drop(first);

    let second = create_exercise_repository(db_path).expect("second open");
    let back = second.get_exercise("keep-1".to_string()).expect("get after reopen");
    assert_eq!(back, exercise);
}

#[test]
fn get_and_delete_disagree_about_absence() {
    let repo = create_in_memory_repository().expect("open");

    match repo.get_exercise("absent".to_string()) {
        Err(WeightliftingError::ExerciseNotFound { id }) => assert_eq!(id, "absent"),
        other => panic!("expected ExerciseNotFound, got {other:?}"),
    }

    assert_eq!(repo.delete_exercise("absent".to_string()), Ok(false));
}

#[test]
fn duplicate_ids_are_rejected_and_the_first_row_stays() {
    let repo = create_in_memory_repository().expect("open");
    let first = Exercise::with_id(
        "dup".to_string(),
        "Original".to_string(),
        None,
        strings(&["Legs"]),
        None,
        3,
    );
    let second = Exercise::with_id(
        "dup".to_string(),
        "Impostor".to_string(),
        None,
        strings(&["Arms"]),
        None,
        8,
    );
    repo.add_exercise(first.clone()).expect("first add");
    match repo.add_exercise(second) {
        Err(WeightliftingError::DatabaseError { .. }) => {}
        other => panic!("expected DatabaseError, got {other:?}"),
    }
    let back = repo.get_exercise("dup".to_string()).expect("get");
    assert_eq!(back, first);
}

#[test]
fn list_all_is_sorted_by_name() {
    let repo = create_in_memory_repository().expect("open");
    for (id, name) in [("s", "Squat"), ("p", "Push-up"), ("d", "Deadlift")] {
        let e = Exercise::with_id(
            id.to_string(),
            name.to_string(),
            None,
            strings(&["Legs"]),
            None,
            5,
        );
        repo.add_exercise(e).expect("add");
    }
    let all = repo.get_all_exercises().expect("list");
    let names: Vec<&str> = all.iter().map(|e| e.name.as_str()).collect();
    assert_eq!(names, vec!["Deadlift", "Push-up", "Squat"]);
}

#[test]
fn empty_store_lists_nothing() {
    let repo = create_in_memory_repository().expect("open");
    assert_eq!(repo.get_all_exercises().expect("list"), Vec::new());
}

#[test]
fn end_to_end_scenario() {
    let repo = create_in_memory_repository().expect("open");
    let exercise = Exercise::with_id(
        "t1".to_string(),
        "Squat".to_string(),
        None,
        strings(&["Quadriceps", "Glutes"]),
        None,
        6,
    );

    repo.add_exercise(exercise.clone()).expect("add");

    let got = repo.get_exercise("t1".to_string()).expect("get");
    assert_eq!(got, exercise);

    let all = repo.get_all_exercises().expect("list");
    assert_eq!(all, vec![exercise]);

    assert_eq!(repo.delete_exercise("t1".to_string()), Ok(true));

    match repo.get_exercise("t1".to_string()) {
        Err(WeightliftingError::ExerciseNotFound { id }) => assert_eq!(id, "t1"),
        other => panic!("expected ExerciseNotFound, got {other:?}"),
    }
}

#[test]
fn in_memory_stores_are_private_to_their_handle() {
    let a = create_in_memory_repository().expect("open a");
    let b = create_in_memory_repository().expect("open b");
    let e = Exercise::with_id(
        "only-a".to_string(),
        "Squat".to_string(),
        None,
        strings(&["Legs"]),
        None,
        5,
    );
    a.add_exercise(e).expect("add");
    assert!(a.get_exercise("only-a".to_string()).is_ok());
    assert!(matches!(
        b.get_exercise("only-a".to_string()),
        Err(WeightliftingError::ExerciseNotFound { .. })
    ));
}

#[test]
fn shared_handles_see_one_store() {
    let repo = create_in_memory_repository().expect("open");
    let clone = repo.clone();
    let e = Exercise::with_id(
        "shared".to_string(),
        "Squat".to_string(),
        None,
        strings(&["Legs"]),
        None,
        5,
    );
    repo.add_exercise(e.clone()).expect("add");
    let seen = clone.get_exercise("shared".to_string()).expect("get via clone");
    assert_eq!(seen, e);
}

#[test]
fn corrupt_rows_read_back_as_database_errors() {
    let good = ExerciseRow {
        id: "r1".to_string(),
        name: "Squat".to_string(),
        description: None,
        muscle_groups_json: "[\"Legs\"]".to_string(),
        equipment_needed: None,
        difficulty_level: 5,
    };
    let decoded = row_to_exercise(&good).expect("good row");
    assert_eq!(decoded.muscle_groups, vec!["Legs"]);
    assert_eq!(decoded.difficulty_level, 5);

    let corrupt = ExerciseRow {
        muscle_groups_json: "oops".to_string(),
        ..good.clone()
    };
    assert!(matches!(
        row_to_exercise(&corrupt),
        Err(WeightliftingError::DatabaseError { .. })
    ));

    let out_of_range = ExerciseRow {
        difficulty_level: 300,
        ..good.clone()
    };
    assert!(matches!(
        row_to_exercise(&out_of_range),
        Err(WeightliftingError::DatabaseError { .. })
    ));

    match exercise_from_lookup(None, "missing".to_string()) {
        Err(WeightliftingError::ExerciseNotFound { id }) => assert_eq!(id, "missing"),
        other => panic!("expected ExerciseNotFound, got {other:?}"),
    }
    let found = exercise_from_lookup(Some(good), "r1".to_string()).expect("found row");
    assert_eq!(found.id, "r1");
}

#[test]
fn rows_removed_reflects_the_count() {
    assert!(!weightlifting_core::repository::rows_removed(0));
    assert!(weightlifting_core::repository::rows_removed(1));
    assert!(weightlifting_core::repository::rows_removed(5));
}

#[test]
fn sorted_by_name_check_decides_the_order() {
    let mk = |id: &str, name: &str| {
        Exercise::with_id(id.to_string(), name.to_string(), None, strings(&["Legs"]), None, 5)
    };
    let empty: Vec<Exercise> = Vec::new();
    assert!(sorted_by_name_check(&empty));
    assert!(sorted_by_name_check(&vec![mk("a", "Squat")]));
    assert!(sorted_by_name_check(&vec![
        mk("d", "Deadlift"),
        mk("p", "Push-up"),
        mk("p2", "Push-up"),
        mk("s", "Squat"),
    ]));
    assert!(!sorted_by_name_check(&vec![mk("s", "Squat"), mk("d", "Deadlift")]));
    // A prefix sorts before its extensions.
    assert!(sorted_by_name_check(&vec![mk("p", "Push"), mk("q", "Push-up")]));
    assert!(!sorted_by_name_check(&vec![mk("q", "Push-up"), mk("p", "Push")]));
}
