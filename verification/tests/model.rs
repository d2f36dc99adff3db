use weightlifting_core::Exercise;
use weightlifting_core::WeightliftingError;

fn strings(items: &[&str]) -> Vec<String> {
    items.iter().map(|s| s.to_string()).collect()
}

#[test]
fn test_exercise_creation() {
    let exercise = Exercise::new(
        "Push-up".to_string(),
        Some("Basic bodyweight exercise".to_string()),
        vec!["Chest".to_string(), "Triceps".to_string()],
        None,
        3,
    );

    assert_eq!(exercise.name, "Push-up");
    assert_eq!(
        exercise.description,
        Some("Basic bodyweight exercise".to_string())
    );
    assert_eq!(exercise.muscle_groups, vec!["Chest", "Triceps"]);
    assert_eq!(exercise.equipment_needed, None);
    assert_eq!(exercise.difficulty_level, 3);
    assert!(!exercise.id.is_empty());
}

#[test]
fn lib_test_exercise_creation() {
    let exercise = Exercise::with_id(
        "test-exercise".to_string(),
        "Push-up".to_string(),
        Some("Basic bodyweight exercise".to_string()),
        vec!["Chest".to_string(), "Triceps".to_string()],
        None,
        5,
    );

    assert_eq!(exercise.id, "test-exercise");
    assert_eq!(exercise.name, "Push-up");
    assert_eq!(exercise.muscle_groups, vec!["Chest", "Triceps"]);
    assert_eq!(exercise.difficulty_level, 5);
}

#[test]
fn difficulty_is_clamped_at_construction() {
    let cases: [(u8, u8); 7] = [(0, 1), (1, 1), (2, 2), (7, 7), (10, 10), (11, 10), (255, 10)];
    for (given, expected) in cases {
        let by_new = Exercise::new("Squat".to_string(), None, strings(&["Legs"]), None, given);
        assert_eq!(by_new.difficulty_level, expected);
        let by_id = Exercise::with_id(
            "id".to_string(),
            "Squat".to_string(),
            None,
            strings(&["Legs"]),
            None,
            given,
        );
        assert_eq!(by_id.difficulty_level, expected);
        let by_uuid =
            Exercise::new_with_uuid("Squat".to_string(), None, strings(&["Legs"]), None, given);
        assert_eq!(by_uuid.difficulty_level, expected);
    }
}

#[test]
fn generated_ids_are_canonical_uuids() {
    let a = Exercise::new("A".to_string(), None, strings(&["Legs"]), None, 5);
    let b = Exercise::new("B".to_string(), None, strings(&["Legs"]), None, 5);
    assert_ne!(a.id, b.id);
    for id in [&a.id, &b.id] {
        assert_eq!(id.len(), 36);
        for (i, c) in id.chars().enumerate() {
            if i == 8 || i == 13 || i == 18 || i == 23 {
                assert_eq!(c, '-', "in {id}");
            } else {
                assert!(c.is_ascii_hexdigit() && !c.is_ascii_uppercase(), "in {id}");
            }
        }
    }
}

#[test]
fn validate_accepts_a_full_record() {
    let e = Exercise::new(
        "Deadlift".to_string(),
        Some("Compound pull".to_string()),
        strings(&["Hamstrings", "Back"]),
        Some("Barbell".to_string()),
        9,
    );
    assert!(e.validate().is_ok());
}

#[test]
fn validate_rejects_blank_name() {
    let e = Exercise::new("   \t\n".to_string(), None, strings(&["Legs"]), None, 5);
    assert_eq!(e.validate(), Err("Exercise name cannot be empty".to_string()));
    let empty = Exercise::new(String::new(), None, strings(&["Legs"]), None, 5);
    assert_eq!(
        empty.validate(),
        Err("Exercise name cannot be empty".to_string())
    );
}

#[test]
fn validate_rejects_empty_muscle_groups() {
    let e = Exercise::new("Squat".to_string(), None, Vec::new(), None, 5);
    assert_eq!(
        e.validate(),
        Err("Exercise must target at least one muscle group".to_string())
    );
}

#[test]
fn validate_rejects_out_of_range_difficulty() {
    // Construction clamps, so an out-of-range value can only be put in the
    // field directly.
    let e = Exercise {
        id: "x".to_string(),
        name: "Squat".to_string(),
        description: None,
        muscle_groups: strings(&["Legs"]),
        equipment_needed: None,
        difficulty_level: 0,
    };
    assert_eq!(
        e.validate(),
        Err("Difficulty level must be between 1 and 10, got 0".to_string())
    );
    let big = Exercise {
        difficulty_level: 200,
        ..e.clone()
    };
    assert_eq!(
        big.validate(),
        Err("Difficulty level must be between 1 and 10, got 200".to_string())
    );
    let mid = Exercise {
        difficulty_level: 42,
        ..e
    };
    assert_eq!(
        mid.validate(),
        Err("Difficulty level must be between 1 and 10, got 42".to_string())
    );
}

#[test]
fn difficulty_description_bands() {
    let expected: [(u8, &str); 10] = [
        (1, "Very Easy"),
        (2, "Very Easy"),
        (3, "Easy"),
        (4, "Easy"),
        (5, "Moderate"),
        (6, "Moderate"),
        (7, "Hard"),
        (8, "Hard"),
        (9, "Very Hard"),
        (10, "Very Hard"),
    ];
    for (d, text) in expected {
        let e = Exercise::new("X".to_string(), None, strings(&["Legs"]), None, d);
        assert_eq!(e.difficulty_description(), text);
    }
    let raw = Exercise {
        id: "x".to_string(),
        name: "X".to_string(),
        description: None,
        muscle_groups: strings(&["Legs"]),
        equipment_needed: None,
        difficulty_level: 0,
    };
    assert_eq!(raw.difficulty_description(), "Unknown");
}

#[test]
fn equipment_and_muscle_group_queries() {
    let with = Exercise::new(
        "Bench Press".to_string(),
        None,
        strings(&["Chest", "Triceps", "Shoulders"]),
        Some("Barbell".to_string()),
        6,
    );
    assert!(with.requires_equipment());
    assert_eq!(with.muscle_group_count(), 3);

    let without = Exercise::new("Plank".to_string(), None, strings(&["Core"]), None, 2);
    assert!(!without.requires_equipment());
    assert_eq!(without.muscle_group_count(), 1);
}

#[test]
fn error_messages_name_their_kind() {
    let db = WeightliftingError::DatabaseError {
        message: "boom".to_string(),
    };
    assert_eq!(db.message(), "Database error: boom");
    let nf = WeightliftingError::ExerciseNotFound {
        id: "t1".to_string(),
    };
    assert_eq!(nf.message(), "Exercise not found with id: t1");
    let inv = WeightliftingError::InvalidInput {
        message: "bad".to_string(),
    };
    assert_eq!(inv.message(), "Invalid input: bad");
    let pool = WeightliftingError::PoolError {
        message: "dry".to_string(),
    };
    assert_eq!(pool.message(), "Connection pool error: dry");
}
