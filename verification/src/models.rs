//! The exercise record: construction, clamping, validation and derived
//! read-only queries.
//!
//! Construction clamps `difficulty_level` into `[1, 10]` and never fails;
//! emptiness of the name or of the muscle-group list is only caught by the
//! separate, caller-invoked [`Exercise::validate`].

use vstd::prelude::*;
use vstd::string::StrSliceExecFns;
use vstd::string::StringExecFns;

use crate::json::is_hex_lower;
use crate::json::push_char;

verus! {

/// An exercise record, the sole persisted entity.
#[derive(Debug, Clone, PartialEq)]
pub struct Exercise {
    /// Opaque unique identifier; generated as a UUID-v4 string when omitted.
    pub id: String,
    /// Human-readable name; validation requires it to be non-blank.
    pub name: String,
    /// Optional free-form description.
    pub description: Option<String>,
    /// Ordered list of targeted muscle-group labels; order is preserved
    /// through storage round trips.
    pub muscle_groups: Vec<String>,
    /// Optional equipment; its presence distinguishes equipment-based from
    /// bodyweight exercises.
    pub equipment_needed: Option<String>,
    /// Difficulty on a 1-10 scale; clamped into range at construction.
    pub difficulty_level: u8,
}

/// The mathematical value of an [`Exercise`]: every field as a sequence of
/// characters (or an option or sequence of such), and the difficulty as an
/// unbounded integer.
pub ghost struct ExerciseView {
    pub id: Seq<char>,
    pub name: Seq<char>,
    pub description: Option<Seq<char>>,
    pub muscle_groups: Seq<Seq<char>>,
    pub equipment_needed: Option<Seq<char>>,
    pub difficulty_level: int,
}

/// The view of an optional string.
pub open spec fn opt_view(o: Option<String>) -> Option<Seq<char>> {
    match o {
        Some(s) => Some(s@),
        None => None,
    }
}

/// The views of a list of strings, in order.
pub open spec fn seq_views(v: Seq<String>) -> Seq<Seq<char>> {
    v.map_values(|s: String| s@)
}

impl View for Exercise {
    type V = ExerciseView;

    open spec fn view(&self) -> ExerciseView {
        ExerciseView {
            id: self.id@,
            name: self.name@,
            description: opt_view(self.description),
            muscle_groups: seq_views(self.muscle_groups@),
            equipment_needed: opt_view(self.equipment_needed),
            difficulty_level: self.difficulty_level as int,
        }
    }
}

/// What construction does to an out-of-range difficulty: values below 1 become
/// 1, values above 10 become 10, values in range pass through.
pub open spec fn clamp_difficulty(d: u8) -> u8 {
    if d < 1 {
        1
    } else if d > 10 {
        10
    } else {
        d
    }
}

/// Law: the clamped difficulty always lies in the inclusive range `[1, 10]`,
/// and an in-range input is returned unchanged.
pub proof fn lemma_clamp_difficulty_in_range(d: u8)
    ensures
        1 <= clamp_difficulty(d) <= 10,
        1 <= d <= 10 ==> clamp_difficulty(d) == d,
{
}

/// Whether `u` is the code of a Unicode white-space character (the set that
/// `char::is_whitespace` recognises).
pub open spec fn is_space_code(u: u32) -> bool {
    ||| u == 0x9
    ||| u == 0xa
    ||| u == 0xb
    ||| u == 0xc
    ||| u == 0xd
    ||| u == 0x20
    ||| u == 0x85
    ||| u == 0xa0
    ||| u == 0x1680
    ||| (0x2000 <= u && u <= 0x200a)
    ||| u == 0x2028
    ||| u == 0x2029
    ||| u == 0x202f
    ||| u == 0x205f
    ||| u == 0x3000
}

/// A string is blank when every character is white space; trimming such a
/// string leaves it empty.
pub open spec fn is_blank(s: Seq<char>) -> bool {
    forall|i: int| 0 <= i < s.len() ==> is_space_code(#[trigger] s[i] as u32)
}

/// Whether `c` is a Unicode white-space character.
fn char_is_space(c: char) -> (r: bool)
    ensures
        r == is_space_code(c as u32),
{
    let u = c as u32;
    u == 0x9 || u == 0xa || u == 0xb || u == 0xc || u == 0xd || u == 0x20 || u == 0x85 || u == 0xa0
        || u == 0x1680 || (0x2000 <= u && u <= 0x200a) || u == 0x2028 || u == 0x2029 || u == 0x202f
        || u == 0x205f || u == 0x3000
}

/// Whether `s` consists of white space alone.
fn str_is_blank(s: &str) -> (r: bool)
    ensures
        r == is_blank(s@),
{
    let n = s.unicode_len();
    let mut i: usize = 0;
    while i < n
        invariant
            n == s@.len(),
            i <= n,
            forall|j: int| 0 <= j < i ==> is_space_code(#[trigger] s@[j] as u32),
        decreases n - i,
    {
        if !char_is_space(s.get_char(i)) {
            return false;
        }
        i += 1;
    }
    true
}

/// The decimal digit of a value below ten.
pub open spec fn digit_char(v: int) -> char {
    if v == 0 {
        '0'
    } else if v == 1 {
        '1'
    } else if v == 2 {
        '2'
    } else if v == 3 {
        '3'
    } else if v == 4 {
        '4'
    } else if v == 5 {
        '5'
    } else if v == 6 {
        '6'
    } else if v == 7 {
        '7'
    } else if v == 8 {
        '8'
    } else {
        '9'
    }
}

/// The decimal numeral of a non-negative integer: most significant digit
/// first, no leading zeros.
pub open spec fn dec_str(n: int) -> Seq<char>
    recommends
        n >= 0,
    decreases n,
{
    if n < 10 {
        seq![digit_char(n)]
    } else {
        dec_str(n / 10) + seq![digit_char(n % 10)]
    }
}

/// The decimal digit of a value below ten.
fn decimal_char(v: u8) -> (r: char)
    requires
        v < 10,
    ensures
        r == digit_char(v as int),
{
    if v == 0 {
        '0'
    } else if v == 1 {
        '1'
    } else if v == 2 {
        '2'
    } else if v == 3 {
        '3'
    } else if v == 4 {
        '4'
    } else if v == 5 {
        '5'
    } else if v == 6 {
        '6'
    } else if v == 7 {
        '7'
    } else if v == 8 {
        '8'
    } else {
        '9'
    }
}

/// The decimal numeral of `n`.
fn u8_to_string(n: u8) -> (s: String)
    ensures
        s@ == dec_str(n as int),
{
    let mut s = String::new();
    if n >= 100 {
        push_char(&mut s, decimal_char(n / 100));
    }
    if n >= 10 {
        push_char(&mut s, decimal_char((n / 10) % 10));
    }
    push_char(&mut s, decimal_char(n % 10));
    proof {
        let v = n as int;
        if v < 10 {
            assert(v % 10 == v);
            assert(s@ =~= dec_str(v));
        } else if v < 100 {
            assert((v / 10) % 10 == v / 10);
            assert(dec_str(v / 10) == seq![digit_char(v / 10)]);
            assert(s@ =~= dec_str(v / 10) + seq![digit_char(v % 10)]);
        } else {
            assert((v / 10) / 10 == v / 100) by (nonlinear_arith)
                requires
                    v >= 100,
            {}
            assert(10 <= v / 10 < 100);
            assert(dec_str(v / 10) == dec_str((v / 10) / 10) + seq![digit_char((v / 10) % 10)]);
            assert(v / 100 < 10);
            assert(dec_str(v / 100) == seq![digit_char(v / 100)]);
            assert(s@ =~= dec_str(v / 10) + seq![digit_char(v % 10)]);
        }
    }
    s
}

/// What stands at position `i` of a canonical UUID: a hyphen at 8, 13, 18 and
/// 23, a lowercase hex digit everywhere else.
pub open spec fn uuid_char_ok(c: char, i: int) -> bool {
    if i == 8 || i == 13 || i == 18 || i == 23 {
        c == '-'
    } else {
        is_hex_lower(c)
    }
}

/// The canonical hyphenated textual form of a UUID: 36 characters, four
/// hyphens, lowercase hex digits.
pub open spec fn is_canonical_uuid(s: Seq<char>) -> bool {
    s.len() == 36 && forall|i: int| 0 <= i < 36 ==> #[trigger] uuid_char_ok(s[i], i)
}

/// Relies on `uuid::Uuid::new_v4` and its `Display` form: a freshly generated
/// random version-4 UUID, rendered in the canonical hyphenated textual form —
/// 36 characters, hyphens at positions 8, 13, 18 and 23, lowercase hex digits
/// everywhere else. Nothing is promised of the randomness itself.
#[verifier::external_body]
fn fresh_uuid() -> (r: String)
    ensures
        is_canonical_uuid(r@),
{
    uuid::Uuid::new_v4().to_string()
}

impl Exercise {
    /// A record is well formed when its difficulty lies in `[1, 10]`; every
    /// record that passed through construction is.
    pub open spec fn wf(&self) -> bool {
        1 <= self.difficulty_level <= 10
    }

    /// Create a record with a caller-supplied identifier. The difficulty is
    /// clamped into `[1, 10]`; no other field is checked here.
    pub fn with_id(
        id: String,
        name: String,
        description: Option<String>,
        muscle_groups: Vec<String>,
        equipment_needed: Option<String>,
        difficulty_level: u8,
    ) -> (e: Exercise)
        ensures
            e@.id == id@,
            e@.name == name@,
            e@.description == opt_view(description),
            e@.muscle_groups == seq_views(muscle_groups@),
            e@.equipment_needed == opt_view(equipment_needed),
            e.difficulty_level == clamp_difficulty(difficulty_level),
            e.wf(),
    {
        let clamped: u8 = if difficulty_level < 1 {
            1
        } else if difficulty_level > 10 {
            10
        } else {
            difficulty_level
        };
        Exercise { id, name, description, muscle_groups, equipment_needed, difficulty_level: clamped }
    }

    /// Create a record with a freshly generated UUID-v4 identifier. The
    /// difficulty is clamped into `[1, 10]`.
    pub fn new(
        name: String,
        description: Option<String>,
        muscle_groups: Vec<String>,
        equipment_needed: Option<String>,
        difficulty_level: u8,
    ) -> (e: Exercise)
        ensures
            is_canonical_uuid(e@.id),
            e@.name == name@,
            e@.description == opt_view(description),
            e@.muscle_groups == seq_views(muscle_groups@),
            e@.equipment_needed == opt_view(equipment_needed),
            e.difficulty_level == clamp_difficulty(difficulty_level),
            e.wf(),
    {
        let id = fresh_uuid();
        Self::with_id(id, name, description, muscle_groups, equipment_needed, difficulty_level)
    }

    /// Create a record with a freshly generated UUID-v4 identifier; a synonym
    /// of [`Self::new`] kept for callers that name the generation explicitly.
    pub fn new_with_uuid(
        name: String,
        description: Option<String>,
        muscle_groups: Vec<String>,
        equipment_needed: Option<String>,
        difficulty_level: u8,
    ) -> (e: Exercise)
        ensures
            is_canonical_uuid(e@.id),
            e@.name == name@,
            e@.description == opt_view(description),
            e@.muscle_groups == seq_views(muscle_groups@),
            e@.equipment_needed == opt_view(equipment_needed),
            e.difficulty_level == clamp_difficulty(difficulty_level),
            e.wf(),
    {
        Self::new(name, description, muscle_groups, equipment_needed, difficulty_level)
    }

    /// Check the rules that construction does not enforce: the name is not
    /// blank, at least one muscle group is targeted, and (defensively) the
    /// difficulty lies in `[1, 10]`. The record is not changed.
    pub fn validate(&self) -> (r: Result<(), String>)
        ensures
            match r {
                Ok(()) => !is_blank(self.name@) && self.muscle_groups@.len() > 0 && 1
                    <= self.difficulty_level <= 10,
                Err(m) => if is_blank(self.name@) {
                    m@ == "Exercise name cannot be empty"@
                } else if self.muscle_groups@.len() == 0 {
                    m@ == "Exercise must target at least one muscle group"@
                } else {
                    !(1 <= self.difficulty_level <= 10) && m@
                        == "Difficulty level must be between 1 and 10, got "@ + dec_str(
                        self.difficulty_level as int,
                    )
                },
            },
    {
        if str_is_blank(self.name.as_str()) {
            return Err(String::from_str("Exercise name cannot be empty"));
        }
        if self.muscle_groups.len() == 0 {
            return Err(String::from_str("Exercise must target at least one muscle group"));
        }
        if self.difficulty_level < 1 || self.difficulty_level > 10 {
            let mut m = String::from_str("Difficulty level must be between 1 and 10, got ");
            m.append(u8_to_string(self.difficulty_level).as_str());
            return Err(m);
        }
        Ok(())
    }

    /// The text of [`Self::difficulty_description`]: the 1-10 scale split into
    /// five bands of two levels each.
    pub open spec fn spec_difficulty_description(d: u8) -> Seq<char> {
        if 1 <= d && d <= 2 {
            "Very Easy"@
        } else if 3 <= d && d <= 4 {
            "Easy"@
        } else if 5 <= d && d <= 6 {
            "Moderate"@
        } else if 7 <= d && d <= 8 {
            "Hard"@
        } else if 9 <= d && d <= 10 {
            "Very Hard"@
        } else {
            "Unknown"@
        }
    }

    /// A human-readable difficulty tier.
    pub fn difficulty_description(&self) -> (r: &'static str)
        ensures
            r@ == Self::spec_difficulty_description(self.difficulty_level),
    {
        let d = self.difficulty_level;
        if 1 <= d && d <= 2 {
            "Very Easy"
        } else if 3 <= d && d <= 4 {
            "Easy"
        } else if 5 <= d && d <= 6 {
            "Moderate"
        } else if 7 <= d && d <= 8 {
            "Hard"
        } else if 9 <= d && d <= 10 {
            "Very Hard"
        } else {
            "Unknown"
        }
    }

    /// Whether the exercise needs equipment.
    pub fn requires_equipment(&self) -> (r: bool)
        ensures
            r == (self.equipment_needed is Some),
    {
        self.equipment_needed.is_some()
    }

    /// How many muscle groups the exercise targets.
    pub fn muscle_group_count(&self) -> (r: usize)
        ensures
            r == self.muscle_groups@.len(),
    {
        self.muscle_groups.len()
    }
}

} // verus!
