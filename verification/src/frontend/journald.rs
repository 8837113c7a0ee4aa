//! The journal frontend: which entries a unit's matches select, and which
//! unit an entry is about.

use vstd::prelude::*;

verus! {

/// One step in narrowing down the entries of the journal.
#[derive(Debug, PartialEq, Eq)]
pub enum JournalMatch {
    /// Entries whose `field` has `value`; matches in a row all have to
    /// hold.
    Field { field: String, value: String },
    /// What came before, or what comes after.
    Or,
}

/// The matches for one unit, as characters: the messages of the unit's own
/// processes, the messages of the service manager about the unit, and the
/// messages of privileged processes about the unit.
pub open spec fn matches_of(unit: Seq<char>) -> Seq<Option<(Seq<char>, Seq<char>)>> {
    seq![
        Some(("_SYSTEMD_UNIT"@, unit)),
        None,
        Some(("_PID"@, "1"@)),
        Some(("UNIT"@, unit)),
        None,
        Some(("_UID"@, "0"@)),
        Some(("OBJECT_SYSTEMD_UNIT"@, unit)),
        None,
    ]
}

/// A match as characters: a field with its value, or nothing for `Or`.
pub open spec fn match_view(step: JournalMatch) -> Option<(Seq<char>, Seq<char>)> {
    match step {
        JournalMatch::Field { field, value } => Some((field@, value@)),
        JournalMatch::Or => None,
    }
}

/// The matches that select the entries about `unit`.
pub fn unit_matches(unit: &str) -> (steps: Vec<JournalMatch>)
    ensures
        steps@.map_values(|s: JournalMatch| match_view(s)) == matches_of(unit@),
{
    let mut steps: Vec<JournalMatch> = Vec::new();
    steps.push(JournalMatch::Field { field: "_SYSTEMD_UNIT".to_string(), value: unit.to_string() });
    steps.push(JournalMatch::Or);
    steps.push(JournalMatch::Field { field: "_PID".to_string(), value: "1".to_string() });
    steps.push(JournalMatch::Field { field: "UNIT".to_string(), value: unit.to_string() });
    steps.push(JournalMatch::Or);
    steps.push(JournalMatch::Field { field: "_UID".to_string(), value: "0".to_string() });
    steps.push(
        JournalMatch::Field { field: "OBJECT_SYSTEMD_UNIT".to_string(), value: unit.to_string() },
    );
    steps.push(JournalMatch::Or);
    assert(steps@.map_values(|s: JournalMatch| match_view(s)) =~= matches_of(unit@));
    steps
}

/// The unit that an entry is about: the unit that a privileged process
/// names, else the unit that the service manager names, else the unit
/// whose process wrote the entry.
pub open spec fn unit_of(
    uid: Option<Seq<char>>,
    object_unit: Option<Seq<char>>,
    pid: Option<Seq<char>>,
    unit: Option<Seq<char>>,
    systemd_unit: Option<Seq<char>>,
) -> Option<Seq<char>> {
    if uid == Some("0"@) && object_unit is Some {
        object_unit
    } else if pid == Some("1"@) && unit is Some {
        unit
    } else {
        systemd_unit
    }
}

/// An optional text as characters.
pub open spec fn field_view(field: Option<&String>) -> Option<Seq<char>> {
    match field {
        Some(text) => Some(text@),
        None => None,
    }
}

/// The unit that an entry is about, from the entry's fields `_UID`,
/// `OBJECT_SYSTEMD_UNIT`, `_PID`, `UNIT` and `_SYSTEMD_UNIT`.
pub fn target_unit<'a>(
    uid: Option<&'a String>,
    object_unit: Option<&'a String>,
    pid: Option<&'a String>,
    unit: Option<&'a String>,
    systemd_unit: Option<&'a String>,
) -> (target: Option<&'a String>)
    ensures
        field_view(target) == unit_of(
            field_view(uid),
            field_view(object_unit),
            field_view(pid),
            field_view(unit),
            field_view(systemd_unit),
        ),
        target == object_unit || target == unit || target == systemd_unit,
{
    let root = match uid {
        Some(uid) => {
            let zero = "0".to_string();
            *uid == zero
        },
        None => false,
    };
    if root && object_unit.is_some() {
        return object_unit;
    }
    let manager = match pid {
        Some(pid) => {
            let one = "1".to_string();
            *pid == one
        },
        None => false,
    };
    if manager && unit.is_some() {
        return unit;
    }
    systemd_unit
}

} // verus!
