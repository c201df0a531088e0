//! Advice derived from the findings of a physics scene check.
//!
//! Measuring gaps, scales and heights is floating-point work done outside
//! this module; here the findings are classified and turned into suggestions.

use vstd::prelude::*;

verus! {

/// Kinds of validation errors.
#[derive(Clone, Copy, PartialEq, Eq, Structural)]
pub enum ErrorKind {
    /// A falling object does not reach the floor below it.
    NoOverlap,
    MissingCollider,
    InvalidScale,
    FloatingObject,
    InitialPenetration,
}

/// Validation warning information.
pub struct ValidationWarning {
    pub entity: String,
    pub warning: String,
}

/// Whether `pattern` occurs in `s` at position `i`.
pub open spec fn occurs_at(s: Seq<char>, pattern: Seq<char>, i: int) -> bool {
    0 <= i && i + pattern.len() <= s.len() && s.subrange(i, i + pattern.len()) == pattern
}

/// Whether `pattern` occurs somewhere in `s`.
pub open spec fn has_substring(s: Seq<char>, pattern: Seq<char>) -> bool {
    exists|i: int| occurs_at(s, pattern, i)
}

/// Whether `s` contains `pattern`.
pub fn contains_text(s: &str, pattern: &str) -> (r: bool)
    ensures
        r == has_substring(s@, pattern@),
{
    let n = s.unicode_len();
    let m = pattern.unicode_len();
    if m > n {
        proof {
            assert forall|i: int| !occurs_at(s@, pattern@, i) by {}
        }
        return false;
    }
    let mut i: usize = 0;
    while i <= n - m
        invariant
            n == s@.len(),
            m == pattern@.len(),
            m <= n,
            i <= n - m + 1,
            forall|k: int| 0 <= k < i ==> !occurs_at(s@, pattern@, k),
        decreases n - m + 1 - i,
    {
        let mut j: usize = 0;
        let mut same = true;
        while j < m
            invariant
                n == s@.len(),
                m == pattern@.len(),
                i + m <= n,
                j <= m,
                same == (forall|k: int| 0 <= k < j ==> s@[i + k] == pattern@[k]),
            decreases m - j,
        {
            if s.get_char(i + j) != pattern.get_char(j) {
                same = false;
            }
            j = j + 1;
        }
        if same {
            proof {
                assert(s@.subrange(i as int, i + m) =~= pattern@);
                assert(occurs_at(s@, pattern@, i as int));
            }
            return true;
        }
        proof {
            let k = choose|k: int| 0 <= k < m && s@[i + k] != pattern@[k];
            assert(s@.subrange(i as int, i + m)[k] != pattern@[k]);
        }
        i = i + 1;
    }
    proof {
        assert forall|k: int| !occurs_at(s@, pattern@, k) by {
            if 0 <= k && k + pattern@.len() <= s@.len() {
                assert(k < i);
            }
        }
    }
    false
}

/// The suggestions for a check that found errors of the given kinds and
/// raised the given warning texts, in the order they are made.
pub open spec fn suggestions_for(errors: Seq<ErrorKind>, warnings: Seq<Seq<char>>) -> Seq<Seq<char>> {
    let s0 = Seq::<Seq<char>>::empty();
    let s1 = if errors.contains(ErrorKind::NoOverlap) {
        s0.push("Consider positioning floors at Y=0 or Y=-0.5 for easier object placement"@).push(
            "Reduce vertical gaps between floors and falling objects to < 2 units"@,
        )
    } else {
        s0
    };
    let s2 = if exists|k: int| 0 <= k < warnings.len() && has_substring(#[trigger] warnings[k], "thick"@) {
        s1.push("Use scale Y=1.0 for floors and adjust half_extents instead"@)
    } else {
        s1
    };
    if errors.len() > 0 {
        s2.push("Test with SCENE=your_scene cargo run to verify physics behavior"@)
    } else {
        s2
    }
}

/// The suggestions to add for the errors and warnings a check found.
pub fn add_suggestions(errors: &Vec<ErrorKind>, warnings: &Vec<ValidationWarning>) -> (r: Vec<String>)
    ensures
        r@.map_values(|s: String| s@) == suggestions_for(errors@, warnings@.map_values(
            |w: ValidationWarning| w.warning@,
        )),
{
    let ghost ws = warnings@.map_values(|w: ValidationWarning| w.warning@);
    let mut r: Vec<String> = Vec::new();
    let mut no_overlap = false;
    let mut i: usize = 0;
    while i < errors.len()
        invariant
            i <= errors.len(),
            no_overlap == (exists|k: int| 0 <= k < i && errors@[k] == ErrorKind::NoOverlap),
        decreases errors.len() - i,
    {
        if errors[i] == ErrorKind::NoOverlap {
            no_overlap = true;
        }
        i = i + 1;
    }
    proof {
        if no_overlap {
            let k = choose|k: int| 0 <= k < errors.len() && errors@[k] == ErrorKind::NoOverlap;
            assert(errors@.contains(ErrorKind::NoOverlap));
        }
        if errors@.contains(ErrorKind::NoOverlap) {
            let k = choose|k: int| 0 <= k < errors@.len() && errors@[k] == ErrorKind::NoOverlap;
            assert(no_overlap);
        }
    }
    if no_overlap {
        r.push(String::from_str("Consider positioning floors at Y=0 or Y=-0.5 for easier object placement"));
        r.push(String::from_str("Reduce vertical gaps between floors and falling objects to < 2 units"));
    }
    let mut thick = false;
    let mut j: usize = 0;
    while j < warnings.len()
        invariant
            j <= warnings.len(),
            ws == warnings@.map_values(|w: ValidationWarning| w.warning@),
            thick == (exists|k: int| 0 <= k < j && has_substring(#[trigger] ws[k], "thick"@)),
        decreases warnings.len() - j,
    {
        let found = contains_text(warnings[j].warning.as_str(), "thick");
        proof {
            assert(ws[j as int] == warnings@[j as int].warning@);
            if found {
                assert(has_substring(ws[j as int], "thick"@));
            }
        }
        if found {
            thick = true;
        }
        j = j + 1;
    }
    if thick {
        r.push(String::from_str("Use scale Y=1.0 for floors and adjust half_extents instead"));
    }
    if errors.len() > 0 {
        r.push(String::from_str("Test with SCENE=your_scene cargo run to verify physics behavior"));
    }
    proof {
        assert(r@.map_values(|s: String| s@) =~= suggestions_for(errors@, ws));
    }
    r
}

} // verus!
