//! The urgency metadata value.

use vstd::prelude::*;
use vstd::string::StrSliceExecFns;
use vstd::string::StringExecFns;

use crate::error::ParseError;

verus! {

/// How urgently a release should be installed. Parsed case-insensitively,
/// rendered in lower case.
#[derive(Debug, Clone, PartialEq, Eq, Hash, Structural)]
pub enum Urgency {
    Low,
    Medium,
    High,
    Emergency,
    Critical,
}

/// The code point of `c` with an upper-case ASCII letter folded down.
pub open spec fn lower_code(c: char) -> int {
    if 65 <= c as u32 <= 90 {
        c as u32 + 32
    } else {
        c as u32 as int
    }
}

/// Equal up to ASCII case.
pub open spec fn eq_ignore_ascii_case(s: Seq<char>, t: Seq<char>) -> bool {
    s.len() == t.len() && forall|i: int| 0 <= i < s.len() ==> lower_code(s[i]) == lower_code(t[i])
}

/// Which urgency a metadata value names, if any.
pub open spec fn urgency_of(s: Seq<char>) -> Option<Urgency> {
    if eq_ignore_ascii_case(s, "low"@) {
        Some(Urgency::Low)
    } else if eq_ignore_ascii_case(s, "medium"@) {
        Some(Urgency::Medium)
    } else if eq_ignore_ascii_case(s, "high"@) {
        Some(Urgency::High)
    } else if eq_ignore_ascii_case(s, "emergency"@) {
        Some(Urgency::Emergency)
    } else if eq_ignore_ascii_case(s, "critical"@) {
        Some(Urgency::Critical)
    } else {
        None
    }
}

/// The lower-case name of each urgency.
pub open spec fn urgency_name(u: Urgency) -> Seq<char> {
    match u {
        Urgency::Low => "low"@,
        Urgency::Medium => "medium"@,
        Urgency::High => "high"@,
        Urgency::Emergency => "emergency"@,
        Urgency::Critical => "critical"@,
    }
}

/// Case-insensitive comparison of two texts, ASCII-folded.
fn eq_ci(s: &str, t: &str) -> (b: bool)
    ensures
        b == eq_ignore_ascii_case(s@, t@),
{
    let sn = s.unicode_len();
    let tn = t.unicode_len();
    if sn != tn {
        return false;
    }
    let mut i: usize = 0;
    while i < sn
        invariant
            i <= sn,
            sn == s@.len(),
            tn == t@.len(),
            sn == tn,
            forall|j: int| 0 <= j < i ==> lower_code(s@[j]) == lower_code(t@[j]),
        decreases sn - i,
    {
        let a = s.get_char(i) as u32;
        let b = t.get_char(i) as u32;
        let fa = if 65 <= a && a <= 90 {
            a + 32
        } else {
            a
        };
        let fb = if 65 <= b && b <= 90 {
            b + 32
        } else {
            b
        };
        if fa != fb {
            return false;
        }
        i = i + 1;
    }
    true
}

impl Urgency {
    /// Parse an urgency value, case-insensitively. Exactly the five
    /// recognized names are accepted.
    pub fn from_str(s: &str) -> (r: Result<Urgency, ParseError>)
        ensures
            match urgency_of(s@) {
                Some(u) => r == Ok::<Urgency, ParseError>(u),
                None => r matches Err(e) && e.messages() =~= seq![
                    "invalid urgency: "@ + s@,
                ],
            },
    {
        if eq_ci(s, "low") {
            Ok(Urgency::Low)
        } else if eq_ci(s, "medium") {
            Ok(Urgency::Medium)
        } else if eq_ci(s, "high") {
            Ok(Urgency::High)
        } else if eq_ci(s, "emergency") {
            Ok(Urgency::Emergency)
        } else if eq_ci(s, "critical") {
            Ok(Urgency::Critical)
        } else {
            let mut msg = String::new();
            msg.append("invalid urgency: ");
            msg.append(s);
            let mut msgs: Vec<String> = Vec::new();
            msgs.push(msg);
            Err(ParseError(msgs))
        }
    }

    /// The lower-case rendering of this urgency.
    pub fn to_string(&self) -> (r: String)
        ensures
            r@ == urgency_name(*self),
    {
        match self {
            Urgency::Low => "low".to_owned(),
            Urgency::Medium => "medium".to_owned(),
            Urgency::High => "high".to_owned(),
            Urgency::Emergency => "emergency".to_owned(),
            Urgency::Critical => "critical".to_owned(),
        }
    }
}

} // verus!
