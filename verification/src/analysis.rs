//! The metadata scanner: drives the salary grammar across every character
//! offset of a text, and searches the text for remote-work keywords, an
//! employment-type keyword group, and a relative-date phrase.

use vstd::prelude::*;
use vstd::string::StrSliceExecFns;
use crate::domain::EmploymentType;
use crate::grammar::salary_at;
use crate::grammar::parse_salary_string;
use crate::text::all_digits;
use crate::text::contains_str;
use crate::text::digits_val;
use crate::text::find_from;
use crate::text::find_str;
use crate::text::matches_at;
use crate::text::parse_u64_digits;
use crate::text::seq_contains;
use crate::text::spaces_end;
use crate::text::spaces_end_exec;
use crate::text::word_end;
use crate::text::word_end_exec;

verus! {

/// Metadata extracted from one text blob. Every field is derived purely from
/// the input text; each takes its default when no pattern is found.
#[derive(Debug)]
pub struct ExtractedMetadata {
    pub salary: Option<String>,
    pub contract: EmploymentType,
    pub is_remote: bool,
    pub days_ago: u64,
}

impl Default for ExtractedMetadata {
    fn default() -> (r: Self)
        ensures
            r.salary is None,
            r.contract == EmploymentType::Unknown,
            !r.is_remote,
            r.days_ago == 0,
    {
        ExtractedMetadata {
            salary: None,
            contract: EmploymentType::Unknown,
            is_remote: false,
            days_ago: 0,
        }
    }
}

// ----- salary scan -----

/// The salary the scanner yields from offset `i` on: at the first offset
/// where the salary production matches, the match is accepted unless its
/// output contains the sequence `202` (a year heuristic); a rejected match
/// resumes the scan at the next offset.
pub open spec fn first_salary_from(s: Seq<char>, i: int) -> Option<Seq<char>>
    decreases s.len() - i,
{
    if !(0 <= i < s.len()) {
        None
    } else {
        match salary_at(s, i) {
            Some(t) => if !seq_contains(t.1, "202"@, false) {
                Some(t.1)
            } else {
                first_salary_from(s, i + 1)
            },
            None => first_salary_from(s, i + 1),
        }
    }
}

/// Law: a salary the scanner accepts never contains the sequence `202`.
pub proof fn lemma_salary_never_202(s: Seq<char>, i: int)
    ensures
        first_salary_from(s, i) matches Some(out) ==> !seq_contains(out, "202"@, false),
    decreases s.len() - i,
{
    if 0 <= i < s.len() {
        lemma_salary_never_202(s, i + 1);
    }
}

/// Scan the whole text for the first accepted salary match.
fn scan_salary(text: &str) -> (r: Option<String>)
    ensures
        match r {
            Some(sal) => first_salary_from(text@, 0) == Some(sal@),
            None => first_salary_from(text@, 0) is None,
        },
{
    let len = text.unicode_len();
    let mut i: usize = 0;
    while i < len
        invariant
            i <= len,
            len == text@.len(),
            first_salary_from(text@, 0) == first_salary_from(text@, i as int),
        decreases len - i,
    {
        if let Some((_end, out)) = parse_salary_string(text, i) {
            if !contains_str(out.as_str(), "202", false) {
                assert(first_salary_from(text@, i as int) == Some(out@));
                return Some(out);
            }
        }
        assert(first_salary_from(text@, i as int) == first_salary_from(text@, i as int + 1));
        i += 1;
    }
    assert(first_salary_from(text@, i as int) is None);
    None
}

// ----- keyword heuristics -----

/// Whether a text mentions remote work: a case-insensitive search for any of
/// the four remote keywords.
pub open spec fn remote_of(t: Seq<char>) -> bool {
    ||| seq_contains(t, "remoto"@, true)
    ||| seq_contains(t, "remote"@, true)
    ||| seq_contains(t, "teletrabajo"@, true)
    ||| seq_contains(t, "100%"@, true)
}

/// The employment type a text implies: the keyword groups are tried in a
/// fixed priority order and the first group with a (case-insensitive) match
/// wins.
pub open spec fn contract_of(t: Seq<char>) -> EmploymentType {
    if seq_contains(t, "indefinido"@, true) || seq_contains(t, "permanent"@, true)
        || seq_contains(t, "fijo"@, true) {
        EmploymentType::FullTime
    } else if seq_contains(t, "temporal"@, true) || seq_contains(t, "project"@, true) {
        EmploymentType::Temporary
    } else if seq_contains(t, "freelance"@, true) || seq_contains(t, "autónomo"@, true)
        || seq_contains(t, "contractor"@, true) {
        EmploymentType::Contractor
    } else if seq_contains(t, "beca"@, true) || seq_contains(t, "internship"@, true)
        || seq_contains(t, "prácticas"@, true) {
        EmploymentType::Intern
    } else {
        EmploymentType::Unknown
    }
}

/// A literal occurrence is in particular a case-insensitive occurrence.
pub proof fn lemma_contains_insensitive(t: Seq<char>, p: Seq<char>)
    requires
        seq_contains(t, p, false),
    ensures
        seq_contains(t, p, true),
{
    let i = choose|i: int| matches_at(t, p, i, false);
    assert(matches_at(t, p, i, true));
}

/// Law: a text containing `100%` is classified remote, and a text in which
/// none of the four remote keywords occurs (case-insensitively) is not.
pub proof fn lemma_remote_detection(t: Seq<char>)
    ensures
        seq_contains(t, "100%"@, false) ==> remote_of(t),
        (!seq_contains(t, "remoto"@, true) && !seq_contains(t, "remote"@, true) && !seq_contains(
            t,
            "teletrabajo"@,
            true,
        ) && !seq_contains(t, "100%"@, true)) ==> !remote_of(t),
{
    if seq_contains(t, "100%"@, false) {
        lemma_contains_insensitive(t, "100%"@);
    }
}

/// Law: the full-time keyword group takes priority — a text containing
/// `indefinido` classifies as full time whatever other groups also match.
pub proof fn lemma_contract_priority(t: Seq<char>)
    requires
        seq_contains(t, "indefinido"@, true),
    ensures
        contract_of(t) == EmploymentType::FullTime,
{
}

// ----- relative date -----

/// A numeric token with one optional leading plus sign removed, as the
/// integer parser accepts it.
pub open spec fn num_body(tok: Seq<char>) -> Seq<char> {
    if tok.len() > 0 && tok[0] == '+' {
        tok.subrange(1, tok.len() as int)
    } else {
        tok
    }
}

/// The days-ago count a text states: after the first case-insensitive
/// occurrence of `hace`, the remainder is split on whitespace; when a second
/// and third token exist, the second is a non-negative integer (digits after
/// one optional leading `+`) whose value fits in a `u64`, and the third
/// contains `días` or `dia`, that value is the count; otherwise it is zero.
pub open spec fn days_ago_of(t: Seq<char>) -> int {
    match find_from(t, "hace"@, 0, true) {
        None => 0,
        Some(h) => {
            let e0 = word_end(t, h);
            let a1 = spaces_end(t, e0);
            let e1 = word_end(t, a1);
            let a2 = spaces_end(t, e1);
            let e2 = word_end(t, a2);
            if a1 < e1 && a2 < e2 {
                let body = num_body(t.subrange(a1, e1));
                let tok2 = t.subrange(a2, e2);
                if body.len() > 0 && all_digits(body) && digits_val(body) <= u64::MAX && (
                seq_contains(tok2, "días"@, true) || seq_contains(tok2, "dia"@, true)) {
                    digits_val(body)
                } else {
                    0
                }
            } else {
                0
            }
        },
    }
}

/// Extract the days-ago count from the text.
fn scan_days_ago(text: &str) -> (n: u64)
    ensures
        n as int == days_ago_of(text@),
{
    let len = text.unicode_len();
    let mut days: u64 = 0;
    match find_str(text, "hace", 0, true) {
        None => {},
        Some(h) => {
            let e0 = word_end_exec(text, h, len);
            let a1 = spaces_end_exec(text, e0, len);
            let e1 = word_end_exec(text, a1, len);
            let a2 = spaces_end_exec(text, e1, len);
            let e2 = word_end_exec(text, a2, len);
            if a1 < e1 && a2 < e2 {
                let tok2 = text.substring_char(a2, e2);
                if contains_str(tok2, "días", true) || contains_str(tok2, "dia", true) {
                    let start = if text.get_char(a1) == '+' {
                        a1 + 1
                    } else {
                        a1
                    };
                    proof {
                        assert(text@.subrange(start as int, e1 as int) =~= num_body(
                            text@.subrange(a1 as int, e1 as int),
                        ));
                    }
                    if let Some(v) = parse_u64_digits(text, start, e1) {
                        days = v;
                    }
                }
            }
        },
    }
    days
}

// ----- the scanner -----

/// Analyze one text blob: scan for a salary expression at every character
/// offset, search for the remote keywords, classify the employment type by
/// keyword priority, and resolve the relative-date phrase.
pub fn analyze_job_text(text: &str) -> (meta: ExtractedMetadata)
    ensures
        match meta.salary {
            Some(sal) => first_salary_from(text@, 0) == Some(sal@),
            None => first_salary_from(text@, 0) is None,
        },
        meta.is_remote == remote_of(text@),
        meta.contract == contract_of(text@),
        meta.days_ago as int == days_ago_of(text@),
{
    let salary = scan_salary(text);

    let is_remote = contains_str(text, "remoto", true) || contains_str(text, "remote", true)
        || contains_str(text, "teletrabajo", true) || contains_str(text, "100%", true);

    let contract = if contains_str(text, "indefinido", true) || contains_str(
        text,
        "permanent",
        true,
    ) || contains_str(text, "fijo", true) {
        EmploymentType::FullTime
    } else if contains_str(text, "temporal", true) || contains_str(text, "project", true) {
        EmploymentType::Temporary
    } else if contains_str(text, "freelance", true) || contains_str(text, "autónomo", true)
        || contains_str(text, "contractor", true) {
        EmploymentType::Contractor
    } else if contains_str(text, "beca", true) || contains_str(text, "internship", true)
        || contains_str(text, "prácticas", true) {
        EmploymentType::Intern
    } else {
        EmploymentType::Unknown
    };

    let days_ago = scan_days_ago(text);

    ExtractedMetadata { salary, contract, is_remote, days_ago }
}

} // verus!
