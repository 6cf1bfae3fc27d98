//! The salary grammar: a numeric amount (plain digits, "k"-suffixed
//! thousands, or two digit groups joined by a separator), a currency token,
//! and a salary expression that is either a range or a single value.
//!
//! Each production has a specification over `Seq<char>`: given the input and
//! a start position it yields the position just past what was consumed and
//! the normalized output text, or nothing when the production does not match.

use vstd::prelude::*;
use vstd::string::StrSliceExecFns;
use vstd::string::StringExecFns;
use crate::text::digits_end;
use crate::text::digits_end_exec;
use crate::text::fold_char;
use crate::text::fold_char_exec;
use crate::text::gspaces_end;
use crate::text::gspaces_end_exec;
use crate::text::is_digit;
use crate::text::is_digit_exec;
use crate::text::matches_at;

verus! {

// ----- amount -----

/// The amount production at position `i`: digits followed by `k`/`K`
/// (thousands), or digits, one `.`/`,`, digits (separator dropped), or plain
/// digits. The first alternative that matches wins.
pub open spec fn amount_at(s: Seq<char>, i: int) -> Option<(int, Seq<char>)> {
    let j = digits_end(s, i);
    if !(0 <= i <= s.len()) || j == i {
        None
    } else if j < s.len() && (s[j] == 'k' || s[j] == 'K') {
        Some((j + 1, s.subrange(i, j) + seq!['0', '0', '0']))
    } else if j < s.len() && (s[j] == '.' || s[j] == ',') && j + 1 < s.len() && is_digit(
        s[j + 1],
    ) {
        Some((digits_end(s, j + 1), s.subrange(i, j) + s.subrange(j + 1, digits_end(s, j + 1))))
    } else {
        Some((j, s.subrange(i, j)))
    }
}

/// Parse an amount at character position `pos` of `s`, returning the position
/// just past the match and the normalized digit string.
pub fn parse_amount(s: &str, pos: usize) -> (r: Option<(usize, String)>)
    requires
        pos <= s@.len(),
    ensures
        match r {
            Some(t) => amount_at(s@, pos as int) == Some((t.0 as int, t.1@)) && t.0 <= s@.len(),
            None => amount_at(s@, pos as int) is None,
        },
{
    let len = s.unicode_len();
    let j = digits_end_exec(s, pos, len);
    if j == pos {
        return None;
    }
    if j < len {
        let c = s.get_char(j);
        if c == 'k' || c == 'K' {
            let mut out = String::from_str(s.substring_char(pos, j));
            out.append("000");
            proof {
                reveal_strlit("000");
                assert(out@ =~= s@.subrange(pos as int, j as int) + seq!['0', '0', '0']);
            }
            return Some((j + 1, out));
        }
        if (c == '.' || c == ',') && j + 1 < len && is_digit_exec(s.get_char(j + 1)) {
            let j2 = digits_end_exec(s, j + 1, len);
            let mut out = String::from_str(s.substring_char(pos, j));
            out.append(s.substring_char(j + 1, j2));
            return Some((j2, out));
        }
    }
    let out = String::from_str(s.substring_char(pos, j));
    Some((j, out))
}

// ----- currency -----

/// The currency production at position `i`: any amount of grammar whitespace,
/// then one of the tokens `€`, `eur`, `euros`, `$`, `usd`, matched
/// case-insensitively and in that order. The output is the literal matched
/// slice of the input; the salary production upper-cases it.
pub open spec fn currency_at(s: Seq<char>, i: int) -> Option<(int, Seq<char>)> {
    let w = gspaces_end(s, i);
    if matches_at(s, seq!['€'], w, true) {
        Some((w + 1, s.subrange(w, w + 1)))
    } else if matches_at(s, seq!['e', 'u', 'r'], w, true) {
        Some((w + 3, s.subrange(w, w + 3)))
    } else if matches_at(s, seq!['e', 'u', 'r', 'o', 's'], w, true) {
        Some((w + 5, s.subrange(w, w + 5)))
    } else if matches_at(s, seq!['$'], w, true) {
        Some((w + 1, s.subrange(w, w + 1)))
    } else if matches_at(s, seq!['u', 's', 'd'], w, true) {
        Some((w + 3, s.subrange(w, w + 3)))
    } else {
        None
    }
}

/// A character that can occur in a matched currency token.
pub open spec fn is_currency_char(c: char) -> bool {
    c == '€' || c == '$' || c == 'e' || c == 'E' || c == 'u' || c == 'U' || c == 'r' || c == 'R'
        || c == 'o' || c == 'O' || c == 's' || c == 'S' || c == 'd' || c == 'D'
}

/// Upper case of a currency-token character.
pub open spec fn upper_currency_char(c: char) -> char {
    if c == 'e' {
        'E'
    } else if c == 'u' {
        'U'
    } else if c == 'r' {
        'R'
    } else if c == 'o' {
        'O'
    } else if c == 's' {
        'S'
    } else if c == 'd' {
        'D'
    } else {
        c
    }
}

/// A currency token upper-cased, character by character.
pub open spec fn upper_currency(s: Seq<char>) -> Seq<char> {
    s.map_values(|c: char| upper_currency_char(c))
}

/// A character whose case folding is a character of one of the currency
/// tokens is a currency character.
proof fn lemma_fold_currency(c: char)
    requires
        fold_char(c) == '€' || fold_char(c) == '$' || fold_char(c) == 'e' || fold_char(c) == 'u'
            || fold_char(c) == 'r' || fold_char(c) == 'o' || fold_char(c) == 's' || fold_char(c)
            == 'd',
    ensures
        is_currency_char(c),
{
}

/// Every character of a matched currency token is a currency character.
proof fn lemma_currency_token_chars(s: Seq<char>, i: int)
    ensures
        currency_at(s, i) matches Some(t) ==> forall|k: int|
            0 <= k < t.1.len() ==> is_currency_char(#[trigger] t.1[k]),
{
    let w = gspaces_end(s, i);
    if matches_at(s, seq!['€'], w, true) {
        assert forall|k: int|
            0 <= k < 1 implies is_currency_char(#[trigger] s.subrange(w, w + 1)[k]) by {
            assert(s.subrange(w, w + 1)[k] == s[w + k]);
            assert(crate::text::ch_eq(s[w + k], seq!['€'][k], true));
            assert(k == 0);
            lemma_fold_currency(s[w + k]);
        }
    } else if matches_at(s, seq!['e', 'u', 'r'], w, true) {
        assert forall|k: int|
            0 <= k < 3 implies is_currency_char(#[trigger] s.subrange(w, w + 3)[k]) by {
            assert(s.subrange(w, w + 3)[k] == s[w + k]);
            assert(crate::text::ch_eq(s[w + k], seq!['e', 'u', 'r'][k], true));
            assert(k == 0 || k == 1 || k == 2);
            lemma_fold_currency(s[w + k]);
        }
    } else if matches_at(s, seq!['e', 'u', 'r', 'o', 's'], w, true) {
        assert forall|k: int|
            0 <= k < 5 implies is_currency_char(#[trigger] s.subrange(w, w + 5)[k]) by {
            assert(s.subrange(w, w + 5)[k] == s[w + k]);
            assert(crate::text::ch_eq(s[w + k], seq!['e', 'u', 'r', 'o', 's'][k], true));
            assert(k == 0 || k == 1 || k == 2 || k == 3 || k == 4);
            lemma_fold_currency(s[w + k]);
        }
    } else if matches_at(s, seq!['$'], w, true) {
        assert forall|k: int|
            0 <= k < 1 implies is_currency_char(#[trigger] s.subrange(w, w + 1)[k]) by {
            assert(s.subrange(w, w + 1)[k] == s[w + k]);
            assert(crate::text::ch_eq(s[w + k], seq!['$'][k], true));
            assert(k == 0);
            lemma_fold_currency(s[w + k]);
        }
    } else if matches_at(s, seq!['u', 's', 'd'], w, true) {
        assert forall|k: int|
            0 <= k < 3 implies is_currency_char(#[trigger] s.subrange(w, w + 3)[k]) by {
            assert(s.subrange(w, w + 3)[k] == s[w + k]);
            assert(crate::text::ch_eq(s[w + k], seq!['u', 's', 'd'][k], true));
            assert(k == 0 || k == 1 || k == 2);
            lemma_fold_currency(s[w + k]);
        }
    }
}

/// Case-folded match of a one-character token at position `w`.
fn tag1(s: &str, len: usize, w: usize, c0: char) -> (b: bool)
    requires
        len == s@.len(),
        w <= len,
    ensures
        b == matches_at(s@, seq![c0], w as int, true),
{
    if w < len {
        let b = fold_char_exec(s.get_char(w)) == fold_char_exec(c0);
        assert(seq![c0][0] == c0);
        b
    } else {
        false
    }
}

/// Case-folded match of a three-character token at position `w`.
fn tag3(s: &str, len: usize, w: usize, c0: char, c1: char, c2: char) -> (b: bool)
    requires
        len == s@.len(),
        w <= len,
    ensures
        b == matches_at(s@, seq![c0, c1, c2], w as int, true),
{
    if 3 > len - w {
        return false;
    }
    let b = fold_char_exec(s.get_char(w)) == fold_char_exec(c0) && fold_char_exec(
        s.get_char(w + 1),
    ) == fold_char_exec(c1) && fold_char_exec(s.get_char(w + 2)) == fold_char_exec(c2);
    proof {
        let p = seq![c0, c1, c2];
        assert(p[0] == c0 && p[1] == c1 && p[2] == c2);
        if b {
            assert forall|k: int| 0 <= k < 3 implies crate::text::ch_eq(
                s@[w + k],
                p[k],
                true,
            ) by {
                assert(k == 0 || k == 1 || k == 2);
            }
        }
    }
    b
}

/// Case-folded match of a five-character token at position `w`.
fn tag5(s: &str, len: usize, w: usize, c0: char, c1: char, c2: char, c3: char, c4: char) -> (b:
    bool)
    requires
        len == s@.len(),
        w <= len,
    ensures
        b == matches_at(s@, seq![c0, c1, c2, c3, c4], w as int, true),
{
    if 5 > len - w {
        return false;
    }
    let b = fold_char_exec(s.get_char(w)) == fold_char_exec(c0) && fold_char_exec(
        s.get_char(w + 1),
    ) == fold_char_exec(c1) && fold_char_exec(s.get_char(w + 2)) == fold_char_exec(c2)
        && fold_char_exec(s.get_char(w + 3)) == fold_char_exec(c3) && fold_char_exec(
        s.get_char(w + 4),
    ) == fold_char_exec(c4);
    proof {
        let p = seq![c0, c1, c2, c3, c4];
        assert(p[0] == c0 && p[1] == c1 && p[2] == c2 && p[3] == c3 && p[4] == c4);
        if b {
            assert forall|k: int| 0 <= k < 5 implies crate::text::ch_eq(
                s@[w + k],
                p[k],
                true,
            ) by {
                assert(k == 0 || k == 1 || k == 2 || k == 3 || k == 4);
            }
        }
    }
    b
}

/// Parse a currency token at character position `pos` of `s`, returning the
/// position just past the match and the literal matched token.
pub fn parse_currency(s: &str, pos: usize) -> (r: Option<(usize, String)>)
    requires
        pos <= s@.len(),
    ensures
        match r {
            Some(t) => currency_at(s@, pos as int) == Some((t.0 as int, t.1@)) && t.0 <= s@.len(),
            None => currency_at(s@, pos as int) is None,
        },
{
    let len = s.unicode_len();
    let w = gspaces_end_exec(s, pos, len);
    if tag1(s, len, w, '€') {
        return Some((w + 1, String::from_str(s.substring_char(w, w + 1))));
    }
    if tag3(s, len, w, 'e', 'u', 'r') {
        return Some((w + 3, String::from_str(s.substring_char(w, w + 3))));
    }
    if tag5(s, len, w, 'e', 'u', 'r', 'o', 's') {
        return Some((w + 5, String::from_str(s.substring_char(w, w + 5))));
    }
    if tag1(s, len, w, '$') {
        return Some((w + 1, String::from_str(s.substring_char(w, w + 1))));
    }
    if tag3(s, len, w, 'u', 's', 'd') {
        return Some((w + 3, String::from_str(s.substring_char(w, w + 3))));
    }
    None
}

/// The one-character string for an upper-cased currency character.
fn currency_char_str(c: char) -> (r: &'static str)
    requires
        is_currency_char(c),
    ensures
        r@ == seq![upper_currency_char(c)],
{
    let r: &'static str = if c == 'e' || c == 'E' {
        "E"
    } else if c == 'u' || c == 'U' {
        "U"
    } else if c == 'r' || c == 'R' {
        "R"
    } else if c == 'o' || c == 'O' {
        "O"
    } else if c == 's' || c == 'S' {
        "S"
    } else if c == 'd' || c == 'D' {
        "D"
    } else if c == '$' {
        "$"
    } else {
        "€"
    };
    proof {
        reveal_strlit("E");
        reveal_strlit("U");
        reveal_strlit("R");
        reveal_strlit("O");
        reveal_strlit("S");
        reveal_strlit("D");
        reveal_strlit("$");
        reveal_strlit("€");
        assert(r@ =~= seq![upper_currency_char(c)]);
    }
    r
}

/// Upper-case a matched currency token, as the salary production asks.
fn upper_token(t: &str) -> (r: String)
    requires
        forall|k: int| 0 <= k < t@.len() ==> is_currency_char(#[trigger] t@[k]),
    ensures
        r@ == upper_currency(t@),
{
    let len = t.unicode_len();
    let mut out = String::new();
    proof {
        assert(out@ =~= upper_currency(t@.subrange(0, 0)));
    }
    let mut i: usize = 0;
    while i < len
        invariant
            i <= len,
            len == t@.len(),
            forall|k: int| 0 <= k < t@.len() ==> is_currency_char(#[trigger] t@[k]),
            out@ == upper_currency(t@.subrange(0, i as int)),
        decreases len - i,
    {
        let c = t.get_char(i);
        out.append(currency_char_str(c));
        proof {
            assert(out@ =~= upper_currency(t@.subrange(0, i as int + 1)));
        }
        i += 1;
    }
    proof {
        assert(t@.subrange(0, len as int) =~= t@);
    }
    out
}

// ----- salary -----

/// The range separator: grammar whitespace, `-` or a case-insensitive `a`,
/// then grammar whitespace. Yields the position just past it.
pub open spec fn range_sep_end(s: Seq<char>, i: int) -> Option<int> {
    let w = gspaces_end(s, i);
    if 0 <= w < s.len() && (s[w] == '-' || fold_char(s[w]) == 'a') {
        Some(gspaces_end(s, w + 1))
    } else {
        None
    }
}

/// The range alternative: amount, separator, amount, currency, normalized as
/// `"<min> - <max> <CUR>"`.
pub open spec fn salary_range_at(s: Seq<char>, i: int) -> Option<(int, Seq<char>)> {
    match amount_at(s, i) {
        Some((p1, min)) => match range_sep_end(s, p1) {
            Some(p2) => match amount_at(s, p2) {
                Some((p3, max)) => match currency_at(s, p3) {
                    Some((p4, cur)) => Some(
                        (p4, min + seq![' ', '-', ' '] + max + seq![' '] + upper_currency(cur)),
                    ),
                    None => None,
                },
                None => None,
            },
            None => None,
        },
        None => None,
    }
}

/// The salary production: the range alternative first, else a single value
/// normalized as `"<value> <CUR>"`.
pub open spec fn salary_at(s: Seq<char>, i: int) -> Option<(int, Seq<char>)> {
    match salary_range_at(s, i) {
        Some(r) => Some(r),
        None => match amount_at(s, i) {
            Some((p1, val)) => match currency_at(s, p1) {
                Some((p2, cur)) => Some((p2, val + seq![' '] + upper_currency(cur))),
                None => None,
            },
            None => None,
        },
    }
}

/// Parse a salary expression at character position `pos` of `s`.
pub fn parse_salary_string(s: &str, pos: usize) -> (r: Option<(usize, String)>)
    requires
        pos <= s@.len(),
    ensures
        match r {
            Some(t) => salary_at(s@, pos as int) == Some((t.0 as int, t.1@)) && t.0 <= s@.len(),
            None => salary_at(s@, pos as int) is None,
        },
{
    let len = s.unicode_len();
    let first = parse_amount(s, pos);
    match first {
        None => None,
        Some((p1, val)) => {
            let ghost valv = val@;
            // Try the range alternative.
            let w = gspaces_end_exec(s, p1, len);
            if w < len {
                let c = s.get_char(w);
                if c == '-' || fold_char_exec(c) == 'a' {
                    let p2 = gspaces_end_exec(s, w + 1, len);
                    if let Some((p3, max)) = parse_amount(s, p2) {
                        if let Some((p4, cur)) = parse_currency(s, p3) {
                            let ghost maxv = max@;
                            let ghost curv = cur@;
                            proof {
                                lemma_currency_token_chars(s@, p3 as int);
                            }
                            let cur_up = upper_token(cur.as_str());
                            let mut out = val;
                            out.append(" - ");
                            out.append(max.as_str());
                            out.append(" ");
                            out.append(cur_up.as_str());
                            proof {
                                reveal_strlit(" - ");
                                reveal_strlit(" ");
                                assert(out@ =~= valv + seq![' ', '-', ' '] + maxv + seq![' ']
                                    + upper_currency(curv));
                                assert(salary_range_at(s@, pos as int) == Some(
                                    (p4 as int, out@),
                                ));
                            }
                            return Some((p4, out));
                        }
                    }
                }
            }
            assert(salary_range_at(s@, pos as int) is None);
            // Fall back to the single-value alternative.
            match parse_currency(s, p1) {
                Some((p2, cur)) => {
                    let ghost curv = cur@;
                    proof {
                        lemma_currency_token_chars(s@, p1 as int);
                    }
                    let cur_up = upper_token(cur.as_str());
                    let mut out = val;
                    out.append(" ");
                    out.append(cur_up.as_str());
                    proof {
                        reveal_strlit(" ");
                        assert(out@ =~= valv + seq![' '] + upper_currency(curv));
                        assert(salary_at(s@, pos as int) == Some((p2 as int, out@)));
                    }
                    Some((p2, out))
                },
                None => None,
            }
        },
    }
}

} // verus!
