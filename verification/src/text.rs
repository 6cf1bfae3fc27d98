//! Character classes, case folding for the keyword set, substring search,
//! digit-sequence values and lexicographic order, all specified over
//! `Seq<char>` views of `&str`.

use vstd::prelude::*;
use vstd::string::StrSliceExecFns;

verus! {

// ----- character classes -----

/// ASCII decimal digit.
pub open spec fn is_digit(c: char) -> bool {
    '0' <= c && c <= '9'
}

/// Executable test for [`is_digit`].
pub fn is_digit_exec(c: char) -> (b: bool)
    ensures
        b == is_digit(c),
{
    '0' <= c && c <= '9'
}

/// Numeric value of a digit character.
pub open spec fn digit_val(c: char) -> int {
    c as int - '0' as int
}

/// Whitespace as the salary grammar understands it: the characters that may
/// separate a number from its currency token or the two ends of a range.
pub open spec fn is_grammar_space(c: char) -> bool {
    c == ' ' || c == '\t' || c == '\n' || c == '\r'
}

/// Executable test for [`is_grammar_space`].
pub fn is_grammar_space_exec(c: char) -> (b: bool)
    ensures
        b == is_grammar_space(c),
{
    c == ' ' || c == '\t' || c == '\n' || c == '\r'
}

/// Unicode whitespace (the `White_Space` property), used for trimming and for
/// splitting the relative-date phrase into tokens.
pub open spec fn is_space(c: char) -> bool {
    c == ' ' || c == '\t' || c == '\n' || c == '\u{b}' || c == '\u{c}' || c == '\r'
        || c == '\u{85}' || c == '\u{a0}' || c == '\u{1680}' || c == '\u{2000}' || c == '\u{2001}'
        || c == '\u{2002}' || c == '\u{2003}' || c == '\u{2004}' || c == '\u{2005}' || c
        == '\u{2006}' || c == '\u{2007}' || c == '\u{2008}' || c == '\u{2009}' || c == '\u{200a}'
        || c == '\u{2028}' || c == '\u{2029}' || c == '\u{202f}' || c == '\u{205f}' || c
        == '\u{3000}'
}

/// Executable test for [`is_space`].
pub fn is_space_exec(c: char) -> (b: bool)
    ensures
        b == is_space(c),
{
    c == ' ' || c == '\t' || c == '\n' || c == '\u{b}' || c == '\u{c}' || c == '\r' || c
        == '\u{85}' || c == '\u{a0}' || c == '\u{1680}' || c == '\u{2000}' || c == '\u{2001}' || c
        == '\u{2002}' || c == '\u{2003}' || c == '\u{2004}' || c == '\u{2005}' || c == '\u{2006}'
        || c == '\u{2007}' || c == '\u{2008}' || c == '\u{2009}' || c == '\u{200a}' || c
        == '\u{2028}' || c == '\u{2029}' || c == '\u{202f}' || c == '\u{205f}' || c == '\u{3000}'
}

/// Case folding for the keyword alphabet: ASCII letters fold to lower case,
/// as do the accented letters that occur in the Spanish keywords; every other
/// character folds to itself.
pub open spec fn fold_char(c: char) -> char {
    if 'A' <= c && c <= 'Z' {
        fold_ascii_upper(c)
    } else if c == 'Á' {
        'á'
    } else if c == 'É' {
        'é'
    } else if c == 'Í' {
        'í'
    } else if c == 'Ó' {
        'ó'
    } else if c == 'Ú' {
        'ú'
    } else if c == 'Ñ' {
        'ñ'
    } else if c == 'Ü' {
        'ü'
    } else {
        c
    }
}

/// Lower-case counterpart of an ASCII upper-case letter.
pub open spec fn fold_ascii_upper(c: char) -> char {
    if c == 'A' {
        'a'
    } else if c == 'B' {
        'b'
    } else if c == 'C' {
        'c'
    } else if c == 'D' {
        'd'
    } else if c == 'E' {
        'e'
    } else if c == 'F' {
        'f'
    } else if c == 'G' {
        'g'
    } else if c == 'H' {
        'h'
    } else if c == 'I' {
        'i'
    } else if c == 'J' {
        'j'
    } else if c == 'K' {
        'k'
    } else if c == 'L' {
        'l'
    } else if c == 'M' {
        'm'
    } else if c == 'N' {
        'n'
    } else if c == 'O' {
        'o'
    } else if c == 'P' {
        'p'
    } else if c == 'Q' {
        'q'
    } else if c == 'R' {
        'r'
    } else if c == 'S' {
        's'
    } else if c == 'T' {
        't'
    } else if c == 'U' {
        'u'
    } else if c == 'V' {
        'v'
    } else if c == 'W' {
        'w'
    } else if c == 'X' {
        'x'
    } else if c == 'Y' {
        'y'
    } else {
        'z'
    }
}

/// Executable case folding; agrees with [`fold_char`].
pub fn fold_char_exec(c: char) -> (r: char)
    ensures
        r == fold_char(c),
{
    if 'A' <= c && c <= 'Z' {
        if c == 'A' {
            'a'
        } else if c == 'B' {
            'b'
        } else if c == 'C' {
            'c'
        } else if c == 'D' {
            'd'
        } else if c == 'E' {
            'e'
        } else if c == 'F' {
            'f'
        } else if c == 'G' {
            'g'
        } else if c == 'H' {
            'h'
        } else if c == 'I' {
            'i'
        } else if c == 'J' {
            'j'
        } else if c == 'K' {
            'k'
        } else if c == 'L' {
            'l'
        } else if c == 'M' {
            'm'
        } else if c == 'N' {
            'n'
        } else if c == 'O' {
            'o'
        } else if c == 'P' {
            'p'
        } else if c == 'Q' {
            'q'
        } else if c == 'R' {
            'r'
        } else if c == 'S' {
            's'
        } else if c == 'T' {
            't'
        } else if c == 'U' {
            'u'
        } else if c == 'V' {
            'v'
        } else if c == 'W' {
            'w'
        } else if c == 'X' {
            'x'
        } else if c == 'Y' {
            'y'
        } else {
            'z'
        }
    } else if c == 'Á' {
        'á'
    } else if c == 'É' {
        'é'
    } else if c == 'Í' {
        'í'
    } else if c == 'Ó' {
        'ó'
    } else if c == 'Ú' {
        'ú'
    } else if c == 'Ñ' {
        'ñ'
    } else if c == 'Ü' {
        'ü'
    } else {
        c
    }
}

// ----- substring search -----

/// Character comparison, case-folding both sides when `fold` is set.
pub open spec fn ch_eq(a: char, b: char, fold: bool) -> bool {
    if fold {
        fold_char(a) == fold_char(b)
    } else {
        a == b
    }
}

/// `pat` occurs in `hay` starting at position `i`.
pub open spec fn matches_at(hay: Seq<char>, pat: Seq<char>, i: int, fold: bool) -> bool {
    &&& 0 <= i
    &&& i + pat.len() <= hay.len()
    &&& forall|k: int| 0 <= k < pat.len() ==> ch_eq(hay[i + k], pat[k], fold)
}

/// `pat` occurs somewhere in `hay`.
pub open spec fn seq_contains(hay: Seq<char>, pat: Seq<char>, fold: bool) -> bool {
    exists|i: int| matches_at(hay, pat, i, fold)
}

/// Position of the first occurrence of `pat` in `hay` at or after `from`.
pub open spec fn find_from(hay: Seq<char>, pat: Seq<char>, from: int, fold: bool) -> Option<int>
    decreases hay.len() - from,
{
    if from < 0 || from + pat.len() > hay.len() {
        None
    } else if matches_at(hay, pat, from, fold) {
        Some(from)
    } else {
        find_from(hay, pat, from + 1, fold)
    }
}

/// What [`find_from`] returns: the first occurrence, or `None` when there is
/// no occurrence at or after `from`.
pub proof fn lemma_find_from(hay: Seq<char>, pat: Seq<char>, from: int, fold: bool)
    requires
        0 <= from,
    ensures
        match find_from(hay, pat, from, fold) {
            Some(j) => from <= j && matches_at(hay, pat, j, fold) && forall|i: int|
                from <= i < j ==> !matches_at(hay, pat, i, fold),
            None => forall|i: int| from <= i ==> !matches_at(hay, pat, i, fold),
        },
    decreases hay.len() - from,
{
    if from + pat.len() > hay.len() {
        assert forall|i: int| from <= i implies !matches_at(hay, pat, i, fold) by {}
    } else if matches_at(hay, pat, from, fold) {
    } else {
        lemma_find_from(hay, pat, from + 1, fold);
    }
}

/// Executable check that `pat` occurs at position `i` of `hay`.
fn matches_at_exec(hay: &str, pat: &str, i: usize, hay_len: usize, pat_len: usize) -> (b: bool)
    requires
        hay_len == hay@.len(),
        pat_len == pat@.len(),
        i + pat_len <= hay_len,
    ensures
        b == matches_at(hay@, pat@, i as int, true),
{
    let mut k: usize = 0;
    while k < pat_len
        invariant
            0 <= k <= pat_len,
            pat_len == pat@.len(),
            hay_len == hay@.len(),
            i + pat_len <= hay_len,
            forall|q: int| 0 <= q < k ==> ch_eq(hay@[i + q], pat@[q], true),
        decreases pat_len - k,
    {
        let hc = hay.get_char(i + k);
        let pc = pat.get_char(k);
        if fold_char_exec(hc) != fold_char_exec(pc) {
            assert(!ch_eq(hay@[i + k], pat@[k as int], true));
            return false;
        }
        k += 1;
    }
    true
}

/// Executable check that `pat` occurs literally at position `i` of `hay`.
fn matches_at_lit_exec(hay: &str, pat: &str, i: usize, hay_len: usize, pat_len: usize) -> (b: bool)
    requires
        hay_len == hay@.len(),
        pat_len == pat@.len(),
        i + pat_len <= hay_len,
    ensures
        b == matches_at(hay@, pat@, i as int, false),
{
    let mut k: usize = 0;
    while k < pat_len
        invariant
            0 <= k <= pat_len,
            pat_len == pat@.len(),
            hay_len == hay@.len(),
            i + pat_len <= hay_len,
            forall|q: int| 0 <= q < k ==> ch_eq(hay@[i + q], pat@[q], false),
        decreases pat_len - k,
    {
        let hc = hay.get_char(i + k);
        let pc = pat.get_char(k);
        if hc != pc {
            assert(!ch_eq(hay@[i + k], pat@[k as int], false));
            return false;
        }
        k += 1;
    }
    true
}

/// First occurrence of `pat` in `hay` at or after `from`.
pub fn find_str(hay: &str, pat: &str, from: usize, fold: bool) -> (r: Option<usize>)
    requires
        from <= hay@.len(),
    ensures
        match r {
            Some(j) => find_from(hay@, pat@, from as int, fold) == Some(j as int) && j
                <= hay@.len(),
            None => find_from(hay@, pat@, from as int, fold) is None,
        },
{
    let hay_len = hay.unicode_len();
    let pat_len = pat.unicode_len();
    let mut i: usize = from;
    loop
        invariant
            from <= i <= hay_len,
            hay_len == hay@.len(),
            pat_len == pat@.len(),
            find_from(hay@, pat@, from as int, fold) == find_from(hay@, pat@, i as int, fold),
        decreases hay_len - i,
    {
        if pat_len > hay_len - i {
            assert(find_from(hay@, pat@, i as int, fold) is None);
            return None;
        }
        let hit = if fold {
            matches_at_exec(hay, pat, i, hay_len, pat_len)
        } else {
            matches_at_lit_exec(hay, pat, i, hay_len, pat_len)
        };
        if hit {
            assert(find_from(hay@, pat@, i as int, fold) == Some(i as int));
            return Some(i);
        }
        assert(find_from(hay@, pat@, i as int, fold) == find_from(
            hay@,
            pat@,
            i as int + 1,
            fold,
        ));
        i += 1;
    }
}

/// Whether `pat` occurs anywhere in `hay`.
pub fn contains_str(hay: &str, pat: &str, fold: bool) -> (b: bool)
    ensures
        b == seq_contains(hay@, pat@, fold),
{
    proof {
        lemma_find_from(hay@, pat@, 0, fold);
    }
    match find_str(hay, pat, 0, fold) {
        Some(j) => {
            assert(matches_at(hay@, pat@, j as int, fold));
            true
        },
        None => {
            assert forall|i: int| !matches_at(hay@, pat@, i, fold) by {
                if 0 <= i {
                    lemma_find_from(hay@, pat@, 0, fold);
                }
            }
            false
        },
    }
}

// ----- runs of characters -----

/// End of the run of decimal digits starting at `i`.
pub open spec fn digits_end(s: Seq<char>, i: int) -> int
    decreases s.len() - i,
{
    if 0 <= i < s.len() && is_digit(s[i]) {
        digits_end(s, i + 1)
    } else {
        i
    }
}


/// End of the run of grammar whitespace starting at `i`.
pub open spec fn gspaces_end(s: Seq<char>, i: int) -> int
    decreases s.len() - i,
{
    if 0 <= i < s.len() && is_grammar_space(s[i]) {
        gspaces_end(s, i + 1)
    } else {
        i
    }
}


/// End of the run of Unicode whitespace starting at `i`.
pub open spec fn spaces_end(s: Seq<char>, i: int) -> int
    decreases s.len() - i,
{
    if 0 <= i < s.len() && is_space(s[i]) {
        spaces_end(s, i + 1)
    } else {
        i
    }
}

/// End of the run of non-whitespace starting at `i`.
pub open spec fn word_end(s: Seq<char>, i: int) -> int
    decreases s.len() - i,
{
    if 0 <= i < s.len() && !is_space(s[i]) {
        word_end(s, i + 1)
    } else {
        i
    }
}



/// Executable end of the digit run starting at `i`.
pub fn digits_end_exec(s: &str, i: usize, len: usize) -> (j: usize)
    requires
        len == s@.len(),
        i <= len,
    ensures
        j as int == digits_end(s@, i as int),
        i <= j <= len,
{
    let mut j: usize = i;
    loop
        invariant
            i <= j <= len,
            len == s@.len(),
            digits_end(s@, i as int) == digits_end(s@, j as int),
        decreases len - j,
    {
        if j < len && is_digit_exec(s.get_char(j)) {
            assert(digits_end(s@, j as int) == digits_end(s@, j as int + 1));
            j += 1;
        } else {
            assert(digits_end(s@, j as int) == j as int);
            return j;
        }
    }
}

/// Executable end of the grammar-whitespace run starting at `i`.
pub fn gspaces_end_exec(s: &str, i: usize, len: usize) -> (j: usize)
    requires
        len == s@.len(),
        i <= len,
    ensures
        j as int == gspaces_end(s@, i as int),
        i <= j <= len,
{
    let mut j: usize = i;
    loop
        invariant
            i <= j <= len,
            len == s@.len(),
            gspaces_end(s@, i as int) == gspaces_end(s@, j as int),
        decreases len - j,
    {
        if j < len && is_grammar_space_exec(s.get_char(j)) {
            assert(gspaces_end(s@, j as int) == gspaces_end(s@, j as int + 1));
            j += 1;
        } else {
            assert(gspaces_end(s@, j as int) == j as int);
            return j;
        }
    }
}

/// Executable end of the Unicode-whitespace run starting at `i`.
pub fn spaces_end_exec(s: &str, i: usize, len: usize) -> (j: usize)
    requires
        len == s@.len(),
        i <= len,
    ensures
        j as int == spaces_end(s@, i as int),
        i <= j <= len,
{
    let mut j: usize = i;
    loop
        invariant
            i <= j <= len,
            len == s@.len(),
            spaces_end(s@, i as int) == spaces_end(s@, j as int),
        decreases len - j,
    {
        if j < len && is_space_exec(s.get_char(j)) {
            assert(spaces_end(s@, j as int) == spaces_end(s@, j as int + 1));
            j += 1;
        } else {
            assert(spaces_end(s@, j as int) == j as int);
            return j;
        }
    }
}

/// Executable end of the non-whitespace run starting at `i`.
pub fn word_end_exec(s: &str, i: usize, len: usize) -> (j: usize)
    requires
        len == s@.len(),
        i <= len,
    ensures
        j as int == word_end(s@, i as int),
        i <= j <= len,
{
    let mut j: usize = i;
    loop
        invariant
            i <= j <= len,
            len == s@.len(),
            word_end(s@, i as int) == word_end(s@, j as int),
        decreases len - j,
    {
        if j < len && !is_space_exec(s.get_char(j)) {
            assert(word_end(s@, j as int) == word_end(s@, j as int + 1));
            j += 1;
        } else {
            assert(word_end(s@, j as int) == j as int);
            return j;
        }
    }
}

// ----- trimming -----

/// Start of the trailing-whitespace run that ends at `i` (scanning backward).
pub open spec fn spaces_start_rev(s: Seq<char>, i: int) -> int
    decreases i,
{
    if 0 < i <= s.len() && is_space(s[i - 1]) {
        spaces_start_rev(s, i - 1)
    } else {
        i
    }
}

/// `s` with leading and trailing Unicode whitespace removed.
pub open spec fn trimmed(s: Seq<char>) -> Seq<char> {
    let a = spaces_end(s, 0);
    let b = spaces_start_rev(s, s.len() as int);
    if a <= b {
        s.subrange(a, b)
    } else {
        Seq::empty()
    }
}

/// Trim leading and trailing whitespace from `s`.
pub fn trim_str<'a>(s: &'a str) -> (r: &'a str)
    ensures
        r@ == trimmed(s@),
{
    let len = s.unicode_len();
    let a = spaces_end_exec(s, 0, len);
    let mut b: usize = len;
    let mut done: bool = false;
    while !done
        invariant
            0 <= b <= len,
            len == s@.len(),
            spaces_start_rev(s@, len as int) == spaces_start_rev(s@, b as int),
            done ==> spaces_start_rev(s@, b as int) == b as int,
        decreases b + if done {
            0int
        } else {
            1int
        },
    {
        if b > 0 {
            let c = s.get_char(b - 1);
            if is_space_exec(c) {
                assert(spaces_start_rev(s@, b as int) == spaces_start_rev(s@, b as int - 1));
                b -= 1;
            } else {
                assert(spaces_start_rev(s@, b as int) == b as int);
                done = true;
            }
        } else {
            assert(spaces_start_rev(s@, b as int) == b as int);
            done = true;
        }
    }
    if a <= b {
        let r = s.substring_char(a, b);
        assert(r@ == trimmed(s@));
        r
    } else {
        let r = s.substring_char(0, 0);
        assert(r@ =~= trimmed(s@));
        r
    }
}

// ----- digit-sequence values -----

/// Every character of `s` is a decimal digit.
pub open spec fn all_digits(s: Seq<char>) -> bool {
    forall|k: int| 0 <= k < s.len() ==> is_digit(s[k])
}

/// The non-negative integer a digit sequence denotes.
pub open spec fn digits_val(s: Seq<char>) -> int
    decreases s.len(),
{
    if s.len() == 0 {
        0
    } else {
        digits_val(s.drop_last()) * 10 + digit_val(s.last())
    }
}

/// A digit sequence denotes a non-negative value.
pub proof fn lemma_digits_val_nonneg(s: Seq<char>)
    requires
        all_digits(s),
    ensures
        digits_val(s) >= 0,
    decreases s.len(),
{
    if s.len() > 0 {
        assert(all_digits(s.drop_last()));
        lemma_digits_val_nonneg(s.drop_last());
    }
}


/// Parse the digit substring `s[from..to]` as a `u64`.
///
/// Returns `Some` exactly when the substring is non-empty, all digits, and
/// its value fits in a `u64`.
pub fn parse_u64_digits(s: &str, from: usize, to: usize) -> (r: Option<u64>)
    requires
        from <= to <= s@.len(),
    ensures
        ({
            let t = s@.subrange(from as int, to as int);
            match r {
                Some(v) => to > from && all_digits(t) && digits_val(t) <= u64::MAX && v
                    == digits_val(t),
                None => !(to > from && all_digits(t) && digits_val(t) <= u64::MAX),
            }
        }),
{
    let ghost t = s@.subrange(from as int, to as int);
    if from == to {
        return None;
    }
    let mut val: u64 = 0;
    let mut over: bool = false;
    let mut k: usize = from;
    while k < to
        invariant
            from <= k <= to <= s@.len(),
            t == s@.subrange(from as int, to as int),
            all_digits(t.subrange(0, k - from)),
            !over ==> val == digits_val(t.subrange(0, k - from)),
            over ==> digits_val(t.subrange(0, k - from)) > u64::MAX,
        decreases to - k,
    {
        let c = s.get_char(k);
        if !is_digit_exec(c) {
            assert(t[k - from] == s@[k as int]);
            assert(!all_digits(t));
            return None;
        }
        let d: u64 = (c as u32 as u64) - 48;
        assert(d == digit_val(s@[k as int]));
        let ghost p = t.subrange(0, k - from);
        let ghost p2 = t.subrange(0, k - from + 1);
        assert(p2.drop_last() =~= p);
        assert(p2.last() == s@[k as int]);
        assert(digits_val(p2) == digits_val(p) * 10 + digit_val(s@[k as int]));
        if !over {
            match val.checked_mul(10) {
                Some(x) => {
                    match x.checked_add(d) {
                        Some(y) => {
                            val = y;
                        },
                        None => {
                            over = true;
                            assert(digits_val(p2) > u64::MAX);
                        },
                    }
                },
                None => {
                    over = true;
                    assert(digits_val(p2) > u64::MAX);
                },
            }
        } else {
            proof {
                assert(all_digits(p2));
                lemma_digits_val_nonneg(p2);
                assert(digit_val(s@[k as int]) >= 0);
                assert(all_digits(p));
                lemma_digits_val_nonneg(p);
                assert(digits_val(p) * 10 >= digits_val(p)) by (nonlinear_arith)
                    requires
                        digits_val(p) >= 0,
                ;
            }
        }
        k += 1;
    }
    assert(t.subrange(0, to - from) =~= t);
    if over {
        None
    } else {
        Some(val)
    }
}

// ----- lexicographic order -----

/// Strict lexicographic order on character sequences, by Unicode scalar value.
/// On the UTF-8 strings this library handles it agrees with the byte-wise
/// order `str` derives.
pub open spec fn lex_lt(a: Seq<char>, b: Seq<char>) -> bool
    decreases a.len(),
{
    if b.len() == 0 {
        false
    } else if a.len() == 0 {
        true
    } else if a[0] != b[0] {
        a[0] < b[0]
    } else {
        lex_lt(a.drop_first(), b.drop_first())
    }
}

/// Two sequences neither of which precedes the other are equal.
pub proof fn lemma_lex_connected(a: Seq<char>, b: Seq<char>)
    requires
        !lex_lt(a, b),
        !lex_lt(b, a),
    ensures
        a == b,
    decreases a.len(),
{
    if b.len() == 0 {
        assert(a.len() == 0);
        assert(a =~= b);
    } else if a.len() == 0 {
        assert(lex_lt(a, b));
    } else if a[0] != b[0] {
    } else {
        lemma_lex_connected(a.drop_first(), b.drop_first());
        assert(a.drop_first().len() == b.drop_first().len());
        assert(a.len() == b.len());
        assert forall|i: int| 0 <= i < a.len() implies a[i] == b[i] by {
            if i > 0 {
                assert(a[i] == a.drop_first()[i - 1]);
                assert(b[i] == b.drop_first()[i - 1]);
            }
        }
        assert(a =~= b);
    }
}

/// Executable strict lexicographic comparison of two strings.
pub fn str_lt(a: &str, b: &str) -> (r: bool)
    ensures
        r == lex_lt(a@, b@),
{
    let a_len = a.unicode_len();
    let b_len = b.unicode_len();
    let mut i: usize = 0;
    proof {
        assert(a@.skip(0) =~= a@);
        assert(b@.skip(0) =~= b@);
    }
    loop
        invariant
            0 <= i <= a_len,
            i <= b_len,
            a_len == a@.len(),
            b_len == b@.len(),
            lex_lt(a@, b@) == lex_lt(a@.skip(i as int), b@.skip(i as int)),
        decreases a_len - i,
    {
        if i == a_len || i == b_len {
            if b_len > i {
                assert(lex_lt(a@.skip(i as int), b@.skip(i as int)));
                return true;
            } else {
                assert(b@.skip(i as int).len() == 0);
                assert(!lex_lt(a@.skip(i as int), b@.skip(i as int)));
                return false;
            }
        }
        let ca = a.get_char(i);
        let cb = b.get_char(i);
        assert(a@.skip(i as int)[0] == a@[i as int]);
        assert(b@.skip(i as int)[0] == b@[i as int]);
        if ca != cb {
            let r = ca < cb;
            assert(lex_lt(a@.skip(i as int), b@.skip(i as int)) == r);
            return r;
        }
        assert(a@.skip(i as int).drop_first() =~= a@.skip(i as int + 1));
        assert(b@.skip(i as int).drop_first() =~= b@.skip(i as int + 1));
        i += 1;
    }
}

} // verus!
