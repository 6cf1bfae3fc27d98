//! Record normalization and deduplication: one raw result card becomes a
//! finished [`Job`], and a batch of records is sorted by url with duplicate
//! urls collapsed.

use vstd::prelude::*;
use vstd::string::StrSliceExecFns;
use vstd::string::StringExecFns;
use crate::analysis::analyze_job_text;
use crate::analysis::contract_of;
use crate::analysis::days_ago_of;
use crate::analysis::first_salary_from;
use crate::analysis::remote_of;
use crate::domain::days_before;
use crate::domain::iso_of;
use crate::domain::iso_of_date;
use crate::domain::iso_date_string;
use crate::domain::sub_days;
use crate::domain::Job;
use crate::domain::JobSource;
use crate::domain::ScrapeDate;
use crate::text::contains_str;
use crate::text::find_from;
use crate::text::find_str;
use crate::text::lemma_find_from;
use crate::text::lemma_lex_connected;
use crate::text::lex_lt;
use crate::text::matches_at;
use crate::text::seq_contains;
use crate::text::str_lt;
use crate::text::trim_str;
use crate::text::trimmed;

verus! {

/// One raw result card handed over by the upstream retrieval layer.
#[derive(Debug, Clone)]
pub struct Card {
    pub title: String,
    pub url: String,
    pub snippet: String,
    pub meta_line: String,
}

// ----- the link's host -----

/// What the URL library finds as the host of a link: nothing when the text
/// does not parse as a URL, `Some(None)` for a URL without a host part.
pub uninterp spec fn host_of(s: Seq<char>) -> Option<Option<Seq<char>>>;

/// Relies on `url::Url::parse` and `Url::host_str`: the host part of a link,
/// when the link parses as a URL.
#[verifier::external_body]
fn url_host(u: &str) -> (r: Option<Option<String>>)
    ensures
        match r {
            Some(hopt) => match hopt {
                Some(h) => host_of(u@) == Some(Some(h@)),
                None => host_of(u@) == Some(None::<Seq<char>>),
            },
            None => host_of(u@) is None,
        },
{
    match url::Url::parse(u) {
        Ok(p) => Some(p.host_str().map(|h| h.to_string())),
        Err(_) => None,
    }
}

// ----- field derivations -----

/// `s` with one leading `www.` removed.
pub open spec fn strip_www(s: Seq<char>) -> Seq<char> {
    if matches_at(s, "www."@, 0, false) {
        s.subrange(4, s.len() as int)
    } else {
        s
    }
}

/// Remove one leading `www.` from a host name.
fn strip_www_exec(h: String) -> (r: String)
    ensures
        r@ == strip_www(h@),
{
    proof {
        reveal_strlit("www.");
    }
    let len = h.as_str().unicode_len();
    if len >= 4 && h.as_str().get_char(0) == 'w' && h.as_str().get_char(1) == 'w'
        && h.as_str().get_char(2) == 'w' && h.as_str().get_char(3) == '.' {
        assert(matches_at(h@, "www."@, 0, false)) by {
            assert forall|k: int| 0 <= k < 4 implies crate::text::ch_eq(h@[k], "www."@[k], false) by {
                assert(k == 0 || k == 1 || k == 2 || k == 3);
            }
        }
        String::from_str(h.as_str().substring_char(4, len))
    } else {
        proof {
            if matches_at(h@, "www."@, 0, false) {
                assert(crate::text::ch_eq(h@[0], "www."@[0], false));
                assert(crate::text::ch_eq(h@[1], "www."@[1], false));
                assert(crate::text::ch_eq(h@[2], "www."@[2], false));
                assert(crate::text::ch_eq(h@[3], "www."@[3], false));
                assert(false);
            }
        }
        h
    }
}

/// The record title a raw card title yields: the part before the first
/// `" - "` separator, trimmed.
pub open spec fn title_of(title_raw: Seq<char>) -> Seq<char> {
    match find_from(title_raw, " - "@, 0, false) {
        Some(i) => trimmed(title_raw.subrange(0, i)),
        None => trimmed(title_raw),
    }
}

/// The company a raw card yields: the text between the first and second
/// `" - "` of the title, trimmed; when the title has no separator, the link's
/// host with a leading `www.` stripped, `Web` for a URL without a host, and a
/// fixed label when the link does not parse.
pub open spec fn company_of(title_raw: Seq<char>, url: Seq<char>) -> Seq<char> {
    match find_from(title_raw, " - "@, 0, false) {
        Some(i) => {
            let rest = i + 3;
            let end = match find_from(title_raw, " - "@, rest, false) {
                Some(j) => j,
                None => title_raw.len() as int,
            };
            trimmed(title_raw.subrange(rest, end))
        },
        None => match host_of(url) {
            Some(hopt) => match hopt {
                Some(h) => strip_www(h),
                None => "Web"@,
            },
            None => "Vía Google"@,
        },
    }
}

/// Whether a card is kept: its raw title is non-blank, and its link is
/// non-empty and does not point back at the search engine's own domain.
pub open spec fn kept(title_raw: Seq<char>, url: Seq<char>) -> bool {
    trimmed(title_raw).len() > 0 && url.len() > 0 && !seq_contains(url, "google.com"@, false)
}

/// The text blob the scanner sees: title, snippet and meta line joined by
/// single spaces.
pub open spec fn blob_of(title_raw: Seq<char>, snippet: Seq<char>, meta: Seq<char>) -> Seq<char> {
    title_raw + seq![' '] + snippet + seq![' '] + meta
}

/// The location field: the snippet truncated to eighty characters with an
/// ellipsis when it was longer, or the caller's fallback location when the
/// snippet is empty.
pub open spec fn location_of(snippet: Seq<char>, fallback: Seq<char>) -> Seq<char> {
    if snippet.len() == 0 {
        fallback
    } else if snippet.len() > 80 {
        snippet.subrange(0, 80) + "..."@
    } else {
        snippet
    }
}

/// The posted date: the scrape date moved back by the days-ago count when one
/// was stated and the calendar library yields a four-digit-year date; the
/// scrape date itself otherwise.
pub open spec fn posted_iso_of(scraped: ScrapeDate, days: int) -> Seq<char> {
    if days > 0 {
        match days_before(scraped.year as int, scraped.month as int, scraped.day as int, days) {
            Some(t) => if 0 <= t.0 <= 9999 {
                iso_of(t.0, t.1, t.2)
            } else {
                iso_of_date(scraped)
            },
            None => iso_of_date(scraped),
        }
    } else {
        iso_of_date(scraped)
    }
}

/// How a finished record relates to the card it came from.
pub open spec fn normalized(
    card: Card,
    source: JobSource,
    scraped: ScrapeDate,
    fallback: Seq<char>,
    j: Job,
) -> bool {
    let blob = blob_of(card.title@, card.snippet@, card.meta_line@);
    &&& j.title@ == title_of(card.title@)
    &&& j.company@ == company_of(card.title@, card.url@)
    &&& j.url@ == card.url@
    &&& j.source == source
    &&& j.description_snippet@ == card.snippet@
    &&& (match j.salary {
        Some(s) => first_salary_from(blob, 0) == Some(s@),
        None => first_salary_from(blob, 0) is None,
    })
    &&& j.contract_type == contract_of(blob)
    &&& (match j.location_type {
        Some(l) => remote_of(blob) && l@ == "TELECOMMUTE"@,
        None => !remote_of(blob),
    })
    &&& j.date_posted_iso@ == posted_iso_of(scraped, days_ago_of(blob))
    &&& j.location@ == location_of(card.snippet@, fallback)
}

/// Turn one raw card into a finished record; a card with a blank title or an
/// empty or self-referential link is discarded.
pub fn normalize_card(
    card: Card,
    source: JobSource,
    scraped: ScrapeDate,
    fallback_location: &str,
) -> (r: Option<Job>)
    requires
        scraped.wf(),
    ensures
        r is Some <==> kept(card.title@, card.url@),
        r matches Some(j) ==> normalized(card, source, scraped, fallback_location@, j),
{
    let t_trim = trim_str(card.title.as_str());
    if t_trim.is_empty() {
        return None;
    }
    if card.url.as_str().is_empty() {
        return None;
    }
    if contains_str(card.url.as_str(), "google.com", false) {
        return None;
    }

    // Title and company from the raw title's " - " separators.
    proof {
        reveal_strlit(" - ");
        lemma_find_from(card.title@, " - "@, 0, false);
    }
    let title_len = card.title.as_str().unicode_len();
    let (title, company): (String, String) = match find_str(card.title.as_str(), " - ", 0, false) {
        Some(i) => {
            let rest = i + 3;
            proof {
                lemma_find_from(card.title@, " - "@, rest as int, false);
            }
            let end = match find_str(card.title.as_str(), " - ", rest, false) {
                Some(j2) => j2,
                None => title_len,
            };
            let tpart = trim_str(card.title.as_str().substring_char(0, i));
            let cpart = trim_str(card.title.as_str().substring_char(rest, end));
            (String::from_str(tpart), String::from_str(cpart))
        },
        None => {
            let comp = match url_host(card.url.as_str()) {
                Some(hopt) => match hopt {
                    Some(h) => strip_www_exec(h),
                    None => String::from_str("Web"),
                },
                None => String::from_str("Vía Google"),
            };
            (String::from_str(t_trim), comp)
        },
    };

    // The text blob the scanner sees.
    let mut blob = String::from_str(card.title.as_str());
    blob.append(" ");
    blob.append(card.snippet.as_str());
    blob.append(" ");
    blob.append(card.meta_line.as_str());
    proof {
        reveal_strlit(" ");
        assert(blob@ =~= blob_of(card.title@, card.snippet@, card.meta_line@));
    }
    let meta = analyze_job_text(blob.as_str());

    let mut job = Job::new(title, company, card.url, source, scraped);
    job.description_snippet = card.snippet.clone();
    job.salary = meta.salary;
    job.contract_type = meta.contract;
    if meta.is_remote {
        job.location_type = Some(String::from_str("TELECOMMUTE"));
    }

    // Posting date from the relative-date phrase.
    if meta.days_ago > 0 {
        match sub_days(scraped.year, scraped.month, scraped.day, meta.days_ago) {
            Some((y2, m2, d2)) => {
                if 0 <= y2 && y2 <= 9999 {
                    let back = ScrapeDate { year: y2, month: m2, day: d2 };
                    job.date_posted_iso = iso_date_string(back);
                }
            },
            None => {},
        }
    }

    // Location: the truncated snippet, or the caller's fallback.
    if !card.snippet.as_str().is_empty() {
        let sl = card.snippet.as_str().unicode_len();
        if sl > 80 {
            let mut loc = String::from_str(card.snippet.as_str().substring_char(0, 80));
            loc.append("...");
            proof {
                reveal_strlit("...");
                assert(loc@ =~= location_of(card.snippet@, fallback_location@));
            }
            job.location = loc;
        } else {
            job.location = card.snippet;
        }
    } else {
        job.location = String::from_str(fallback_location);
    }

    Some(job)
}

// ----- deduplication -----

/// Some record in `s` carries the url `u`.
pub open spec fn url_in(s: Seq<Job>, u: Seq<char>) -> bool {
    exists|k: int| 0 <= k < s.len() && s[k].url@ == u
}

/// The first index in `s` whose record carries the url `u`.
pub open spec fn first_with_url(s: Seq<Job>, u: Seq<char>) -> int
    decreases s.len(),
{
    if s.len() == 0 {
        0
    } else if s[0].url@ == u {
        0
    } else {
        1 + first_with_url(s.drop_first(), u)
    }
}

/// Characterization of [`first_with_url`] when the url occurs.
pub proof fn lemma_first_with_url(s: Seq<Job>, u: Seq<char>)
    requires
        url_in(s, u),
    ensures
        0 <= first_with_url(s, u) < s.len(),
        s[first_with_url(s, u)].url@ == u,
        forall|m: int| 0 <= m < first_with_url(s, u) ==> s[m].url@ != u,
    decreases s.len(),
{
    if s.len() == 0 {
    } else if s[0].url@ == u {
    } else {
        let t = s.drop_first();
        assert(url_in(t, u)) by {
            let k = choose|k: int| 0 <= k < s.len() && s[k].url@ == u;
            assert(t[k - 1] == s[k]);
        }
        lemma_first_with_url(t, u);
        let f = first_with_url(s, u);
        assert(s[f] == t[f - 1]);
        assert forall|m: int| 0 <= m < f implies s[m].url@ != u by {
            if m > 0 {
                assert(s[m] == t[m - 1]);
            }
        }
    }
}

/// Lexicographic order is transitive.
pub proof fn lemma_lex_trans(a: Seq<char>, b: Seq<char>, c: Seq<char>)
    requires
        lex_lt(a, b),
        lex_lt(b, c),
    ensures
        lex_lt(a, c),
    decreases a.len(),
{
    if a.len() == 0 {
    } else if a[0] != b[0] {
        if b[0] != c[0] {
        }
    } else {
        if b[0] != c[0] {
        } else {
            lemma_lex_trans(a.drop_first(), b.drop_first(), c.drop_first());
        }
    }
}

/// Whether some record in `acc` already carries the url `u`.
fn url_present(acc: &Vec<Job>, u: &String) -> (b: bool)
    ensures
        b == url_in(acc@, u@),
{
    let mut m: usize = 0;
    while m < acc.len()
        invariant
            m <= acc@.len(),
            forall|k: int| 0 <= k < m ==> acc@[k].url@ != u@,
        decreases acc@.len() - m,
    {
        if acc[m].url == *u {
            assert(url_in(acc@, u@));
            return true;
        }
        m += 1;
    }
    false
}

/// Collapse a record list to one record per url, ordered by url ascending.
///
/// The result is strictly sorted by url; it carries exactly the input's urls;
/// and for each url the record kept is the input's earliest with that url.
pub fn dedup_jobs(jobs: Vec<Job>) -> (r: Vec<Job>)
    ensures
        forall|p: int, q: int|
            0 <= p < q < r@.len() ==> lex_lt(r@[p].url@, r@[q].url@),
        forall|k: int| 0 <= k < r@.len() ==> url_in(jobs@, r@[k].url@),
        forall|i: int| 0 <= i < jobs@.len() ==> url_in(r@, jobs@[i].url@),
        forall|k: int|
            0 <= k < r@.len() ==> r@[k] == jobs@[first_with_url(jobs@, r@[k].url@)],
{
    let ghost orig = jobs@;
    let mut rest = jobs;
    let total: usize = rest.len();
    let mut acc: Vec<Job> = Vec::new();
    let mut taken: usize = 0;
    while rest.len() > 0
        invariant
            orig.len() == total,
            taken + rest@.len() == orig.len(),
            rest@ =~= orig.skip(taken as int),
            forall|p: int, q: int|
                0 <= p < q < acc@.len() ==> lex_lt(acc@[p].url@, acc@[q].url@),
            forall|k: int| 0 <= k < acc@.len() ==> url_in(orig, acc@[k].url@),
            forall|k: int|
                0 <= k < acc@.len() ==> acc@[k] == orig[first_with_url(orig, acc@[k].url@)],
            forall|i: int| 0 <= i < taken ==> url_in(acc@, orig[i].url@),
        decreases rest@.len(),
    {
        let j = rest.remove(0);
        proof {
            assert(j == orig[taken as int]);
            assert(rest@ =~= orig.skip(taken as int + 1));
        }
        if url_present(&acc, &j.url) {
            proof {
                assert forall|i: int| 0 <= i < taken + 1 implies url_in(acc@, orig[i].url@) by {}
            }
        } else {
            // The record's url is new: its first occurrence in the input is here.
            proof {
                assert(url_in(orig, j.url@));
                lemma_first_with_url(orig, j.url@);
                let f = first_with_url(orig, j.url@);
                if f < taken as int {
                    assert(url_in(acc@, orig[f].url@));
                    assert(false);
                }
                if f > taken as int {
                    assert(orig[taken as int].url@ != j.url@);
                    assert(false);
                }
                assert(f == taken as int);
            }
            // Find the insertion point that keeps the list sorted.
            let mut pos: usize = 0;
            let mut found: bool = false;
            while !found
                invariant
                    pos <= acc@.len(),
                    forall|m: int| 0 <= m < pos ==> lex_lt(acc@[m].url@, j.url@),
                    !url_in(acc@, j.url@),
                    forall|p: int, q: int|
                        0 <= p < q < acc@.len() ==> lex_lt(acc@[p].url@, acc@[q].url@),
                    found ==> pos == acc@.len() || !lex_lt(acc@[pos as int].url@, j.url@),
                decreases acc@.len() - pos + if found {
                    0int
                } else {
                    1int
                },
            {
                if pos == acc.len() {
                    found = true;
                } else if !str_lt(acc[pos].url.as_str(), j.url.as_str()) {
                    found = true;
                } else {
                    pos += 1;
                }
            }
            proof {
                if (pos as int) < acc@.len() {
                    assert(lex_lt(j.url@, acc@[pos as int].url@)) by {
                        assert(acc@[pos as int].url@ != j.url@) by {
                            if acc@[pos as int].url@ == j.url@ {
                                assert(url_in(acc@, j.url@));
                            }
                        }
                        if !lex_lt(j.url@, acc@[pos as int].url@) {
                            lemma_lex_connected(acc@[pos as int].url@, j.url@);
                        }
                    }
                }
            }
            let ghost old_acc = acc@;
            acc.insert(pos, j);
            proof {
                let na = acc@;
                assert forall|p: int, q: int|
                    0 <= p < q < na.len() implies lex_lt(na[p].url@, na[q].url@) by {
                    if q < pos as int {
                        assert(na[p] == old_acc[p] && na[q] == old_acc[q]);
                    } else if p > pos as int {
                        assert(na[p] == old_acc[p - 1] && na[q] == old_acc[q - 1]);
                    } else if q == pos as int {
                        assert(na[p] == old_acc[p]);
                    } else if p == pos as int {
                        assert(na[q] == old_acc[q - 1]);
                        if q - 1 > pos as int {
                            assert(lex_lt(j.url@, old_acc[pos as int].url@));
                            assert(lex_lt(old_acc[pos as int].url@, old_acc[q - 1].url@));
                            lemma_lex_trans(j.url@, old_acc[pos as int].url@, old_acc[q - 1].url@);
                        }
                    } else {
                        // p < pos < q, so both ends come from the old list
                        assert(na[p] == old_acc[p] && na[q] == old_acc[q - 1]);
                        assert(p < q - 1);
                    }
                }
                assert forall|k: int| 0 <= k < na.len() implies url_in(orig, na[k].url@)
                    && na[k] == orig[first_with_url(orig, na[k].url@)] by {
                    if k < pos as int {
                        assert(na[k] == old_acc[k]);
                    } else if k > pos as int {
                        assert(na[k] == old_acc[k - 1]);
                    } else {
                        assert(na[k] == j);
                    }
                }
                assert forall|i: int| 0 <= i < taken + 1 implies url_in(acc@, orig[i].url@) by {
                    if i < taken as int {
                        let w = choose|w: int| 0 <= w < old_acc.len() && old_acc[w].url@
                            == orig[i].url@;
                        if w < pos as int {
                            assert(na[w] == old_acc[w]);
                        } else {
                            assert(na[w + 1] == old_acc[w]);
                        }
                    } else {
                        assert(na[pos as int] == j);
                    }
                }
            }
        }
        taken += 1;
    }
    proof {
        assert(orig.skip(taken as int).len() == 0);
        assert(taken == orig.len());
    }
    acc
}

// ----- the batch entry point -----

/// Whether a card survives normalization.
pub open spec fn kept_card(c: Card) -> bool {
    kept(c.title@, c.url@)
}

/// Whether a record is the normalization of some kept card of a batch.
pub open spec fn comes_from(
    cards: Seq<Card>,
    source: JobSource,
    scraped: ScrapeDate,
    fallback: Seq<char>,
    j: Job,
) -> bool {
    exists|i: int|
        0 <= i < cards.len() && #[trigger] kept_card(cards[i]) && normalized(
            cards[i],
            source,
            scraped,
            fallback,
            j,
        )
}

/// Some kept card of the batch carries the url `u`.
pub open spec fn kept_url_in(cards: Seq<Card>, u: Seq<char>) -> bool {
    exists|i: int| 0 <= i < cards.len() && #[trigger] kept_card(cards[i]) && cards[i].url@ == u
}

/// The first index in `cards` of a kept card carrying the url `u`.
pub open spec fn first_kept_with_url(cards: Seq<Card>, u: Seq<char>) -> int
    decreases cards.len(),
{
    if cards.len() == 0 {
        0
    } else if kept_card(cards[0]) && cards[0].url@ == u {
        0
    } else {
        1 + first_kept_with_url(cards.drop_first(), u)
    }
}

/// Characterization of [`first_kept_with_url`] when such a card occurs.
pub proof fn lemma_first_kept_with_url(cards: Seq<Card>, u: Seq<char>)
    requires
        kept_url_in(cards, u),
    ensures
        0 <= first_kept_with_url(cards, u) < cards.len(),
        kept_card(cards[first_kept_with_url(cards, u)]),
        cards[first_kept_with_url(cards, u)].url@ == u,
        forall|m: int|
            0 <= m < first_kept_with_url(cards, u) ==> !(#[trigger] kept_card(cards[m])
                && cards[m].url@ == u),
    decreases cards.len(),
{
    if cards.len() == 0 {
    } else if kept_card(cards[0]) && cards[0].url@ == u {
    } else {
        let t = cards.drop_first();
        assert(kept_url_in(t, u)) by {
            let k = choose|k: int|
                0 <= k < cards.len() && #[trigger] kept_card(cards[k]) && cards[k].url@ == u;
            assert(t[k - 1] == cards[k]);
            assert(kept_card(t[k - 1]));
        }
        lemma_first_kept_with_url(t, u);
        let f = first_kept_with_url(cards, u);
        assert(cards[f] == t[f - 1]);
        assert forall|m: int|
            0 <= m < f implies !(#[trigger] kept_card(cards[m]) && cards[m].url@ == u) by {
            if m > 0 {
                assert(cards[m] == t[m - 1]);
                assert(kept_card(cards[m]) ==> kept_card(t[m - 1]));
            }
        }
    }
}

/// Whether a record is the normalization of the first kept card of the batch
/// that carries the record's url.
pub open spec fn normalizes_first(
    cards: Seq<Card>,
    source: JobSource,
    scraped: ScrapeDate,
    fallback: Seq<char>,
    j: Job,
) -> bool {
    &&& kept_url_in(cards, j.url@)
    &&& normalized(cards[first_kept_with_url(cards, j.url@)], source, scraped, fallback, j)
}


/// Pushing the normalization of the next kept card preserves the batch
/// invariants: every record comes from a kept card, the first record with
/// each url is the normalization of the first kept card with that url, and
/// every kept card seen so far has its url represented.
#[verifier::rlimit(100)]
proof fn lemma_push_normalized(
    orig: Seq<Card>,
    source: JobSource,
    scraped: ScrapeDate,
    fallback: Seq<char>,
    old_jobs: Seq<Job>,
    j: Job,
    taken: int,
)
    requires
        0 <= taken < orig.len(),
        kept_card(orig[taken]),
        normalized(orig[taken], source, scraped, fallback, j),
        forall|m: int|
            0 <= m < old_jobs.len() ==> #[trigger] comes_from(
                orig,
                source,
                scraped,
                fallback,
                old_jobs[m],
            ),
        forall|m: int|
            #![trigger old_jobs[m]]
            0 <= m < old_jobs.len() && (forall|n: int|
                0 <= n < m ==> old_jobs[n].url@ != old_jobs[m].url@) ==> normalizes_first(
                orig,
                source,
                scraped,
                fallback,
                old_jobs[m],
            ),
        forall|i: int| 0 <= i < taken && kept_card(orig[i]) ==> url_in(old_jobs, orig[i].url@),
    ensures
        forall|m: int|
            0 <= m < old_jobs.push(j).len() ==> #[trigger] comes_from(
                orig,
                source,
                scraped,
                fallback,
                old_jobs.push(j)[m],
            ),
        forall|m: int|
            #![trigger old_jobs.push(j)[m]]
            0 <= m < old_jobs.push(j).len() && (forall|n: int|
                0 <= n < m ==> old_jobs.push(j)[n].url@ != old_jobs.push(j)[m].url@)
                ==> normalizes_first(orig, source, scraped, fallback, old_jobs.push(j)[m]),
        forall|i: int|
            0 <= i < taken + 1 && kept_card(orig[i]) ==> url_in(old_jobs.push(j), orig[i].url@),
{
    let njobs = old_jobs.push(j);
    assert forall|m: int|
        0 <= m < njobs.len() implies comes_from(orig, source, scraped, fallback, njobs[m]) by {
        if m < old_jobs.len() {
            assert(njobs[m] == old_jobs[m]);
        } else {
            assert(njobs[m] == j);
            assert(kept_card(orig[taken]) && normalized(orig[taken], source, scraped, fallback, j));
        }
    }
    assert forall|m: int| #![trigger njobs[m]]
        0 <= m < njobs.len() && (forall|n: int|
            0 <= n < m ==> njobs[n].url@ != njobs[m].url@) implies normalizes_first(
        orig,
        source,
        scraped,
        fallback,
        njobs[m],
    ) by {
        if m < old_jobs.len() {
            assert(njobs[m] == old_jobs[m]);
            assert(forall|n: int| 0 <= n < m ==> njobs[n] == old_jobs[n]);
            assert(normalizes_first(orig, source, scraped, fallback, old_jobs[m]));
        } else {
            // The new record: no earlier record shares its url, so the card
            // just consumed is the first kept card carrying it.
            assert(njobs[m] == j);
            assert(kept_card(orig[taken]) && orig[taken].url@ == j.url@);
            assert(kept_url_in(orig, j.url@));
            lemma_first_kept_with_url(orig, j.url@);
            let f = first_kept_with_url(orig, j.url@);
            if f < taken {
                assert(url_in(old_jobs, orig[f].url@));
                let w = choose|w: int|
                    0 <= w < old_jobs.len() && old_jobs[w].url@ == orig[f].url@;
                assert(njobs[w] == old_jobs[w]);
                assert(njobs[w].url@ == njobs[m].url@);
                assert(false);
            }
            if f > taken {
                assert(!(kept_card(orig[taken]) && orig[taken].url@ == j.url@));
                assert(false);
            }
            assert(normalized(orig[f], source, scraped, fallback, j));
        }
    }
    assert forall|i: int|
        0 <= i < taken + 1 && kept_card(orig[i]) implies url_in(njobs, orig[i].url@) by {
        if i < taken {
            let w = choose|w: int| 0 <= w < old_jobs.len() && old_jobs[w].url@ == orig[i].url@;
            assert(njobs[w] == old_jobs[w]);
        } else {
            assert(njobs[old_jobs.len() as int] == j);
            assert(j.url@ == orig[i].url@);
        }
    }
}

/// The batch entry point: normalize every card, silently dropping the
/// discarded ones, and return the finished records ordered by url with
/// duplicate urls collapsed.
#[verifier::rlimit(60)]
pub fn process_cards(
    cards: Vec<Card>,
    source: JobSource,
    scraped: ScrapeDate,
    fallback_location: &str,
) -> (r: Vec<Job>)
    requires
        scraped.wf(),
    ensures
        forall|p: int, q: int|
            0 <= p < q < r@.len() ==> lex_lt(r@[p].url@, r@[q].url@),
        forall|k: int|
            0 <= k < r@.len() ==> #[trigger] normalizes_first(
                cards@,
                source,
                scraped,
                fallback_location@,
                r@[k],
            ),
        forall|i: int|
            0 <= i < cards@.len() && kept_card(cards@[i]) ==> url_in(r@, cards@[i].url@),
{
    let ghost orig = cards@;
    let mut rest = cards;
    let total: usize = rest.len();
    let mut jobs: Vec<Job> = Vec::new();
    let mut taken: usize = 0;
    while rest.len() > 0
        invariant
            scraped.wf(),
            orig.len() == total,
            taken + rest@.len() == orig.len(),
            rest@ =~= orig.skip(taken as int),
            forall|m: int|
                0 <= m < jobs@.len() ==> #[trigger] comes_from(
                    orig,
                    source,
                    scraped,
                    fallback_location@,
                    jobs@[m],
                ),
            forall|m: int|
                #![trigger jobs@[m]]
                0 <= m < jobs@.len() && (forall|n: int|
                    0 <= n < m ==> jobs@[n].url@ != jobs@[m].url@) ==> normalizes_first(
                    orig,
                    source,
                    scraped,
                    fallback_location@,
                    jobs@[m],
                ),
            forall|i: int| 0 <= i < taken && kept_card(orig[i]) ==> url_in(jobs@, orig[i].url@),
        decreases rest@.len(),
    {
        let c = rest.remove(0);
        proof {
            assert(c == orig[taken as int]);
            assert(rest@ =~= orig.skip(taken as int + 1));
        }
        let ghost old_jobs = jobs@;
        match normalize_card(c, source, scraped, fallback_location) {
            Some(j) => {
                jobs.push(j);
                proof {
                    assert(jobs@ == old_jobs.push(j));
                    lemma_push_normalized(
                        orig,
                        source,
                        scraped,
                        fallback_location@,
                        old_jobs,
                        j,
                        taken as int,
                    );
                }
            },
            None => {},
        }
        taken += 1;
    }
    proof {
        assert(taken == orig.len());
    }
    let ghost all = jobs@;
    let r = dedup_jobs(jobs);
    proof {
        assert forall|k: int|
            0 <= k < r@.len() implies normalizes_first(
            cards@,
            source,
            scraped,
            fallback_location@,
            r@[k],
        ) by {
            assert(url_in(all, r@[k].url@));
            lemma_first_with_url(all, r@[k].url@);
            let f = first_with_url(all, r@[k].url@);
            assert(r@[k] == all[f]);
            assert(forall|n: int| 0 <= n < f ==> all[n].url@ != all[f].url@);
            assert(normalizes_first(orig, source, scraped, fallback_location@, all[f]));
            assert(orig == cards@);
        }
    }
    r
}

} // verus!
