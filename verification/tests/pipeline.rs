//! Tests for record normalization, deduplication and the batch entry point.

use job_linkedin::domain::EmploymentType;
use job_linkedin::domain::JobSource;
use job_linkedin::domain::ScrapeDate;
use job_linkedin::domain::iso_date_string;
use job_linkedin::records::dedup_jobs;
use job_linkedin::records::normalize_card;
use job_linkedin::records::process_cards;
use job_linkedin::records::Card;

fn card(title: &str, url: &str, snippet: &str, meta_line: &str) -> Card {
    Card {
        title: title.to_string(),
        url: url.to_string(),
        snippet: snippet.to_string(),
        meta_line: meta_line.to_string(),
    }
}

fn scrape_date() -> ScrapeDate {
    ScrapeDate { year: 2026, month: 10, day: 11 }
}

#[test]
fn iso_formatting_pads() {
    assert_eq!(iso_date_string(ScrapeDate { year: 987, month: 3, day: 5 }), "0987-03-05");
    assert_eq!(iso_date_string(scrape_date()), "2026-10-11");
}

#[test]
fn end_to_end_card() {
    let c = card(
        "Backend Engineer - Acme Corp",
        "https://jobs.example.com/123",
        "Remote, 35k-45k€, hace 2 días",
        "",
    );
    let j = normalize_card(c, JobSource::GoogleLinkedIn, scrape_date(), "España").unwrap();
    assert_eq!(j.title, "Backend Engineer");
    assert_eq!(j.company, "Acme Corp");
    assert_eq!(j.salary, Some("35000 - 45000 €".to_string()));
    assert_eq!(j.location_type, Some("TELECOMMUTE".to_string()));
    assert_eq!(j.date_posted_iso, "2026-10-09");
    assert_eq!(j.contract_type, EmploymentType::Unknown);
    assert_eq!(j.description_snippet, "Remote, 35k-45k€, hace 2 días");
    assert_eq!(j.location, "Remote, 35k-45k€, hace 2 días");
    assert_eq!(j.url, "https://jobs.example.com/123");
}

#[test]
fn company_from_host_strips_www() {
    let c = card("Data Engineer", "https://www.example.com/job/1", "", "");
    let j = normalize_card(c, JobSource::GoogleGeneral, scrape_date(), "Madrid").unwrap();
    assert_eq!(j.company, "example.com");
    // With an empty snippet the caller's location is used.
    assert_eq!(j.location, "Madrid");
}

#[test]
fn company_between_first_and_second_separator() {
    let c = card("Dev - Acme - Madrid", "https://x.example/1", "", "");
    let j = normalize_card(c, JobSource::GoogleGeneral, scrape_date(), "").unwrap();
    assert_eq!(j.title, "Dev");
    assert_eq!(j.company, "Acme");
}

#[test]
fn company_fallback_when_url_unparseable() {
    let c = card("Dev", "notaurl", "", "");
    let j = normalize_card(c, JobSource::GoogleGeneral, scrape_date(), "").unwrap();
    assert_eq!(j.company, "Vía Google");
}

#[test]
fn discards_blank_title() {
    let c = card("   ", "https://x.example/1", "", "");
    assert!(normalize_card(c, JobSource::GoogleGeneral, scrape_date(), "").is_none());
}

#[test]
fn discards_empty_or_search_engine_url() {
    let c = card("Dev", "", "", "");
    assert!(normalize_card(c, JobSource::GoogleGeneral, scrape_date(), "").is_none());
    let c2 = card("Dev", "https://www.google.com/url?q=x", "", "");
    assert!(normalize_card(c2, JobSource::GoogleGeneral, scrape_date(), "").is_none());
}

#[test]
fn long_snippet_truncated_into_location() {
    let snippet = "a".repeat(100);
    let c = card("Dev", "https://x.example/1", &snippet, "");
    let j = normalize_card(c, JobSource::GoogleGeneral, scrape_date(), "").unwrap();
    let expected = format!("{}...", "a".repeat(80));
    assert_eq!(j.location, expected);
}

#[test]
fn date_defaults_to_scrape_date() {
    let c = card("Dev", "https://x.example/1", "sin fecha", "");
    let j = normalize_card(c, JobSource::GoogleGeneral, scrape_date(), "").unwrap();
    assert_eq!(j.date_posted_iso, "2026-10-11");
}

#[test]
fn date_crosses_month_boundary() {
    let c = card("Dev", "https://x.example/1", "hace 15 días", "");
    let j = normalize_card(c, JobSource::GoogleGeneral, scrape_date(), "").unwrap();
    assert_eq!(j.date_posted_iso, "2026-09-26");
}

#[test]
fn dedup_collapses_same_url_keeping_first() {
    let cards = vec![
        card("Title One - A", "https://x.example/same", "", ""),
        card("Title Two - B", "https://x.example/same", "", ""),
    ];
    let out = process_cards(cards, JobSource::GoogleGeneral, scrape_date(), "");
    assert_eq!(out.len(), 1);
    assert_eq!(out[0].title, "Title One");
    assert_eq!(out[0].company, "A");
}

#[test]
fn output_sorted_by_url() {
    let cards = vec![
        card("C - X", "https://x.example/c", "", ""),
        card("A - X", "https://x.example/a", "", ""),
        card("B - X", "https://x.example/b", "", ""),
    ];
    let out = process_cards(cards, JobSource::GoogleGeneral, scrape_date(), "");
    let urls: Vec<&str> = out.iter().map(|j| j.url.as_str()).collect();
    assert_eq!(
        urls,
        vec!["https://x.example/a", "https://x.example/b", "https://x.example/c"]
    );
}

#[test]
fn dedup_jobs_directly() {
    let cards = vec![
        card("B - X", "https://x.example/b", "", ""),
        card("A - X", "https://x.example/a", "", ""),
        card("A2 - X", "https://x.example/a", "", ""),
    ];
    let mut jobs = Vec::new();
    for c in cards {
        jobs.push(normalize_card(c, JobSource::GoogleGeneral, scrape_date(), "").unwrap());
    }
    let out = dedup_jobs(jobs);
    assert_eq!(out.len(), 2);
    assert_eq!(out[0].url, "https://x.example/a");
    assert_eq!(out[0].title, "A");
    assert_eq!(out[1].url, "https://x.example/b");
}

#[test]
fn source_display() {
    assert_eq!(JobSource::GoogleLinkedIn.to_string(), "LinkedIn");
    assert_eq!(JobSource::GoogleGeneral.to_string(), "Google Search");
    assert_eq!(JobSource::DirectLinkedIn.to_string(), "Directo");
}
