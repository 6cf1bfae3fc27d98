//! Tests for the salary grammar and the metadata scanner.

use job_linkedin::analysis::analyze_job_text;
use job_linkedin::domain::EmploymentType;
use job_linkedin::grammar::parse_amount;
use job_linkedin::grammar::parse_currency;
use job_linkedin::grammar::parse_salary_string;

#[test]
fn amount_k_suffix() {
    let r = parse_amount("30k", 0).unwrap();
    assert_eq!(r.0, 3);
    assert_eq!(r.1, "30000");
}

#[test]
fn amount_dot_separator() {
    let r = parse_amount("30.000", 0).unwrap();
    assert_eq!(r.0, 6);
    assert_eq!(r.1, "30000");
}

#[test]
fn amount_comma_separator() {
    let r = parse_amount("30,000", 0).unwrap();
    assert_eq!(r.1, "30000");
}

#[test]
fn amount_plain_digits() {
    let r = parse_amount("1500", 0).unwrap();
    assert_eq!(r.0, 4);
    assert_eq!(r.1, "1500");
}

#[test]
fn amount_leading_non_digit_fails() {
    assert!(parse_amount("x1500", 0).is_none());
    assert!(parse_amount("", 0).is_none());
}

#[test]
fn currency_euro_sign_after_space() {
    let r = parse_currency(" €", 0).unwrap();
    assert_eq!(r.0, 2);
    assert_eq!(r.1, "€");
}

#[test]
fn currency_eur_word_matches() {
    let r = parse_currency("EUR", 0).unwrap();
    assert_eq!(r.1, "EUR");
}

#[test]
fn currency_returns_literal_matched_slice() {
    assert_eq!(parse_currency("usd", 0).unwrap().1, "usd");
    assert_eq!(parse_currency("Usd", 0).unwrap().1, "Usd");
    assert_eq!(parse_currency("Euros", 0).unwrap().1, "Eur");
}

#[test]
fn currency_pound_fails() {
    assert!(parse_currency("£", 0).is_none());
}

#[test]
fn salary_range_with_k_and_euro() {
    let r = parse_salary_string("30k-40k€", 0).unwrap();
    assert_eq!(r.0, 8);
    assert_eq!(r.1, "30000 - 40000 €");
}

#[test]
fn salary_single_usd() {
    let r = parse_salary_string("3000usd", 0).unwrap();
    assert_eq!(r.0, 7);
    assert_eq!(r.1, "3000 USD");
}

#[test]
fn salary_range_with_word_separator() {
    let r = parse_salary_string("30k a 40k eur", 0).unwrap();
    assert_eq!(r.1, "30000 - 40000 EUR");
}

#[test]
fn salary_euros_word_matches_its_eur_prefix() {
    // The `eur` token is tried before `euros`, so only its prefix is consumed.
    let r = parse_salary_string("3000euros", 0).unwrap();
    assert_eq!(r.0, 7);
    assert_eq!(r.1, "3000 EUR");
}

#[test]
fn scanner_skips_year_like_match() {
    let meta = analyze_job_text("Publicado en 2024. Salario 3000€");
    assert_eq!(meta.salary, Some("3000 €".to_string()));
}

#[test]
fn scanner_no_salary_when_no_pattern() {
    let meta = analyze_job_text("Puesto de trabajo sin datos");
    assert_eq!(meta.salary, None);
    assert_eq!(meta.contract, EmploymentType::Unknown);
    assert!(!meta.is_remote);
    assert_eq!(meta.days_ago, 0);
}

#[test]
fn remote_from_percent() {
    let meta = analyze_job_text("Trabajo 100% flexible");
    assert!(meta.is_remote);
}

#[test]
fn remote_from_keyword_case_insensitive() {
    assert!(analyze_job_text("Posición REMOTO en equipo").is_remote);
    assert!(analyze_job_text("Full remote position").is_remote);
    assert!(analyze_job_text("Ofrecemos teletrabajo").is_remote);
}

#[test]
fn remote_absent_without_keywords() {
    assert!(!analyze_job_text("Totally on-site position in Madrid").is_remote);
}

#[test]
fn contract_priority_full_time_wins() {
    let meta = analyze_job_text("Contrato indefinido o freelance");
    assert_eq!(meta.contract, EmploymentType::FullTime);
}

#[test]
fn contract_groups() {
    assert_eq!(analyze_job_text("contrato temporal").contract, EmploymentType::Temporary);
    assert_eq!(analyze_job_text("busco freelance").contract, EmploymentType::Contractor);
    assert_eq!(analyze_job_text("trabajo de autónomo").contract, EmploymentType::Contractor);
    assert_eq!(analyze_job_text("beca de verano").contract, EmploymentType::Intern);
    assert_eq!(analyze_job_text("prácticas en empresa").contract, EmploymentType::Intern);
    assert_eq!(analyze_job_text("puesto fijo").contract, EmploymentType::FullTime);
}

#[test]
fn days_ago_parsed() {
    let meta = analyze_job_text("Publicado hace 3 días");
    assert_eq!(meta.days_ago, 3);
}

#[test]
fn days_ago_without_number() {
    let meta = analyze_job_text("hace poco");
    assert_eq!(meta.days_ago, 0);
}

#[test]
fn days_ago_with_leading_plus() {
    assert_eq!(analyze_job_text("publicado hace +3 días").days_ago, 3);
    assert_eq!(analyze_job_text("publicado hace ++3 días").days_ago, 0);
}

#[test]
fn days_ago_unaccented_unit() {
    assert_eq!(analyze_job_text("publicado hace 12 dias").days_ago, 12);
}

#[test]
fn days_ago_needs_unit_word() {
    assert_eq!(analyze_job_text("hace 3 meses").days_ago, 0);
}

#[test]
fn days_ago_overflow_is_zero() {
    assert_eq!(analyze_job_text("hace 99999999999999999999999 días").days_ago, 0);
}

#[test]
fn employment_type_display() {
    assert_eq!(EmploymentType::FullTime.to_string(), "Jornada Completa");
    assert_eq!(EmploymentType::Contractor.to_string(), "Contrato / Autónomo");
    assert_eq!(EmploymentType::Unknown.to_string(), "No especificado");
}
