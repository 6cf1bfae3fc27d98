//! The record types: employment classification, record source, the scrape
//! date, and the finished job record.

use vstd::prelude::*;
use vstd::string::StringExecFns;
use chrono::Datelike;

verus! {

/// Employment-type classification, a closed set; `Unknown` when no keyword
/// group matches.
#[derive(Clone, Copy, Debug, PartialEq, Eq, Structural)]
pub enum EmploymentType {
    FullTime,
    PartTime,
    Contractor,
    Temporary,
    Intern,
    Freelance,
    Unknown,
}

impl Default for EmploymentType {
    fn default() -> (r: Self)
        ensures
            r == EmploymentType::Unknown,
    {
        EmploymentType::Unknown
    }
}

impl EmploymentType {
    /// The display string of each variant.
    pub open spec fn display(self) -> Seq<char> {
        match self {
            EmploymentType::FullTime => "Jornada Completa"@,
            EmploymentType::PartTime => "Media Jornada"@,
            EmploymentType::Contractor => "Contrato / Autónomo"@,
            EmploymentType::Temporary => "Temporal"@,
            EmploymentType::Intern => "Becario"@,
            EmploymentType::Freelance => "Freelance"@,
            EmploymentType::Unknown => "No especificado"@,
        }
    }

    /// Render the classification for display.
    pub fn to_string(&self) -> (r: String)
        ensures
            r@ == self.display(),
    {
        match self {
            EmploymentType::FullTime => String::from_str("Jornada Completa"),
            EmploymentType::PartTime => String::from_str("Media Jornada"),
            EmploymentType::Contractor => String::from_str("Contrato / Autónomo"),
            EmploymentType::Temporary => String::from_str("Temporal"),
            EmploymentType::Intern => String::from_str("Becario"),
            EmploymentType::Freelance => String::from_str("Freelance"),
            EmploymentType::Unknown => String::from_str("No especificado"),
        }
    }
}

/// Where a record was discovered.
#[derive(Clone, Copy, Debug, PartialEq, Eq, Structural)]
pub enum JobSource {
    GoogleLinkedIn,
    GoogleInfoJobs,
    GoogleIndeed,
    GoogleGlassdoor,
    GoogleManfred,
    GoogleTicjob,
    GoogleStackOverflow,
    GoogleWeWorkRemotely,
    GoogleRemoteOK,
    GoogleGeneral,
    DirectLinkedIn,
    DirectInfoJobs,
    DirectIndeed,
}

impl JobSource {
    /// The display string of each variant.
    pub open spec fn display(self) -> Seq<char> {
        match self {
            JobSource::GoogleLinkedIn => "LinkedIn"@,
            JobSource::GoogleInfoJobs => "InfoJobs"@,
            JobSource::GoogleIndeed => "Indeed"@,
            JobSource::GoogleGlassdoor => "Glassdoor"@,
            JobSource::GoogleManfred => "Manfred"@,
            JobSource::GoogleTicjob => "TicJob"@,
            JobSource::GoogleStackOverflow => "StackOverflow"@,
            JobSource::GoogleWeWorkRemotely => "WeWorkRemotely"@,
            JobSource::GoogleRemoteOK => "RemoteOK"@,
            JobSource::GoogleGeneral => "Google Search"@,
            _ => "Directo"@,
        }
    }

    /// Render the source for display.
    pub fn to_string(&self) -> (r: String)
        ensures
            r@ == self.display(),
    {
        match self {
            JobSource::GoogleLinkedIn => String::from_str("LinkedIn"),
            JobSource::GoogleInfoJobs => String::from_str("InfoJobs"),
            JobSource::GoogleIndeed => String::from_str("Indeed"),
            JobSource::GoogleGlassdoor => String::from_str("Glassdoor"),
            JobSource::GoogleManfred => String::from_str("Manfred"),
            JobSource::GoogleTicjob => String::from_str("TicJob"),
            JobSource::GoogleStackOverflow => String::from_str("StackOverflow"),
            JobSource::GoogleWeWorkRemotely => String::from_str("WeWorkRemotely"),
            JobSource::GoogleRemoteOK => String::from_str("RemoteOK"),
            JobSource::GoogleGeneral => String::from_str("Google Search"),
            _ => String::from_str("Directo"),
        }
    }
}

// ----- the scrape date -----

/// The calendar date a batch was scraped, supplied by the caller.
#[derive(Clone, Copy, Debug, PartialEq, Eq, Structural)]
pub struct ScrapeDate {
    pub year: i32,
    pub month: u32,
    pub day: u32,
}

impl ScrapeDate {
    /// A plausible calendar date whose year fits in four digits.
    pub open spec fn wf(self) -> bool {
        0 <= self.year <= 9999 && 1 <= self.month <= 12 && 1 <= self.day <= 31
    }
}

/// The digit character for a value below ten.
pub open spec fn digit_char(v: int) -> char {
    if v == 0 {
        '0'
    } else if v == 1 {
        '1'
    } else if v == 2 {
        '2'
    } else if v == 3 {
        '3'
    } else if v == 4 {
        '4'
    } else if v == 5 {
        '5'
    } else if v == 6 {
        '6'
    } else if v == 7 {
        '7'
    } else if v == 8 {
        '8'
    } else {
        '9'
    }
}

/// ISO text of a calendar date: zero-padded `YYYY-MM-DD`.
pub open spec fn iso_of(y: int, m: int, d: int) -> Seq<char> {
    seq![
        digit_char(y / 1000 % 10),
        digit_char(y / 100 % 10),
        digit_char(y / 10 % 10),
        digit_char(y % 10),
        '-',
        digit_char(m / 10 % 10),
        digit_char(m % 10),
        '-',
        digit_char(d / 10 % 10),
        digit_char(d % 10),
    ]
}

/// ISO text of a [`ScrapeDate`].
pub open spec fn iso_of_date(dt: ScrapeDate) -> Seq<char> {
    iso_of(dt.year as int, dt.month as int, dt.day as int)
}

/// The one-character string for a digit value.
fn digit_str(v: u32) -> (r: &'static str)
    requires
        v <= 9,
    ensures
        r@ == seq![digit_char(v as int)],
{
    let r: &'static str = if v == 0 {
        "0"
    } else if v == 1 {
        "1"
    } else if v == 2 {
        "2"
    } else if v == 3 {
        "3"
    } else if v == 4 {
        "4"
    } else if v == 5 {
        "5"
    } else if v == 6 {
        "6"
    } else if v == 7 {
        "7"
    } else if v == 8 {
        "8"
    } else {
        "9"
    };
    proof {
        reveal_strlit("0");
        reveal_strlit("1");
        reveal_strlit("2");
        reveal_strlit("3");
        reveal_strlit("4");
        reveal_strlit("5");
        reveal_strlit("6");
        reveal_strlit("7");
        reveal_strlit("8");
        reveal_strlit("9");
        assert(r@ =~= seq![digit_char(v as int)]);
    }
    r
}

/// Format a date as ISO `YYYY-MM-DD`.
pub fn iso_date_string(dt: ScrapeDate) -> (r: String)
    requires
        dt.wf(),
    ensures
        r@ == iso_of_date(dt),
{
    let y = dt.year as u32;
    let mut out = String::from_str(digit_str(y / 1000));
    out.append(digit_str(y / 100 % 10));
    out.append(digit_str(y / 10 % 10));
    out.append(digit_str(y % 10));
    out.append("-");
    out.append(digit_str(dt.month / 10));
    out.append(digit_str(dt.month % 10));
    out.append("-");
    out.append(digit_str(dt.day / 10));
    out.append(digit_str(dt.day % 10));
    proof {
        reveal_strlit("-");
        assert(out@ =~= iso_of_date(dt));
    }
    out
}

/// What the calendar library computes for a date moved back by a number of
/// days: the resulting (year, month, day), or nothing when the input is not a
/// real calendar date or the result falls outside the supported range.
pub uninterp spec fn days_before(y: int, m: int, d: int, n: int) -> Option<(int, int, int)>;

/// Relies on chrono's `NaiveDate::from_ymd_opt` and `checked_sub_days`: moves
/// a calendar date back by `n` days. A returned date is a real calendar date,
/// so its month and day are in range.
#[verifier::external_body]
pub(crate) fn sub_days(y: i32, m: u32, d: u32, n: u64) -> (r: Option<(i32, u32, u32)>)
    ensures
        match r {
            Some(t) => days_before(y as int, m as int, d as int, n as int) == Some(
                (t.0 as int, t.1 as int, t.2 as int),
            ) && 1 <= t.1 <= 12 && 1 <= t.2 <= 31,
            None => days_before(y as int, m as int, d as int, n as int) is None,
        },
{
    let date = chrono::NaiveDate::from_ymd_opt(y, m, d)?;
    let back = date.checked_sub_days(chrono::Days::new(n))?;
    Some((back.year(), back.month(), back.day()))
}

// ----- the record -----

/// A finished, structured job record.
#[derive(Debug, Clone)]
pub struct Job {
    pub title: String,
    pub company: String,
    pub location: String,
    pub salary: Option<String>,
    pub contract_type: EmploymentType,
    pub url: String,
    pub source: JobSource,
    pub date_posted_iso: String,
    pub description_snippet: String,
    pub location_type: Option<String>,
}

impl Job {
    /// A fresh record for one scraped card, dated at the scrape date, with
    /// every extracted field at its default.
    pub fn new(title: String, company: String, url: String, source: JobSource, scraped: ScrapeDate) -> (j: Job)
        requires
            scraped.wf(),
        ensures
            j.title@ == title@,
            j.company@ == company@,
            j.url@ == url@,
            j.source == source,
            j.location@ == "España"@,
            j.salary is None,
            j.contract_type == EmploymentType::Unknown,
            j.date_posted_iso@ == iso_of_date(scraped),
            j.description_snippet@ == Seq::<char>::empty(),
            j.location_type is None,
    {
        Job {
            title,
            company,
            url,
            source,
            location: String::from_str("España"),
            salary: None,
            contract_type: EmploymentType::Unknown,
            date_posted_iso: iso_date_string(scraped),
            description_snippet: String::new(),
            location_type: None,
        }
    }
}

} // verus!
