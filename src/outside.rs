use vstd::prelude::*;
use crate::model::ParsedName;
use crate::text::parser_safe;

verus! {

/// The title, year, season and episode that the file name parser reads out of
/// a file name, or `None` where it finds no title.
pub uninterp spec fn parsed_name_of(name: Seq<char>) -> Option<(Seq<char>, Option<i32>, Option<i32>, Option<i32>)>;

/// The year of a release date that reads as a valid `%Y-%m-%d` calendar date,
/// or `None` where it does not.
pub uninterp spec fn release_year_of(date: Seq<char>) -> Option<i32>;

/// Relies on torrent_name_parser::Metadata::from and its getters `title`,
/// `year`, `season` and `episode`: the result depends on the name alone, and
/// `from` fails where it finds no title. It parses the digit groups that its
/// patterns capture with `parse().unwrap()`: that panics on a group of ten or
/// more digits, which overflows an `i32`, and on a non-ASCII decimal digit,
/// which `\d` matches but `parse` refuses. `requires` leaves those names out.
#[verifier::external_body]
pub(crate) fn parse_file_name(name: &str) -> (r: Option<ParsedName>)
    requires
        parser_safe(name@),
    ensures
        r is Some <==> parsed_name_of(name@) is Some,
        r is Some ==> parsed_name_of(name@) == Some((r->0.title@, r->0.year, r->0.season, r->0.episode)),
{
    match torrent_name_parser::Metadata::from(name) {
        Ok(m) => Some(
            ParsedName { title: m.title().to_owned(), year: m.year(), season: m.season(), episode: m.episode() },
        ),
        Err(_) => None,
    }
}

/// Relies on chrono::NaiveDate::parse_from_str with the format "%Y-%m-%d",
/// and on chrono::Datelike::year of the date it returns.
#[verifier::external_body]
pub(crate) fn parse_release_year(date: &str) -> (r: Option<i32>)
    ensures
        r == release_year_of(date@),
{
    chrono::NaiveDate::parse_from_str(date, "%Y-%m-%d").ok().map(|d| chrono::Datelike::year(&d))
}

/// Relies on chrono::Utc::now and its `to_string`: the present moment as text.
/// Nothing is stated of it.
#[verifier::external_body]
pub(crate) fn now_text() -> (r: String) {
    chrono::Utc::now().to_string()
}

} // verus!
