use atletiek_nu_api::error::ParseError;

#[test]
fn every_error_has_its_message() {
    assert_eq!(ParseError::InvalidSelector.message(), "a CSS selector did not compile");
    assert_eq!(ParseError::MissingResultsList.message(), "no div.list-athlete-results found");
    assert_eq!(
        ParseError::MissingAthleteName.message(),
        "could not find athlete name in mobile profile"
    );
    assert_eq!(ParseError::ZeroRowspan.message(), "a category cell has rowspan 0");
}
