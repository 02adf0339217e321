use imap::extensions::sort::{SortCharset, SortCriteria, SortCriterion};

#[test]
fn test_criterion_to_string() {
    assert_eq!("ARRIVAL", SortCriterion::Arrival.to_string());
    assert_eq!("CC", SortCriterion::Cc.to_string());
    assert_eq!("DATE", SortCriterion::Date.to_string());
    assert_eq!("FROM", SortCriterion::From.to_string());
    assert_eq!("SIZE", SortCriterion::Size.to_string());
    assert_eq!("SUBJECT", SortCriterion::Subject.to_string());
    assert_eq!("TO", SortCriterion::To.to_string());
    assert_eq!("REVERSE TO", SortCriterion::Reverse(&SortCriterion::To).to_string());
    assert_eq!("REVERSE REVERSE TO", SortCriterion::Reverse(&SortCriterion::Reverse(&SortCriterion::To)).to_string());
}

#[test]
fn test_criteria_to_string() {
    assert_eq!("", SortCriteria(&[]).to_string());
    assert_eq!("(ARRIVAL)", SortCriteria(&[SortCriterion::Arrival]).to_string());
    assert_eq!(
        "(ARRIVAL REVERSE FROM)",
        SortCriteria(&[SortCriterion::Arrival, SortCriterion::Reverse(&SortCriterion::From)]).to_string()
    );
    assert_eq!(
        "(ARRIVAL REVERSE REVERSE REVERSE FROM)",
        SortCriteria(&[SortCriterion::Arrival, SortCriterion::Reverse(&SortCriterion::Reverse(&SortCriterion::Reverse(&SortCriterion::From)))]).to_string()
    );
}

#[test]
fn test_charset_to_string() {
    assert_eq!("UTF-8", SortCharset::Utf8.to_string());
    assert_eq!("US-ASCII", SortCharset::UsAscii.to_string());
    assert_eq!("CHARSET", SortCharset::Custom("CHARSET".into()).to_string());
}
