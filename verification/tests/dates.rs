use forum_scraper::dates::{assemble_date, reformat_date};

#[test]
fn assemble_date_orders_year_month_day() {
    assert_eq!(assemble_date("12", "03", "2004", "14:22"), "2004-03-12 14:22");
}

#[test]
fn reformat_date_rewrites_forum_dates() {
    assert_eq!(reformat_date("12-03-2004 14:22"), Some("2004-03-12 14:22".to_string()));
    assert_eq!(reformat_date("12-03-2004  14:22"), Some("2004-03-12 14:22".to_string()));
    assert_eq!(reformat_date("Dato: 01-02-2003 04:05 x"), Some("2003-02-01 04:05".to_string()));
}

#[test]
fn reformat_date_rejects_other_text() {
    assert_eq!(reformat_date("abc"), None);
    assert_eq!(reformat_date("2004-03-12 14:22"), None);
    assert_eq!(reformat_date("12-03-2004   14:22"), None);
    assert_eq!(reformat_date(""), None);
}
