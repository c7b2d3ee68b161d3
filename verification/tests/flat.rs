use forum_scraper::flat::{plan_flat_file, process_flat_page, FlatPlan, FlatPost};

fn rows(parts: &[&[&str]]) -> Vec<Vec<String>> {
    parts.iter().map(|r| r.iter().map(|s| s.to_string()).collect()).collect()
}

fn scraped(path: &str) -> FlatPost {
    match plan_flat_file(path) {
        FlatPlan::Scrape(p) => p,
        _ => panic!("expected a record for {path}"),
    }
}

#[test]
fn flat_plans() {
    let p = scraped("../volvo240.dk/f%3D4/showsub.asp?forumid=3&id=9&showsub=11");
    assert_eq!((p.forum_id, p.post_id, p.sub_id), (3, 9, Some(11)));
    assert!(!p.corrected);
    let p = scraped("../volvo240.dk/f%3D4/thread.asp?ForumID=3&id=9%26amp;");
    assert_eq!((p.forum_id, p.post_id, p.sub_id), (3, 9, None));
    match plan_flat_file("../volvo240.dk/f%3D4/a.asp?forumid=3&f=4") {
        FlatPlan::Reject(e) => assert_eq!(e, "unrecognized key f"),
        _ => panic!("expected an error"),
    }
    assert!(matches!(plan_flat_file("../volvo240.dk/f%3D4/a.asp?forumid=x"), FlatPlan::Malformed));
    assert!(matches!(plan_flat_file("../volvo240.dk/f%3D4/a.png"), FlatPlan::Skip));
    assert!(matches!(plan_flat_file("../volvo240.dk/a.asp?forumid=3"), FlatPlan::Skip));
}

#[test]
fn flat_page_keeps_rows_as_they_stand() {
    let post = scraped("../volvo240.dk/f%3D4/showsub.asp?forumid=3&id=9");
    let page = rows(&[
        &["Emne:", " Bremser "],
        &["Navn: Bo"],
        &["E-mail: bo@x.dk"],
        &["Dato: 01-01-2001"],
        &["Hvad ", "gør jeg?"],
        &["Svar: ", "Skift dem"],
    ]);
    let p = process_flat_page("f", post, Some(page)).unwrap();
    assert_eq!(p.title, "Emne: Bremser");
    assert_eq!(p.author, "Navn: Bo");
    assert_eq!(p.email, Some("E-mail: bo@x.dk".to_string()));
    assert_eq!(p.date, "Dato: 01-01-2001");
    assert_eq!(p.initial_content, "Hvad gør jeg?");
    assert_eq!(p.reply_content, "Svar: Skift dem");
    assert!(!p.corrected);
    assert_eq!((p.forum_id, p.post_id), (3, 9));
}

#[test]
fn flat_page_without_email_and_errors() {
    let post = || scraped("../volvo240.dk/f%3D4/showsub.asp?forumid=3&id=9");
    let page = rows(&[&["T"], &["A"], &["Dato: x"], &["C"], &["R"]]);
    let p = process_flat_page("f", post(), Some(page)).unwrap();
    assert_eq!(p.email, None);
    assert_eq!(p.date, "Dato: x");
    assert_eq!(p.reply_content, "R");
    assert_eq!(process_flat_page("f", post(), None).unwrap_err(), "f: no post");
    let page = rows(&[&["T"], &["A"], &["D"], &["C"]]);
    assert_eq!(process_flat_page("f", post(), Some(page)).unwrap_err(), "f: no reply_content");
    let page = rows(&[&["T"], &[" "]]);
    assert_eq!(process_flat_page("f", post(), Some(page)).unwrap_err(), "f: no author");
    let page = rows(&[&["T"], &["A"], &["E-mail: x"]]);
    assert_eq!(process_flat_page("f", post(), Some(page)).unwrap_err(), "f: no date");
}
