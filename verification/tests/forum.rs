use forum_scraper::forum::{
    author_and_date, checked_post_from_query, is_duplicate_key_error, is_image_path,
    normalize_query, parse_li_element, parse_link_id, parse_sub_reply_content, plan_file,
    post_from_pairs, process_page, read_error, reply_text_of, FilePlan, IdCounter, Item,
    ListEntry, PageRow, Post, Reply, ReplyRow, FIRST_COUNTER_ID,
};

fn strings(parts: &[&str]) -> Vec<String> {
    parts.iter().map(|s| s.to_string()).collect()
}

fn li(author_line: &str, href: Option<&str>) -> ListEntry {
    ListEntry {
        name: "li".to_string(),
        em_text: Some(strings(&[author_line])),
        link_href: href.map(|h| h.to_string()),
        text: strings(&["Re: emne", author_line]),
    }
}

fn element(name: &str, text: &[&str]) -> ListEntry {
    ListEntry { name: name.to_string(), em_text: None, link_href: None, text: strings(text) }
}

fn reply_block(author_line: &str, href: Option<&str>, body: &[&str]) -> Vec<ListEntry> {
    vec![li(author_line, href), element("br", &[]), element("font", body), element("br", &[])]
}

fn row(text: &[&str]) -> PageRow {
    PageRow { text: strings(text), reply: ReplyRow { depth: 0, items: Vec::new() } }
}

fn reply_row(items: Vec<ListEntry>) -> PageRow {
    PageRow { text: strings(&["..."]), reply: ReplyRow { depth: 3, items } }
}

#[test]
fn link_ids_come_from_showsub() {
    let with = |h: &str| ListEntry { link_href: Some(h.to_string()), ..element("li", &[]) };
    assert_eq!(parse_link_id(&with("forum.asp?f=4&ShowSub=123")), Some(123));
    assert_eq!(parse_link_id(&with("showsub=abc")), None);
    assert_eq!(parse_link_id(&with("SHOWSUB=99999999999")), None);
    assert_eq!(parse_link_id(&element("li", &[])), None);
}

#[test]
fn author_and_date_read_from_em() {
    let e = li("(Peter Hansen, 01-02-2003 04:05)", None);
    let (a, d) = author_and_date(&e).unwrap();
    assert_eq!(a, "Peter Hansen");
    assert_eq!(d, "2003-02-01 04:05");
}

#[test]
fn author_errors() {
    assert_eq!(author_and_date(&element("li", &[])).unwrap_err(), "invalid author info");
    assert_eq!(author_and_date(&li("no author here", None)).unwrap_err(), "invalid author info");
    let split = ListEntry {
        em_text: Some(strings(&["(Ole, 01-02-", "2003 04:05)"])),
        ..element("li", &[])
    };
    assert_eq!(author_and_date(&split).unwrap().0, "Ole");
}

#[test]
fn reply_text_joins_paragraphs() {
    assert_eq!(reply_text_of(&strings(&[" a ", "b\n", "  "])), "a\n\nb");
    assert_eq!(reply_text_of(&strings(&[])), "");
    assert_eq!(reply_text_of(&strings(&["x"])), "x");
}

#[test]
fn li_element_with_link_number() {
    let entries = reply_block("(Ann, 05-06-2007 08:09)", Some("x.asp?showsub=77"), &[" Hej ", "med dig"]);
    let mut counter = IdCounter::new();
    let (n, reply) = parse_li_element(4, 9, &entries, 0, &mut counter).unwrap();
    let reply: Reply = reply.unwrap();
    assert_eq!(n, 4);
    assert_eq!(reply.forum_id, 4);
    assert_eq!(reply.post_id, 9);
    assert_eq!(reply.sub_id, 77);
    assert_eq!(reply.author, "Ann");
    assert_eq!(reply.date, "2007-06-05 08:09");
    assert_eq!(reply.content, "Hej\n\nmed dig");
    assert_eq!(counter.next, FIRST_COUNTER_ID);
}

#[test]
fn li_element_without_link_number_takes_from_counter() {
    let entries = reply_block("(Ann, 05-06-2007 08:09)", None, &["t"]);
    let mut counter = IdCounter::new();
    let (_, reply) = parse_li_element(1, 2, &entries, 0, &mut counter).unwrap();
    assert_eq!(reply.unwrap().sub_id, 100000);
    assert_eq!(counter.next, 100001);
}

#[test]
fn li_element_followed_by_li_is_superseded() {
    let mut entries = vec![li("(First, 01-01-2001 01:01)", None)];
    entries.extend(reply_block("(Second, 02-02-2002 02:02)", None, &["body"]));
    let mut counter = IdCounter::new();
    let (n, reply) = parse_li_element(1, 2, &entries, 0, &mut counter).unwrap();
    let reply = reply.unwrap();
    assert_eq!(n, 5);
    assert_eq!(reply.author, "Second");
    assert_eq!(reply.sub_id, 100001);
    assert_eq!(counter.next, 100002);
}

#[test]
fn li_element_at_the_end() {
    let entries = vec![li("(A, 01-01-2001 01:01)", None)];
    let mut counter = IdCounter::new();
    let (n, reply) = parse_li_element(1, 2, &entries, 0, &mut counter).unwrap();
    assert_eq!(n, 0);
    assert!(reply.is_none());
}

#[test]
fn li_element_errors() {
    let a = "(A, 01-01-2001 01:01)";
    let mut counter = IdCounter::new();
    let e = vec![li(a, None), element("p", &[])];
    assert_eq!(parse_li_element(1, 2, &e, 0, &mut counter).unwrap_err(), "unhandled element: <p>");
    let e = vec![li(a, None), element("br", &[])];
    assert_eq!(parse_li_element(1, 2, &e, 0, &mut counter).unwrap_err(), "reply missing content");
    let e = vec![li(a, None), element("br", &[]), element("font", &["x"])];
    assert_eq!(parse_li_element(1, 2, &e, 0, &mut counter).unwrap_err(), "expected <br>, got None");
    let e = vec![li(a, None), element("br", &[]), element("font", &["x"]), element("hr", &[])];
    assert_eq!(parse_li_element(1, 2, &e, 0, &mut counter).unwrap_err(), "expected <br>, got hr");
    let e = vec![li("(A, 2001)", None), element("br", &[])];
    assert_eq!(parse_li_element(1, 2, &e, 0, &mut counter).unwrap_err(), "invalid author info");
}

#[test]
fn counter_wraps_around() {
    let mut counter = IdCounter { next: i32::MAX };
    assert_eq!(counter.take(), i32::MAX);
    assert_eq!(counter.next, i32::MIN);
}

#[test]
fn reply_list_depth_errors() {
    let mut counter = IdCounter::new();
    for (depth, msg) in [(0, "no <td>"), (1, "no <font>"), (2, "no <ul>")] {
        let row = ReplyRow { depth, items: Vec::new() };
        assert_eq!(parse_sub_reply_content(1, 2, &row, &mut counter).unwrap_err(), msg);
    }
}

#[test]
fn reply_list_gives_replies_in_order_with_increasing_numbers() {
    let mut items = reply_block("(A, 01-01-2001 01:01)", None, &["one"]);
    items.extend(reply_block("(B, 02-02-2002 02:02)", None, &["two"]));
    let row = ReplyRow { depth: 3, items };
    let mut counter = IdCounter::new();
    let replies = parse_sub_reply_content(4, 7, &row, &mut counter).unwrap();
    assert_eq!(replies.len(), 2);
    assert!(replies.len() * 4 <= row.items.len());
    assert_eq!(replies[0].content, "one");
    assert_eq!(replies[1].content, "two");
    assert!(replies[0].sub_id < replies[1].sub_id);
    for r in &replies {
        assert_eq!((r.forum_id, r.post_id), (4, 7));
    }
    assert_eq!(counter.next, 100002);
}

#[test]
fn reply_list_stops_at_trailing_li_and_rejects_other_elements() {
    let mut items = reply_block("(A, 01-01-2001 01:01)", None, &["one"]);
    items.push(li("(B, 02-02-2002 02:02)", None));
    let mut counter = IdCounter::new();
    let replies = parse_sub_reply_content(4, 7, &ReplyRow { depth: 3, items }, &mut counter).unwrap();
    assert_eq!(replies.len(), 1);
    let items = vec![element("p", &[])];
    let err = parse_sub_reply_content(4, 7, &ReplyRow { depth: 3, items }, &mut counter).unwrap_err();
    assert_eq!(err, "unhandled element: <p>");
    let empty = parse_sub_reply_content(4, 7, &ReplyRow { depth: 3, items: Vec::new() }, &mut counter);
    assert!(empty.unwrap().is_empty());
}

fn page_rows(email: bool) -> Vec<PageRow> {
    let mut rows = vec![row(&["Emne: ", "Motor"]), row(&["Navn: Ib"])];
    if email {
        rows.push(row(&["E-mail:ib@x.dk"]));
    }
    rows.push(row(&["Dato: 03-04-2005 06:07"]));
    rows.push(row(&["Min bil", "starter ikke"]));
    rows.push(row(&["Svar:"]));
    rows.push(reply_row(reply_block("(Kaj, 04-04-2005 10:00)", Some("?showsub=5"), &["Tjek tændrør"])));
    rows
}

#[test]
fn page_gives_replies_then_post() {
    let mut counter = IdCounter::new();
    let items = process_page("p", Post::new(4, 12), Some(page_rows(true)), &mut counter).unwrap();
    assert_eq!(items.len(), 2);
    match &items[0] {
        Item::Reply(r) => {
            assert_eq!((r.forum_id, r.post_id, r.sub_id), (4, 12, 5));
            assert_eq!(r.author, "Kaj");
            assert_eq!(r.content, "Tjek tændrør");
        }
        Item::Post(_) => panic!("expected a reply first"),
    }
    match &items[1] {
        Item::Post(p) => {
            assert_eq!((p.forum_id, p.post_id), (4, 12));
            assert_eq!(p.title, "Motor");
            assert_eq!(p.author, "Ib");
            assert_eq!(p.email, Some("ib@x.dk".to_string()));
            assert_eq!(p.date, "2005-04-03 06:07");
            assert_eq!(p.content, "Min bil\nstarter ikke");
        }
        Item::Reply(_) => panic!("expected the post last"),
    }
}

#[test]
fn page_without_email_row() {
    let mut counter = IdCounter::new();
    let items = process_page("p", Post::new(4, 12), Some(page_rows(false)), &mut counter).unwrap();
    match items.last().unwrap() {
        Item::Post(p) => assert_eq!(p.email, None),
        Item::Reply(_) => panic!("expected the post last"),
    }
}

#[test]
fn page_errors_name_the_page() {
    let mut counter = IdCounter::new();
    let err = |rows: Option<Vec<PageRow>>, c: &mut IdCounter| {
        process_page("f.html", Post::new(4, 1), rows, c).unwrap_err()
    };
    assert_eq!(err(None, &mut counter), "f.html: no post");
    assert_eq!(err(Some(vec![]), &mut counter), "f.html: no title");
    assert_eq!(err(Some(vec![row(&["  "])]), &mut counter), "f.html: no title");
    assert_eq!(
        err(Some(vec![row(&["Title"])]), &mut counter),
        "f.html: title didn't have 'Emne:' prefix"
    );
    let mut rows = page_rows(false);
    rows[1] = row(&["Name: x"]);
    assert_eq!(err(Some(rows), &mut counter), "f.html: author didn't have 'Navn:' prefix");
    let mut rows = page_rows(false);
    rows[2] = row(&["Dato: igår"]);
    assert_eq!(err(Some(rows), &mut counter), "f.html: date didn't have 'Dato:' prefix (b)");
    let mut rows = page_rows(true);
    rows[3] = row(&["Date: 03-04-2005 06:07"]);
    assert_eq!(err(Some(rows), &mut counter), "f.html: date didn't have 'Dato:' prefix (a)");
    let mut rows = page_rows(false);
    rows.truncate(3);
    assert_eq!(err(Some(rows), &mut counter), "f.html: no initial_content");
    let mut rows = page_rows(false);
    rows.truncate(4);
    assert_eq!(err(Some(rows), &mut counter), "f.html: no reply header");
    let mut rows = page_rows(false);
    rows[4] = row(&["Replies"]);
    assert_eq!(err(Some(rows), &mut counter), "f.html: reply header didn't have 'Svar:' prefix");
    let mut rows = page_rows(false);
    rows.truncate(5);
    assert_eq!(err(Some(rows), &mut counter), "f.html: no reply content");
    let mut rows = page_rows(false);
    rows[5] = row(&["x"]);
    assert_eq!(err(Some(rows), &mut counter), "f.html: no <td>");
    assert_eq!(counter.next, FIRST_COUNTER_ID);
}

#[test]
fn query_normalization() {
    let q = "../volvo240.dk/HTTP%3a%2f%2fwww.volvo240.dk%2fForum%2fshowsub.asp%3ff%3d4%26amp;forumid%3d12";
    assert_eq!(normalize_query(q), "http://www.volvo240.dk/forum/showsub.asp?f=4&forumid=12");
}

#[test]
fn pairs_give_post_numbers() {
    let pairs = |ps: &[(&str, &str)]| -> Vec<(String, String)> {
        ps.iter().map(|(k, v)| (k.to_string(), v.to_string())).collect()
    };
    let p = post_from_pairs(&pairs(&[("f", "4"), ("ForumID", "3"), ("id", "77"), ("showsub", "x")])).unwrap();
    assert_eq!((p.forum_id, p.post_id), (3, 77));
    assert_eq!(post_from_pairs(&pairs(&[("f", "5")])).unwrap_err(), "forum != 4");
    assert_eq!(post_from_pairs(&pairs(&[("page", "2")])).unwrap_err(), "unrecognized key page");
}

#[test]
fn plans_for_files() {
    let good = "../volvo240.dk/http%3A%2F%2Fwww.volvo240.dk%2Fforum%2Fshowsub.asp%3Ff%3D4%26forumid%3D12%26id%3D345%26showsub%3D7";
    match plan_file(good) {
        FilePlan::Scrape(p) => assert_eq!((p.forum_id, p.post_id), (12, 345)),
        _ => panic!("expected a post"),
    }
    assert!(matches!(plan_file("../volvo240.dk/f%3d4/pic.jpg"), FilePlan::Skip));
    assert!(matches!(plan_file("../volvo240.dk/index.html"), FilePlan::Skip));
    let other_forum = "../volvo240.dk/http%3A%2F%2Fvolvo240.dk%2Fa.asp%3Ff%3D4%26f%3D5";
    assert!(matches!(plan_file(other_forum), FilePlan::Skip));
    let unknown = "../volvo240.dk/http%3A%2F%2Fvolvo240.dk%2Fa.asp%3Ff%3D4%26page%3D2";
    assert!(matches!(plan_file(unknown), FilePlan::Skip));
    assert!(matches!(plan_file("../volvo240.dk/forum%3Ff%3D4"), FilePlan::Malformed));
    let bad_number = "../volvo240.dk/http%3A%2F%2Fvolvo240.dk%2Fa.asp%3Ff%3D4%26id%3Dabc";
    assert!(matches!(plan_file(bad_number), FilePlan::Malformed));
    assert!(checked_post_from_query(bad_number).is_none());
}

#[test]
fn pictures_and_messages() {
    assert!(is_image_path("a.gif"));
    assert!(!is_image_path("a.gifx"));
    assert_eq!(read_error("p", "not found"), "p: not found");
    assert!(is_duplicate_key_error("error: UNIQUE constraint failed: post.id"));
    assert!(!is_duplicate_key_error("disk I/O error"));
}

#[test]
fn reply_authors_come_from_their_em() {
    let entries = reply_block("(Ulla B., 01-01-2001 01:01)", None, &["x"]);
    let mut counter = IdCounter::new();
    let (_, reply) = parse_li_element(1, 2, &entries, 0, &mut counter).unwrap();
    let author = reply.unwrap().author;
    assert!(entries[0].em_text.as_ref().unwrap().concat().contains(&author));
}
