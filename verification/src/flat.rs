//! The first, simpler reading of archived forum pages: one record per
//! page that keeps the post's title, author, e-mail and date rows as they
//! stand, and the post's text and the whole reply section as text.

use vstd::prelude::*;
use crate::forum::{is_image, is_image_path, joined, lemma_named_by_step, named_by, pair_key};
use crate::outside::{lowercase, lowercase_of, url_query_pairs, url_query_pairs_of};
use crate::text::{
    concat_str, contains, has_infix, has_prefix, parse_i32, parsed_i32, replace, replaced,
    starts_with, str_eq, trim, trimmed,
};

verus! {

/// A page of the forum as one record.
#[derive(Debug)]
pub struct FlatPost {
    pub forum_id: i32,
    pub post_id: i32,
    pub sub_id: Option<i32>,
    pub title: String,
    pub author: String,
    pub email: Option<String>,
    pub date: String,
    pub initial_content: String,
    pub reply_content: String,
    pub corrected: bool,
}

/// The mathematical model of a `FlatPost`.
pub struct FlatPostView {
    pub forum_id: i32,
    pub post_id: i32,
    pub sub_id: Option<i32>,
    pub title: Seq<char>,
    pub author: Seq<char>,
    pub email: Option<Seq<char>>,
    pub date: Seq<char>,
    pub initial_content: Seq<char>,
    pub reply_content: Seq<char>,
    pub corrected: bool,
}

impl View for FlatPost {
    type V = FlatPostView;

    open spec fn view(&self) -> FlatPostView {
        FlatPostView {
            forum_id: self.forum_id,
            post_id: self.post_id,
            sub_id: self.sub_id,
            title: self.title@,
            author: self.author@,
            email: self.email.deep_view(),
            date: self.date@,
            initial_content: self.initial_content@,
            reply_content: self.reply_content@,
            corrected: self.corrected,
        }
    }
}

impl Default for FlatPost {
    /// The record with empty text, zero numbers, no reply number, and not
    /// marked as corrected.
    fn default() -> (res: FlatPost)
        ensures
            res@ == empty_flat_post(),
    {
        FlatPost {
            forum_id: 0,
            post_id: 0,
            sub_id: None,
            title: String::new(),
            author: String::new(),
            email: None,
            date: String::new(),
            initial_content: String::new(),
            reply_content: String::new(),
            corrected: false,
        }
    }
}

/// The record with empty text, zero numbers and no reply number.
pub open spec fn empty_flat_post() -> FlatPostView {
    FlatPostView {
        forum_id: 0,
        post_id: 0,
        sub_id: None,
        title: Seq::empty(),
        author: Seq::empty(),
        email: None,
        date: Seq::empty(),
        initial_content: Seq::empty(),
        reply_content: Seq::empty(),
        corrected: false,
    }
}

/// The address that an archived file's name stands for: the site's root
/// followed by the name with `%26amp;` read as `&`.
pub open spec fn flat_address(path: Seq<char>) -> Seq<char> {
    "https://volvo240.dk/"@ + replaced(path, "%26amp;"@, "&"@)
}

/// The record that the query pairs describe, starting from `post`:
/// `forumid`, `id` and `showsub` set the numbers and any other key is an
/// error.
pub open spec fn flat_query_post(pairs: Seq<(Seq<char>, Seq<char>)>, post: FlatPostView) -> Result<
    FlatPostView,
    Seq<char>,
>
    decreases pairs.len(),
{
    if pairs.len() == 0 {
        Ok(post)
    } else {
        let key = lowercase_of(pairs[0].0);
        let value = pairs[0].1;
        let rest = pairs.drop_first();
        if key == "forumid"@ {
            flat_query_post(rest, FlatPostView { forum_id: parsed_i32(value).unwrap(), ..post })
        } else if key == "id"@ {
            flat_query_post(rest, FlatPostView { post_id: parsed_i32(value).unwrap(), ..post })
        } else if key == "showsub"@ {
            flat_query_post(rest, FlatPostView { sub_id: Some(parsed_i32(value).unwrap()), ..post })
        } else {
            Err("unrecognized key "@ + key)
        }
    }
}

/// Whether every `forumid`, `id` and `showsub` that `flat_query_post`
/// reads is an `i32`.
pub open spec fn flat_numbers_ok(pairs: Seq<(Seq<char>, Seq<char>)>) -> bool
    decreases pairs.len(),
{
    if pairs.len() == 0 {
        true
    } else {
        let key = lowercase_of(pairs[0].0);
        if key == "forumid"@ || key == "id"@ || key == "showsub"@ {
            parsed_i32(pairs[0].1) is Some && flat_numbers_ok(pairs.drop_first())
        } else {
            true
        }
    }
}

/// Tests whether every `forumid`, `id` and `showsub` that the query pairs
/// name is an `i32`.
pub fn flat_numbers_valid(pairs: &Vec<(String, String)>) -> (res: bool)
    ensures
        res == flat_numbers_ok(pairs.deep_view()),
{
    let n = pairs.len();
    let ghost all = pairs.deep_view();
    let mut i: usize = 0;
    assert(all.skip(0) =~= all);
    while i < n
        invariant
            n == pairs.len(),
            all == pairs.deep_view(),
            i <= n,
            flat_numbers_ok(all) == flat_numbers_ok(all.skip(i as int)),
        decreases n - i,
    {
        let ghost rest = all.skip(i as int);
        assert(rest.drop_first() =~= all.skip(i + 1));
        assert(rest[0] == (pairs[i as int].0@, pairs[i as int].1@));
        let key = lowercase(pairs[i].0.as_str());
        if str_eq(key.as_str(), "forumid") || str_eq(key.as_str(), "id") || str_eq(
            key.as_str(),
            "showsub",
        ) {
            if parse_i32(pairs[i].1.as_str()).is_none() {
                return false;
            }
        } else {
            return true;
        }
        i = i + 1;
    }
    assert(all.skip(n as int) =~= Seq::<(Seq<char>, Seq<char>)>::empty());
    true
}

/// Whether a record, or an error, is the one that the model gives.
pub open spec fn flat_outcome_is(res: Result<FlatPost, String>, model: Result<FlatPostView, Seq<char>>) -> bool {
    match (res, model) {
        (Ok(p), Ok(m)) => p@ == m,
        (Err(e), Err(m)) => e@ == m,
        _ => false,
    }
}

/// The record that a list of query pairs describes.
pub fn flat_post_from_pairs(pairs: &Vec<(String, String)>) -> (res: Result<FlatPost, String>)
    requires
        flat_numbers_ok(pairs.deep_view()),
    ensures
        flat_outcome_is(res, flat_query_post(pairs.deep_view(), empty_flat_post())),
{
    let n = pairs.len();
    let ghost all = pairs.deep_view();
    let mut post = FlatPost::default();
    let mut i: usize = 0;
    assert(all.skip(0) =~= all);
    while i < n
        invariant
            n == pairs.len(),
            all == pairs.deep_view(),
            i <= n,
            flat_query_post(all, empty_flat_post()) == flat_query_post(all.skip(i as int), post@),
            flat_numbers_ok(all.skip(i as int)),
        decreases n - i,
    {
        let ghost rest = all.skip(i as int);
        assert(rest.drop_first() =~= all.skip(i + 1));
        assert(rest[0] == (pairs[i as int].0@, pairs[i as int].1@));
        let key = lowercase(pairs[i].0.as_str());
        let value = pairs[i].1.as_str();
        if str_eq(key.as_str(), "forumid") {
            post.forum_id = parse_i32(value).unwrap();
        } else if str_eq(key.as_str(), "id") {
            post.post_id = parse_i32(value).unwrap();
        } else if str_eq(key.as_str(), "showsub") {
            post.sub_id = Some(parse_i32(value).unwrap());
        } else {
            return Err(concat_str("unrecognized key ", key.as_str()));
        }
        i = i + 1;
    }
    assert(all.skip(n as int) =~= Seq::<(Seq<char>, Seq<char>)>::empty());
    Ok(post)
}

/// What to do with an archived file: skip it, scrape it into the record
/// that its name describes, report the error that its name gives, or
/// stop because its name is malformed.
#[derive(Debug)]
pub enum FlatPlan {
    Skip,
    Scrape(FlatPost),
    Reject(String),
    Malformed,
}

/// The model of a `FlatPlan`.
pub enum FlatPlanView {
    Skip,
    Scrape(FlatPostView),
    Reject(Seq<char>),
    Malformed,
}

impl View for FlatPlan {
    type V = FlatPlanView;

    open spec fn view(&self) -> FlatPlanView {
        match self {
            FlatPlan::Skip => FlatPlanView::Skip,
            FlatPlan::Scrape(p) => FlatPlanView::Scrape(p@),
            FlatPlan::Reject(e) => FlatPlanView::Reject(e@),
            FlatPlan::Malformed => FlatPlanView::Malformed,
        }
    }
}

/// The plan for an archived file: pictures and files outside forum 4
/// are skipped; a name whose address does not parse, or names a number
/// that is no `i32`, is malformed; a name with an unknown key is
/// rejected.
pub open spec fn flat_plan(path: Seq<char>) -> FlatPlanView {
    if is_image(path) || !has_infix(lowercase_of(path), "f%3d4"@) {
        FlatPlanView::Skip
    } else {
        match url_query_pairs_of(flat_address(path)) {
            None => FlatPlanView::Malformed,
            Some(pairs) => if !flat_numbers_ok(pairs) {
                FlatPlanView::Malformed
            } else {
                match flat_query_post(pairs, empty_flat_post()) {
                    Ok(p) => FlatPlanView::Scrape(p),
                    Err(e) => FlatPlanView::Reject(e),
                }
            },
        }
    }
}

/// Decides what to do with an archived file, by its name.
pub fn plan_flat_file(path: &str) -> (res: FlatPlan)
    ensures
        res@ == flat_plan(path@),
{
    if is_image_path(path) {
        return FlatPlan::Skip;
    }
    let lower = lowercase(path);
    if !contains(lower.as_str(), "f%3d4") {
        return FlatPlan::Skip;
    }
    let rest = replace(path, "%26amp;", "&");
    let address = concat_str("https://volvo240.dk/", rest.as_str());
    let pairs = match url_query_pairs(address.as_str()) {
        Some(p) => p,
        None => return FlatPlan::Malformed,
    };
    if !flat_numbers_valid(&pairs) {
        return FlatPlan::Malformed;
    }
    match flat_post_from_pairs(&pairs) {
        Ok(p) => FlatPlan::Scrape(p),
        Err(e) => FlatPlan::Reject(e),
    }
}

/// The text of row `k`: its text pieces joined and trimmed; an error
/// naming the page when the row is missing or its text is empty.
pub open spec fn flat_row(path: Seq<char>, rows: Seq<Seq<Seq<char>>>, k: int, err: Seq<char>) -> Result<
    Seq<char>,
    Seq<char>,
> {
    if 0 <= k < rows.len() && trimmed(joined(rows[k])).len() > 0 {
        Ok(trimmed(joined(rows[k])))
    } else {
        Err(path + err)
    }
}

/// Reads the text of the row at `cursor` and moves past it.
pub fn next_row_element(rows: &Vec<Vec<String>>, cursor: &mut usize, path: &str, error: &str) -> (res:
    Result<String, String>)
    ensures
        match (res, flat_row(path@, rows.deep_view(), *old(cursor) as int, error@)) {
            (Ok(v), Ok(m)) => v@ == m,
            (Err(e), Err(m)) => e@ == m,
            _ => false,
        },
        *final(cursor) == if *old(cursor) < rows.len() {
            *old(cursor) + 1
        } else {
            *old(cursor) as int
        },
{
    if *cursor >= rows.len() {
        return Err(concat_str(path, error));
    }
    let joined_text = crate::forum::join_texts(&rows[*cursor]);
    let value = trim(joined_text.as_str());
    *cursor = *cursor + 1;
    if value.unicode_len() == 0 {
        return Err(concat_str(path, error));
    }
    Ok(value)
}

/// The record for a page, from the rows of its post table (`None` when
/// the page has none): title, author, an optional `E-mail:` row, the
/// date, the post's text and the replies' text, each as it stands.
pub open spec fn flat_page(path: Seq<char>, post: FlatPostView, rows: Option<Seq<Seq<Seq<char>>>>) -> Result<
    FlatPostView,
    Seq<char>,
> {
    match rows {
        None => Err(path + ": no post"@),
        Some(rs) => match flat_row(path, rs, 0, ": no title"@) {
            Err(e) => Err(e),
            Ok(title) => match flat_row(path, rs, 1, ": no author"@) {
                Err(e) => Err(e),
                Ok(author) => match flat_row(path, rs, 2, ": no email_or_date"@) {
                    Err(e) => Err(e),
                    Ok(line) => {
                        let with_email = has_prefix(line, "E-mail:"@);
                        let date = if with_email {
                            flat_row(path, rs, 3, ": no date"@)
                        } else {
                            Ok(line)
                        };
                        let k: int = if with_email {
                            4
                        } else {
                            3
                        };
                        match date {
                            Err(e) => Err(e),
                            Ok(date) => match flat_row(path, rs, k, ": no initial_content"@) {
                                Err(e) => Err(e),
                                Ok(initial) => match flat_row(path, rs, k + 1, ": no reply_content"@) {
                                    Err(e) => Err(e),
                                    Ok(replies) => Ok(
                                        FlatPostView {
                                            title,
                                            author,
                                            email: if with_email {
                                                Some(line)
                                            } else {
                                                post.email
                                            },
                                            date,
                                            initial_content: initial,
                                            reply_content: replies,
                                            ..post
                                        },
                                    ),
                                },
                            },
                        }
                    },
                },
            },
        },
    }
}

/// Fills a record from the rows of its page's post table.
pub fn process_flat_page(path: &str, post: FlatPost, rows: Option<Vec<Vec<String>>>) -> (res: Result<
    FlatPost,
    String,
>)
    ensures
        flat_outcome_is(
            res,
            flat_page(
                path@,
                post@,
                match rows {
                    Some(rs) => Some(rs.deep_view()),
                    None => None,
                },
            ),
        ),
{
    let rows = match rows {
        None => return Err(concat_str(path, ": no post")),
        Some(rs) => rs,
    };
    let mut post = post;
    let mut cursor: usize = 0;
    let title = next_row_element(&rows, &mut cursor, path, ": no title")?;
    let author = next_row_element(&rows, &mut cursor, path, ": no author")?;
    let line = next_row_element(&rows, &mut cursor, path, ": no email_or_date")?;
    let date;
    if starts_with(line.as_str(), "E-mail:") {
        date = next_row_element(&rows, &mut cursor, path, ": no date")?;
        post.email = Some(line);
    } else {
        date = line;
    }
    let initial = next_row_element(&rows, &mut cursor, path, ": no initial_content")?;
    let replies = next_row_element(&rows, &mut cursor, path, ": no reply_content")?;
    post.title = title;
    post.author = author;
    post.date = date;
    post.initial_content = initial;
    post.reply_content = replies;
    Ok(post)
}


proof fn lemma_flat_query_keeps(pairs: Seq<(Seq<char>, Seq<char>)>, post: FlatPostView)
    ensures
        flat_query_post(pairs, post) matches Ok(p) ==> p.corrected == post.corrected && p.title
            == post.title && p.email == post.email,
    decreases pairs.len(),
{
    if pairs.len() > 0 {
        let key = lowercase_of(pairs[0].0);
        let value = pairs[0].1;
        let rest = pairs.drop_first();
        if key == "forumid"@ {
            lemma_flat_query_keeps(rest, FlatPostView { forum_id: parsed_i32(value).unwrap(), ..post });
        } else if key == "id"@ {
            lemma_flat_query_keeps(rest, FlatPostView { post_id: parsed_i32(value).unwrap(), ..post });
        } else if key == "showsub"@ {
            lemma_flat_query_keeps(rest, FlatPostView { sub_id: Some(parsed_i32(value).unwrap()), ..post });
        }
    }
}

/// The rows that a page's record keeps, each as it stands: the title and
/// author from the first two rows; then, exactly when the third row
/// starts with `E-mail:`, that row as the e-mail and the date, post text
/// and reply text from the three rows after it; otherwise the post's
/// e-mail as it was, and the date, post text and reply text from the
/// third row on.
pub proof fn lemma_flat_page_rows(path: Seq<char>, post: FlatPostView, rows: Option<Seq<Seq<Seq<char>>>>)
    ensures
        flat_page(path, post, rows) matches Ok(q) ==> {
            &&& rows matches Some(rs)
            &&& rs.len() >= 5
            &&& q.title == trimmed(joined(rs[0]))
            &&& q.author == trimmed(joined(rs[1]))
            &&& if has_prefix(trimmed(joined(rs[2])), "E-mail:"@) {
                &&& rs.len() >= 6
                &&& q.email == Some(trimmed(joined(rs[2])))
                &&& q.date == trimmed(joined(rs[3]))
                &&& q.initial_content == trimmed(joined(rs[4]))
                &&& q.reply_content == trimmed(joined(rs[5]))
            } else {
                &&& q.email == post.email
                &&& q.date == trimmed(joined(rs[2]))
                &&& q.initial_content == trimmed(joined(rs[3]))
                &&& q.reply_content == trimmed(joined(rs[4]))
            }
        },
{
}

/// When the query pairs describe a record (and every `forumid`, `id` and
/// `showsub` that is read is a number, without which the parse stops),
/// every key is `forumid`, `id` or `showsub`; the forum number, post
/// number and reply number are what the last pair with that key names
/// (each unchanged when no pair names it), and nothing else changes.
pub proof fn lemma_flat_query_fields(pairs: Seq<(Seq<char>, Seq<char>)>, post: FlatPostView)
    requires
        flat_numbers_ok(pairs),
    ensures
        flat_query_post(pairs, post) matches Ok(p) ==> {
            &&& forall|j: int|
                0 <= j < pairs.len() ==> {
                    let k = #[trigger] pair_key(pairs, j);
                    k == "forumid"@ || k == "id"@ || k == "showsub"@
                }
            &&& named_by(pairs, "forumid"@, Some(post.forum_id), Some(p.forum_id))
            &&& named_by(pairs, "id"@, Some(post.post_id), Some(p.post_id))
            &&& named_by(pairs, "showsub"@, post.sub_id, p.sub_id)
            &&& p == FlatPostView { forum_id: p.forum_id, post_id: p.post_id, sub_id: p.sub_id, ..post }
        },
    decreases pairs.len(),
{
    if pairs.len() > 0 {
        let key = lowercase_of(pairs[0].0);
        let value = pairs[0].1;
        let rest = pairs.drop_first();
        let next = if key == "forumid"@ {
            FlatPostView { forum_id: parsed_i32(value).unwrap(), ..post }
        } else if key == "id"@ {
            FlatPostView { post_id: parsed_i32(value).unwrap(), ..post }
        } else {
            FlatPostView { sub_id: Some(parsed_i32(value).unwrap()), ..post }
        };
        if let Ok(p) = flat_query_post(pairs, post) {
            reveal_strlit("forumid");
            reveal_strlit("id");
            reveal_strlit("showsub");
            assert(key == "forumid"@ || key == "id"@ || key == "showsub"@);
            assert(flat_query_post(pairs, post) == flat_query_post(rest, next));
            assert(flat_numbers_ok(rest));
            lemma_flat_query_fields(rest, next);
            assert forall|j: int| 0 <= j < pairs.len() implies {
                let k = #[trigger] pair_key(pairs, j);
                k == "forumid"@ || k == "id"@ || k == "showsub"@
            } by {
                if j > 0 {
                    assert(rest[j - 1] == pairs[j]);
                    assert(pair_key(rest, j - 1) == pair_key(pairs, j));
                }
            }
            assert("forumid"@ != "id"@) by {
                assert("forumid"@.len() != "id"@.len());
            }
            assert("forumid"@ != "showsub"@) by {
                assert("forumid"@[0] != "showsub"@[0]);
            }
            assert("id"@ != "showsub"@) by {
                assert("id"@.len() != "showsub"@.len());
            }
            lemma_named_by_step(pairs, "forumid"@, Some(post.forum_id), Some(next.forum_id), Some(p.forum_id));
            lemma_named_by_step(pairs, "id"@, Some(post.post_id), Some(next.post_id), Some(p.post_id));
            lemma_named_by_step(pairs, "showsub"@, post.sub_id, next.sub_id, p.sub_id);
        }
    }
}

/// A record is never marked as corrected: a file's plan starts it
/// unmarked, and reading its page keeps the mark and the numbers, and
/// gives it an e-mail only from an `E-mail:` row.
pub proof fn lemma_flat_never_corrected(path: Seq<char>, post: FlatPostView, rows: Option<Seq<Seq<Seq<char>>>>)
    ensures
        flat_plan(path) matches FlatPlanView::Scrape(p) ==> !p.corrected && p.email is None,
        flat_page(path, post, rows) matches Ok(q) ==> {
            &&& q.corrected == post.corrected
            &&& q.forum_id == post.forum_id
            &&& q.post_id == post.post_id
            &&& q.sub_id == post.sub_id
            &&& (post.email is None ==> (q.email matches Some(e) ==> has_prefix(e, "E-mail:"@)))
        },
{
    if let Some(pairs) = url_query_pairs_of(flat_address(path)) {
        lemma_flat_query_keeps(pairs, empty_flat_post());
    }
}

} // verus!
