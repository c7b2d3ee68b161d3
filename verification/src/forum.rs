//! Parsing of archived forum pages into posts and replies.
//!
//! An archived page holds one post in a table: rows for the title
//! (`Emne:`), the author (`Navn:`), an optional e-mail (`E-mail:`), the
//! date (`Dato:`), the text, a reply header (`Svar:`) and a row whose
//! cell holds a list (`<td><font><ul>`) of replies. Each reply in that
//! list is an `<li>` naming author and date in an `<em>`, then `<br>`,
//! the reply text, and a closing `<br>`.
//!
//! The HTML document itself is read elsewhere; this module works on the
//! plain values that the parser reads from it: element names, text
//! pieces and link targets.

use vstd::prelude::*;
use crate::dates::{reformat_date, reformatted_date};
use crate::outside::{lowercase, lowercase_of, regex_group, regex_group_of, url_query_pairs, url_query_pairs_of};
use crate::text::{concat_str, contains, ends_with, has_infix, has_prefix, has_suffix, is_ws, lemma_trimmed_edges, lemma_trimmed_keeps_infix, occurs_at, parse_i32, parsed_i32, replace, replaced, starts_with, str_eq, strip_prefix, trim, trimmed};

verus! {

/// Pattern of the author line of a reply: `(author, DD-MM-YYYY HH:MM)`.
pub const AUTHOR_PATTERN: &'static str = r"\((.*?), (\d{2}-\d{2}-\d{4} \d{2}:\d{2})\)";

/// Pattern of the reply number in a link target: `showsub=<digits>` in
/// any letter case.
pub const SHOWSUB_PATTERN: &'static str = r"[Ss][Hh][Oo][Ww][Ss][Uu][Bb]=(\d+)";

/// The first number that the counter of reply numbers hands out.
pub const FIRST_COUNTER_ID: i32 = 100000;

/// An element among the children of a reply list, with what the parser
/// reads of it.
#[derive(Debug)]
pub struct ListEntry {
    /// The element's tag name.
    pub name: String,
    /// The text pieces of its first `<em>` descendant, if it has one.
    pub em_text: Option<Vec<String>>,
    /// The `href` of its first `<a>` descendant, if there is one with an
    /// `href`.
    pub link_href: Option<String>,
    /// Its text pieces, in document order.
    pub text: Vec<String>,
}

/// The mathematical model of a `ListEntry`.
pub struct EntryView {
    pub name: Seq<char>,
    pub em_text: Option<Seq<Seq<char>>>,
    pub link_href: Option<Seq<char>>,
    pub text: Seq<Seq<char>>,
}

impl View for ListEntry {
    type V = EntryView;

    open spec fn view(&self) -> EntryView {
        EntryView {
            name: self.name@,
            em_text: self.em_text.deep_view(),
            link_href: self.link_href.deep_view(),
            text: self.text.deep_view(),
        }
    }
}

/// The models of a sequence of list entries.
pub open spec fn entries_view(es: Seq<ListEntry>) -> Seq<EntryView> {
    es.map_values(|e: ListEntry| e@)
}

/// A reply to a post.
#[derive(Debug)]
pub struct Reply {
    pub forum_id: i32,
    pub post_id: i32,
    pub sub_id: i32,
    pub author: String,
    pub date: String,
    pub content: String,
}

/// The mathematical model of a `Reply`.
pub struct ReplyView {
    pub forum_id: i32,
    pub post_id: i32,
    pub sub_id: i32,
    pub author: Seq<char>,
    pub date: Seq<char>,
    pub content: Seq<char>,
}

impl View for Reply {
    type V = ReplyView;

    open spec fn view(&self) -> ReplyView {
        ReplyView {
            forum_id: self.forum_id,
            post_id: self.post_id,
            sub_id: self.sub_id,
            author: self.author@,
            date: self.date@,
            content: self.content@,
        }
    }
}

/// The models of a sequence of replies.
pub open spec fn replies_view(rs: Seq<Reply>) -> Seq<ReplyView> {
    rs.map_values(|r: Reply| r@)
}

/// The source of reply numbers for replies whose link carries none. It
/// counts up from `FIRST_COUNTER_ID` and wraps around as `i32` addition
/// with wrap-around does.
#[derive(Debug)]
pub struct IdCounter {
    pub next: i32,
}

/// The counter's value after it has handed out `v`.
pub open spec fn counter_after(v: i32) -> i32 {
    if v == i32::MAX {
        i32::MIN
    } else {
        (v + 1) as i32
    }
}

impl IdCounter {
    /// A counter that starts at `FIRST_COUNTER_ID`.
    pub fn new() -> (res: IdCounter)
        ensures
            res.next == FIRST_COUNTER_ID,
    {
        IdCounter { next: FIRST_COUNTER_ID }
    }

    /// Hands out the current number and moves to the next.
    pub fn take(&mut self) -> (res: i32)
        ensures
            res == old(self).next,
            final(self).next == counter_after(old(self).next),
    {
        let v = self.next;
        self.next = if v == i32::MAX {
            i32::MIN
        } else {
            v + 1
        };
        v
    }
}

/// The text pieces of an element joined together.
pub open spec fn joined(ts: Seq<Seq<char>>) -> Seq<char>
    decreases ts.len(),
{
    if ts.len() == 0 {
        Seq::empty()
    } else {
        joined(ts.drop_last()) + ts.last()
    }
}

/// The text pieces of an element, each after a line break.
pub open spec fn joined_lines(ts: Seq<Seq<char>>) -> Seq<char>
    decreases ts.len(),
{
    if ts.len() == 0 {
        Seq::empty()
    } else {
        joined_lines(ts.drop_last()) + seq!['\n'] + ts.last()
    }
}

/// The text pieces of a reply joined as paragraphs: the text so far and
/// each piece trimmed, with a blank line between them.
pub open spec fn paragraphs(ts: Seq<Seq<char>>) -> Seq<char>
    decreases ts.len(),
{
    if ts.len() == 0 {
        Seq::empty()
    } else {
        trimmed(paragraphs(ts.drop_last())) + seq!['\n', '\n'] + trimmed(ts.last())
    }
}

/// The text of a reply: its paragraphs, trimmed.
pub open spec fn reply_text(ts: Seq<Seq<char>>) -> Seq<char> {
    trimmed(paragraphs(ts))
}

/// Each text piece of a reply that is not blank occurs, trimmed, in its
/// paragraphs.
pub proof fn lemma_paragraphs_keep_pieces(ts: Seq<Seq<char>>)
    ensures
        forall|j: int|
            0 <= j < ts.len() && trimmed(ts[j]).len() > 0 ==> has_infix(
                paragraphs(ts),
                #[trigger] trimmed(ts[j]),
            ),
    decreases ts.len(),
{
    if ts.len() > 0 {
        let front = ts.drop_last();
        lemma_paragraphs_keep_pieces(front);
        let head = trimmed(paragraphs(front)) + seq!['\n', '\n'];
        let whole = paragraphs(ts);
        assert(whole == head + trimmed(ts.last()));
        assert forall|j: int| 0 <= j < ts.len() && trimmed(ts[j]).len() > 0 implies has_infix(
            whole,
            #[trigger] trimmed(ts[j]),
        ) by {
            let x = trimmed(ts[j]);
            if j == ts.len() - 1 {
                assert(whole.subrange(head.len() as int, head.len() + x.len() as int) =~= x);
                assert(occurs_at(whole, x, head.len() as int));
            } else {
                assert(front[j] == ts[j]);
                assert(has_infix(paragraphs(front), x));
                lemma_trimmed_edges(ts[j]);
                lemma_trimmed_keeps_infix(paragraphs(front), x);
                let i = choose|i: int| occurs_at(trimmed(paragraphs(front)), x, i);
                assert(whole.subrange(i, i + x.len()) =~= trimmed(paragraphs(front)).subrange(i, i + x.len()));
                assert(occurs_at(whole, x, i));
            }
        }
    }
}

/// Each text piece of a reply that is not blank occurs, trimmed, in the
/// reply's text: no piece is dropped, wherever it stands.
pub proof fn lemma_reply_text_keeps_pieces(ts: Seq<Seq<char>>)
    ensures
        forall|j: int|
            0 <= j < ts.len() && trimmed(ts[j]).len() > 0 ==> has_infix(
                reply_text(ts),
                #[trigger] trimmed(ts[j]),
            ),
{
    lemma_paragraphs_keep_pieces(ts);
    assert forall|j: int| 0 <= j < ts.len() && trimmed(ts[j]).len() > 0 implies has_infix(
        reply_text(ts),
        #[trigger] trimmed(ts[j]),
    ) by {
        lemma_trimmed_edges(ts[j]);
        lemma_trimmed_keeps_infix(paragraphs(ts), trimmed(ts[j]));
    }
}

/// A reply's text with one more text piece is its paragraphs so far,
/// trimmed, a blank line and the new piece, trimmed, all trimmed.
pub proof fn lemma_reply_text_push(ts: Seq<Seq<char>>, p: Seq<char>)
    ensures
        reply_text(ts.push(p)) == trimmed(trimmed(paragraphs(ts)) + seq!['\n', '\n'] + trimmed(p)),
{
    assert(ts.push(p).drop_last() =~= ts);
}

/// Joins text pieces.
pub fn join_texts(ts: &Vec<String>) -> (res: String)
    ensures
        res@ == joined(ts.deep_view()),
{
    let mut out = String::new();
    let n = ts.len();
    for k in 0..n
        invariant
            n == ts.len(),
            out@ == joined(ts.deep_view().take(k as int)),
    {
        assert(ts.deep_view().take(k + 1).drop_last() =~= ts.deep_view().take(k as int));
        out.append(ts[k].as_str());
    }
    assert(ts.deep_view().take(n as int) =~= ts.deep_view());
    out
}

/// Joins text pieces, each after a line break.
pub fn join_text_lines(ts: &Vec<String>) -> (res: String)
    ensures
        res@ == joined_lines(ts.deep_view()),
{
    let mut out = String::new();
    let n = ts.len();
    for k in 0..n
        invariant
            n == ts.len(),
            out@ == joined_lines(ts.deep_view().take(k as int)),
    {
        assert(ts.deep_view().take(k + 1).drop_last() =~= ts.deep_view().take(k as int));
        proof {
            reveal_strlit("\n");
        }
        out.append("\n");
        out.append(ts[k].as_str());
    }
    assert(ts.deep_view().take(n as int) =~= ts.deep_view());
    out
}

/// The text of a reply from its text pieces.
pub fn reply_text_of(ts: &Vec<String>) -> (res: String)
    ensures
        res@ == reply_text(ts.deep_view()),
{
    let mut acc = String::new();
    let n = ts.len();
    for k in 0..n
        invariant
            n == ts.len(),
            acc@ == paragraphs(ts.deep_view().take(k as int)),
    {
        assert(ts.deep_view().take(k + 1).drop_last() =~= ts.deep_view().take(k as int));
        let head = trim(acc.as_str());
        let piece = trim(ts[k].as_str());
        proof {
            reveal_strlit("\n\n");
        }
        acc = concat_str(head.as_str(), "\n\n");
        acc.append(piece.as_str());
    }
    assert(ts.deep_view().take(n as int) =~= ts.deep_view());
    trim(acc.as_str())
}

/// The reply number in a link target, if it names one.
pub open spec fn link_id(href: Option<Seq<char>>) -> Option<i32> {
    match href {
        Some(h) => match regex_group_of(SHOWSUB_PATTERN@, h, 1) {
            Some(digits) => parsed_i32(digits),
            None => None,
        },
        None => None,
    }
}

/// Reads the reply number from the link of a list entry, if it has one.
pub fn parse_link_id(entry: &ListEntry) -> (res: Option<i32>)
    ensures
        res == link_id(entry@.link_href),
{
    match &entry.link_href {
        Some(href) => match regex_group(SHOWSUB_PATTERN, href.as_str(), 1) {
            Some(digits) => parse_i32(digits.as_str()),
            None => None,
        },
        None => None,
    }
}

/// The author and the reformatted date that a reply's `<em>` names, or
/// the error that the parser reports.
pub open spec fn author_info(em_text: Option<Seq<Seq<char>>>) -> Result<(Seq<char>, Seq<char>), Seq<char>> {
    match em_text {
        None => Err("invalid author info"@),
        Some(ts) => {
            let t = joined(ts);
            if regex_group_of(AUTHOR_PATTERN@, t, 0) is None {
                Err("invalid author info"@)
            } else {
                match regex_group_of(AUTHOR_PATTERN@, t, 1) {
                    None => Err("reply missing author"@),
                    Some(author) => match regex_group_of(AUTHOR_PATTERN@, t, 2) {
                        None => Err("reply missing date"@),
                        Some(raw) => match reformatted_date(raw) {
                            None => Err("reply missing date"@),
                            Some(date) => Ok((author, date)),
                        },
                    },
                }
            }
        },
    }
}

/// A reply's author and date come from the `<em>` text: the author is
/// the first group of the author pattern and the date is the second
/// group, rewritten as `YYYY-MM-DD HH:MM`; the `<em>` gives them exactly
/// when it exists, the pattern matches with both groups, and that group
/// holds a forum date.
pub proof fn lemma_author_info_groups(em_text: Option<Seq<Seq<char>>>)
    ensures
        author_info(em_text) matches Ok((author, date)) ==> {
            &&& em_text matches Some(ts)
            &&& regex_group_of(AUTHOR_PATTERN@, joined(ts), 1) == Some(author)
            &&& regex_group_of(AUTHOR_PATTERN@, joined(ts), 2) matches Some(raw)
            &&& reformatted_date(raw) == Some(date)
        },
        author_info(em_text) is Ok <==> {
            &&& em_text matches Some(ts)
            &&& regex_group_of(AUTHOR_PATTERN@, joined(ts), 0) is Some
            &&& regex_group_of(AUTHOR_PATTERN@, joined(ts), 1) is Some
            &&& regex_group_of(AUTHOR_PATTERN@, joined(ts), 2) matches Some(raw)
            &&& reformatted_date(raw) is Some
        },
{
}

/// Whether `t` is a piece of the text of an `<em>`.
pub open spec fn text_in_em(em_text: Option<Seq<Seq<char>>>, t: Seq<char>) -> bool {
    match em_text {
        Some(ts) => exists|i: int| crate::text::occurs_at(joined(ts), t, i),
        None => false,
    }
}

/// Reads author and date of a reply from its `<em>`.
pub fn author_and_date(entry: &ListEntry) -> (res: Result<(String, String), String>)
    ensures
        match (res, author_info(entry@.em_text)) {
            (Ok((a, d)), Ok((sa, sd))) => a@ == sa && d@ == sd,
            (Err(e), Err(se)) => e@ == se,
            _ => false,
        },
        res matches Ok((a, _)) ==> text_in_em(entry@.em_text, a@),
{
    let texts = match &entry.em_text {
        None => return Err(String::from_str("invalid author info")),
        Some(t) => t,
    };
    let text = join_texts(texts);
    if regex_group(AUTHOR_PATTERN, text.as_str(), 0).is_none() {
        return Err(String::from_str("invalid author info"));
    }
    let author = match regex_group(AUTHOR_PATTERN, text.as_str(), 1) {
        None => return Err(String::from_str("reply missing author")),
        Some(a) => a,
    };
    assert(entry@.em_text == Some(texts.deep_view()));
    assert(exists|i: int| crate::text::occurs_at(joined(texts.deep_view()), author@, i));
    assert(text_in_em(entry@.em_text, author@));
    let raw = match regex_group(AUTHOR_PATTERN, text.as_str(), 2) {
        None => return Err(String::from_str("reply missing date")),
        Some(r) => r,
    };
    match reformat_date(raw.as_str()) {
        None => Err(String::from_str("reply missing date")),
        Some(date) => Ok((author, date)),
    }
}


/// What parsing the list entry at `i` gives, with the counter's value
/// afterwards: the number of entries that the reply spans (the entry
/// itself, `<br>`, the text and the closing `<br>`) and the reply, or
/// `(0, None)` when the list ends right after the entry, or an error.
/// An entry followed by another `<li>` is superseded by the reply that
/// the later entry starts, and spans one entry more than it.
pub open spec fn li_result(forum_id: i32, post_id: i32, es: Seq<EntryView>, i: int, c: i32) -> (
    Result<(nat, Option<ReplyView>), Seq<char>>,
    i32,
)
    decreases es.len() - i,
{
    if !(0 <= i < es.len()) {
        (Ok((0, None)), c)
    } else {
        match author_info(es[i].em_text) {
            Err(e) => (Err(e), c),
            Ok((author, date)) => {
                let sub_id = match link_id(es[i].link_href) {
                    Some(id) => id,
                    None => c,
                };
                let c1 = match link_id(es[i].link_href) {
                    Some(id) => c,
                    None => counter_after(c),
                };
                if i + 1 >= es.len() {
                    (Ok((0, None)), c1)
                } else {
                    let next = lowercase_of(es[i + 1].name);
                    if next == "li"@ {
                        let (r, c2) = li_result(forum_id, post_id, es, i + 1, c1);
                        (
                            match r {
                                Ok((n, reply)) => Ok(((n + 1) as nat, reply)),
                                Err(e) => Err(e),
                            },
                            c2,
                        )
                    } else if next != "br"@ {
                        (Err("unhandled element: <"@ + next + ">"@), c1)
                    } else if i + 2 >= es.len() {
                        (Err("reply missing content"@), c1)
                    } else if i + 3 >= es.len() {
                        (Err("expected <br>, got None"@), c1)
                    } else if lowercase_of(es[i + 3].name) != "br"@ {
                        (Err("expected <br>, got "@ + es[i + 3].name), c1)
                    } else {
                        (
                            Ok(
                                (
                                    4,
                                    Some(
                                        ReplyView {
                                            forum_id,
                                            post_id,
                                            sub_id,
                                            author,
                                            date,
                                            content: reply_text(es[i + 2].text),
                                        },
                                    ),
                                ),
                            ),
                            c1,
                        )
                    }
                }
            },
        }
    }
}

/// A reply that `li_result` gives spans at least four entries and no more
/// than are left, and every span fits in what is left.
pub proof fn lemma_li_span(forum_id: i32, post_id: i32, es: Seq<EntryView>, i: int, c: i32)
    requires
        0 <= i < es.len(),
    ensures
        li_result(forum_id, post_id, es, i, c).0 matches Ok((n, r)) ==> n <= es.len() - i && (
        r is Some ==> n >= 4),
    decreases es.len() - i,
{
    match author_info(es[i].em_text) {
        Err(e) => {},
        Ok((author, date)) => {
            let c1 = match link_id(es[i].link_href) {
                Some(id) => c,
                None => counter_after(c),
            };
            if i + 1 < es.len() {
                lemma_li_span(forum_id, post_id, es, i + 1, c1);
            }
        },
    }
}

/// Whether an outcome of `parse_li_element` is the one that the model
/// gives.
pub open spec fn li_outcome_is(
    res: Result<(usize, Option<Reply>), String>,
    model: Result<(nat, Option<ReplyView>), Seq<char>>,
) -> bool {
    match (res, model) {
        (Ok((n, None)), Ok((m, None))) => n == m,
        (Ok((n, Some(r))), Ok((m, Some(mr)))) => n == m && r@ == mr,
        (Err(e), Err(me)) => e@ == me,
        _ => false,
    }
}

/// Parses the reply that the list entry at `index` starts. Returns how
/// many entries it spans and the reply, or `(0, None)` when the list ends
/// right after the entry. A reply whose link names no reply number takes
/// one from `counter`.
pub fn parse_li_element(
    forum_id: i32,
    post_id: i32,
    entries: &Vec<ListEntry>,
    index: usize,
    counter: &mut IdCounter,
) -> (res: Result<(usize, Option<Reply>), String>)
    requires
        index < entries.len(),
    ensures
        li_outcome_is(
            res,
            li_result(forum_id, post_id, entries_view(entries@), index as int, old(counter).next).0,
        ),
        final(counter).next == li_result(
            forum_id,
            post_id,
            entries_view(entries@),
            index as int,
            old(counter).next,
        ).1,
        res matches Ok((n, r)) ==> n <= entries.len() - index && (r is Some ==> n >= 4),
        res matches Ok((_, Some(r))) ==> exists|j: int|
            index <= j < entries.len() && text_in_em((#[trigger] entries@[j])@.em_text, r.author@),
    decreases entries.len() - index,
{
    proof {
        lemma_li_span(forum_id, post_id, entries_view(entries@), index as int, counter.next);
    }
    let entry = &entries[index];
    let (author, date) = match author_and_date(entry) {
        Ok(p) => p,
        Err(e) => return Err(e),
    };
    let sub_id = match parse_link_id(entry) {
        Some(id) => id,
        None => counter.take(),
    };
    if index + 1 >= entries.len() {
        return Ok((0, None));
    }
    let next = lowercase(entries[index + 1].name.as_str());
    if str_eq(next.as_str(), "li") {
        return match parse_li_element(forum_id, post_id, entries, index + 1, counter) {
            Ok((n, reply)) => Ok((n + 1, reply)),
            Err(e) => Err(e),
        };
    }
    if !str_eq(next.as_str(), "br") {
        let mut msg = concat_str("unhandled element: <", next.as_str());
        msg.append(">");
        return Err(msg);
    }
    if index + 2 >= entries.len() {
        return Err(String::from_str("reply missing content"));
    }
    let content = reply_text_of(&entries[index + 2].text);
    if index + 3 >= entries.len() {
        return Err(String::from_str("expected <br>, got None"));
    }
    let closing = lowercase(entries[index + 3].name.as_str());
    if !str_eq(closing.as_str(), "br") {
        return Err(concat_str("expected <br>, got ", entries[index + 3].name.as_str()));
    }
    assert(text_in_em(entries@[index as int]@.em_text, author@));
    Ok((4, Some(Reply { forum_id, post_id, sub_id, author, date, content })))
}


/// The replies that the list entries from `k` on give, with the counter's
/// value afterwards: each `<li>` starts a reply, the list ends where an
/// entry has nothing after it, and any other element is an error.
pub open spec fn replies_from(forum_id: i32, post_id: i32, es: Seq<EntryView>, k: int, c: i32) -> (
    Result<Seq<ReplyView>, Seq<char>>,
    i32,
)
    decreases es.len() - k,
{
    if !(0 <= k < es.len()) {
        (Ok(Seq::empty()), c)
    } else {
        let name = lowercase_of(es[k].name);
        if name == "li"@ {
            let (r, c1) = li_result(forum_id, post_id, es, k, c);
            match r {
                Err(e) => (Err(e), c1),
                Ok((n, None)) => (Ok(Seq::empty()), c1),
                Ok((n, Some(reply))) => {
                    proof {
                        lemma_li_span(forum_id, post_id, es, k, c);
                    }
                    let (rest, c2) = replies_from(forum_id, post_id, es, k + n, c1);
                    (
                        match rest {
                            Ok(rs) => Ok(seq![reply] + rs),
                            Err(e) => Err(e),
                        },
                        c2,
                    )
                },
            }
        } else {
            (Err("unhandled element: <"@ + name + ">"@), c)
        }
    }
}

/// The cell of the row that holds a post's replies, with what the parser
/// reads of it.
#[derive(Debug)]
pub struct ReplyRow {
    /// How many levels of first element children the row has (the cell,
    /// the `<font>` in it and the `<ul>` in that), counted up to three.
    pub depth: usize,
    /// The element children of the `<ul>`, when `depth` is three.
    pub items: Vec<ListEntry>,
}

/// The replies in a reply row, with the counter's value afterwards.
pub open spec fn row_replies(forum_id: i32, post_id: i32, depth: nat, es: Seq<EntryView>, c: i32) -> (
    Result<Seq<ReplyView>, Seq<char>>,
    i32,
) {
    if depth == 0 {
        (Err("no <td>"@), c)
    } else if depth == 1 {
        (Err("no <font>"@), c)
    } else if depth == 2 {
        (Err("no <ul>"@), c)
    } else {
        replies_from(forum_id, post_id, es, 0, c)
    }
}

/// Whether a list of replies, or an error, is the one that the model
/// gives.
pub open spec fn replies_outcome_is(
    res: Result<Vec<Reply>, String>,
    model: Result<Seq<ReplyView>, Seq<char>>,
) -> bool {
    match (res, model) {
        (Ok(v), Ok(m)) => replies_view(v@) == m,
        (Err(e), Err(me)) => e@ == me,
        _ => false,
    }
}

/// Parses the replies in the row that holds them.
pub fn parse_sub_reply_content(
    forum_id: i32,
    post_id: i32,
    row: &ReplyRow,
    counter: &mut IdCounter,
) -> (res: Result<Vec<Reply>, String>)
    ensures
        replies_outcome_is(
            res,
            row_replies(
                forum_id,
                post_id,
                row.depth as nat,
                entries_view(row.items@),
                old(counter).next,
            ).0,
        ),
        final(counter).next == row_replies(
            forum_id,
            post_id,
            row.depth as nat,
            entries_view(row.items@),
            old(counter).next,
        ).1,
        res matches Ok(v) ==> forall|k: int|
            0 <= k < v.len() ==> exists|j: int|
                0 <= j < row.items.len() && text_in_em(
                    (#[trigger] row.items@[j])@.em_text,
                    (#[trigger] v@[k]).author@,
                ),
{
    if row.depth == 0 {
        return Err(String::from_str("no <td>"));
    } else if row.depth == 1 {
        return Err(String::from_str("no <font>"));
    } else if row.depth == 2 {
        return Err(String::from_str("no <ul>"));
    }
    let ghost es = entries_view(row.items@);
    let ghost c0 = counter.next;
    let items = &row.items;
    let mut replies: Vec<Reply> = Vec::new();
    let mut k: usize = 0;
    while k < items.len()
        invariant
            es == entries_view(items@),
            k <= items.len(),
            row.depth >= 3,
            items == row.items,
            c0 == old(counter).next,
            forall|q: int|
                0 <= q < replies.len() ==> exists|j: int|
                    0 <= j < items.len() && text_in_em(
                        (#[trigger] items@[j])@.em_text,
                        (#[trigger] replies@[q]).author@,
                    ),
            ({
                let (whole, c_end) = replies_from(forum_id, post_id, es, 0, c0);
                let (rest, c_rest) = replies_from(forum_id, post_id, es, k as int, counter.next);
                &&& c_end == c_rest
                &&& match (whole, rest) {
                    (Ok(w), Ok(r)) => w == replies_view(replies@) + r,
                    (Err(we), Err(re)) => we == re,
                    _ => false,
                }
            }),
        decreases items.len() - k,
    {
        let ghost c_before = counter.next;
        let ghost done = replies@;
        let name = lowercase(items[k].name.as_str());
        if !str_eq(name.as_str(), "li") {
            let mut msg = concat_str("unhandled element: <", name.as_str());
            msg.append(">");
            return Err(msg);
        }
        match parse_li_element(forum_id, post_id, items, k, counter) {
            Err(e) => {
                return Err(e);
            },
            Ok((_, None)) => {
                assert(replies_view(replies@) + Seq::<ReplyView>::empty() =~= replies_view(replies@));
                return Ok(replies);
            },
            Ok((n, Some(reply))) => {
                let ghost rv = reply@;
                replies.push(reply);
                assert(replies_view(replies@) =~= replies_view(done) + seq![rv]);
                proof {
                    let (rest, c_rest) = replies_from(forum_id, post_id, es, (k + n) as int, counter.next);
                    match rest {
                        Ok(r) => {
                            assert(replies_view(done) + (seq![rv] + r) =~= replies_view(replies@) + r);
                        },
                        Err(_) => {},
                    }
                }
                k = k + n;
            },
        }
    }
    assert(replies_view(replies@) + Seq::<ReplyView>::empty() =~= replies_view(replies@));
    Ok(replies)
}


/// A post: the first message of a thread.
#[derive(Debug)]
pub struct Post {
    pub forum_id: i32,
    pub post_id: i32,
    pub title: String,
    pub author: String,
    pub email: Option<String>,
    pub date: String,
    pub content: String,
}

/// The mathematical model of a `Post`.
pub struct PostView {
    pub forum_id: i32,
    pub post_id: i32,
    pub title: Seq<char>,
    pub author: Seq<char>,
    pub email: Option<Seq<char>>,
    pub date: Seq<char>,
    pub content: Seq<char>,
}

impl View for Post {
    type V = PostView;

    open spec fn view(&self) -> PostView {
        PostView {
            forum_id: self.forum_id,
            post_id: self.post_id,
            title: self.title@,
            author: self.author@,
            email: self.email.deep_view(),
            date: self.date@,
            content: self.content@,
        }
    }
}

impl Default for Post {
    /// The post with empty text and zero numbers.
    fn default() -> (res: Post)
        ensures
            res@ == empty_post(),
    {
        Post::new(0, 0)
    }
}

impl Post {
    /// A post with the given forum and post numbers and empty text.
    pub fn new(forum_id: i32, post_id: i32) -> (res: Post)
        ensures
            res@ == (PostView {
                forum_id,
                post_id,
                title: Seq::empty(),
                author: Seq::empty(),
                email: None,
                date: Seq::empty(),
                content: Seq::empty(),
            }),
    {
        Post {
            forum_id,
            post_id,
            title: String::new(),
            author: String::new(),
            email: None,
            date: String::new(),
            content: String::new(),
        }
    }
}

/// What a page yields: its replies and its post.
#[derive(Debug)]
pub enum Item {
    Post(Post),
    Reply(Reply),
}

/// The mathematical model of an `Item`.
pub enum ItemView {
    Post(PostView),
    Reply(ReplyView),
}

impl View for Item {
    type V = ItemView;

    open spec fn view(&self) -> ItemView {
        match self {
            Item::Post(p) => ItemView::Post(p@),
            Item::Reply(r) => ItemView::Reply(r@),
        }
    }
}

/// The models of a sequence of items.
pub open spec fn items_view(items: Seq<Item>) -> Seq<ItemView> {
    items.map_values(|i: Item| i@)
}

/// A table row of the post, with what the parser reads of it.
#[derive(Debug)]
pub struct PageRow {
    /// The row's text pieces, in document order.
    pub text: Vec<String>,
    /// The row read as the row that holds the replies.
    pub reply: ReplyRow,
}

/// The mathematical model of a `PageRow`.
pub struct PageRowView {
    pub text: Seq<Seq<char>>,
    pub depth: nat,
    pub items: Seq<EntryView>,
}

impl View for PageRow {
    type V = PageRowView;

    open spec fn view(&self) -> PageRowView {
        PageRowView {
            text: self.text.deep_view(),
            depth: self.reply.depth as nat,
            items: entries_view(self.reply.items@),
        }
    }
}

/// The models of a sequence of rows.
pub open spec fn rows_view(rows: Seq<PageRow>) -> Seq<PageRowView> {
    rows.map_values(|r: PageRow| r@)
}

/// The text of row `k`: its text pieces, each after a line break, trimmed;
/// an error naming the page when the row is missing or its text is empty.
pub open spec fn row_value(path: Seq<char>, rows: Seq<PageRowView>, k: int, err: Seq<char>) -> Result<
    Seq<char>,
    Seq<char>,
> {
    if 0 <= k < rows.len() && trimmed(joined_lines(rows[k].text)).len() > 0 {
        Ok(trimmed(joined_lines(rows[k].text)))
    } else {
        Err(path + err)
    }
}

/// Reads the text of the row at `cursor` and moves past it.
pub fn next_row_element(rows: &Vec<PageRow>, cursor: &mut usize, path: &str, error: &str) -> (res: Result<
    String,
    String,
>)
    ensures
        match (res, row_value(path@, rows_view(rows@), *old(cursor) as int, error@)) {
            (Ok(v), Ok(m)) => v@ == m,
            (Err(e), Err(m)) => e@ == m,
            _ => false,
        },
        *final(cursor) == if *old(cursor) < rows.len() {
            *old(cursor) + 1
        } else {
            *old(cursor) as int
        },
{
    if *cursor >= rows.len() {
        return Err(concat_str(path, error));
    }
    let joined = join_text_lines(&rows[*cursor].text);
    let value = trim(joined.as_str());
    *cursor = *cursor + 1;
    if value.unicode_len() == 0 {
        return Err(concat_str(path, error));
    }
    Ok(value)
}


/// The text of row `k` after `prefix`, trimmed; an error naming the page
/// when the row is missing, empty, or does not start with `prefix`.
pub open spec fn prefixed_row(
    path: Seq<char>,
    rows: Seq<PageRowView>,
    k: int,
    err: Seq<char>,
    prefix: Seq<char>,
    prefix_err: Seq<char>,
) -> Result<Seq<char>, Seq<char>> {
    match row_value(path, rows, k, err) {
        Err(e) => Err(e),
        Ok(v) => if has_prefix(v, prefix) {
            Ok(trimmed(v.skip(prefix.len() as int)))
        } else {
            Err(path + prefix_err)
        },
    }
}

/// The reformatted date in a `Dato:` line; an error naming the page when
/// the line has no such prefix or no date after it.
pub open spec fn dated(path: Seq<char>, line: Seq<char>, err: Seq<char>) -> Result<Seq<char>, Seq<char>> {
    if has_prefix(line, "Dato:"@) {
        match reformatted_date(trimmed(line.skip("Dato:"@.len() as int))) {
            Some(d) => Ok(d),
            None => Err(path + err),
        }
    } else {
        Err(path + err)
    }
}

/// Whether the e-mail line is present: the third row starts with `E-mail:`.
pub open spec fn has_email_row(path: Seq<char>, rows: Seq<PageRowView>) -> bool {
    row_value(path, rows, 2, ": no email_or_date"@) matches Ok(v) && has_prefix(v, "E-mail:"@)
}

/// The position of the row with the post's text: after the e-mail row
/// when there is one.
pub open spec fn content_row(path: Seq<char>, rows: Seq<PageRowView>) -> int {
    if has_email_row(path, rows) {
        4
    } else {
        3
    }
}

/// The post's date, from the row after the e-mail row or from the third
/// row.
pub open spec fn page_date(path: Seq<char>, rows: Seq<PageRowView>) -> Result<Seq<char>, Seq<char>> {
    match row_value(path, rows, 2, ": no email_or_date"@) {
        Err(e) => Err(e),
        Ok(line) => if has_prefix(line, "E-mail:"@) {
            match row_value(path, rows, 3, ": no date"@) {
                Err(e) => Err(e),
                Ok(v) => dated(path, v, ": date didn't have 'Dato:' prefix (a)"@),
            }
        } else {
            dated(path, line, ": date didn't have 'Dato:' prefix (b)"@)
        },
    }
}

/// The post's e-mail: what follows `E-mail:` in the third row, when it
/// starts so, else what the post had.
pub open spec fn page_email(path: Seq<char>, rows: Seq<PageRowView>, before: Option<Seq<char>>) -> Option<
    Seq<char>,
> {
    match row_value(path, rows, 2, ": no email_or_date"@) {
        Ok(line) => if has_prefix(line, "E-mail:"@) {
            Some(line.skip("E-mail:"@.len() as int))
        } else {
            before
        },
        Err(_) => before,
    }
}

/// What a page gives, with the counter's value afterwards: its replies
/// followed by its post, or an error that names the page. `rows` is
/// `None` when the page has no post table.
pub open spec fn page_result(path: Seq<char>, post: PostView, rows: Option<Seq<PageRowView>>, c: i32) -> (
    Result<Seq<ItemView>, Seq<char>>,
    i32,
) {
    match rows {
        None => (Err(path + ": no post"@), c),
        Some(rs) => match prefixed_row(
            path,
            rs,
            0,
            ": no title"@,
            "Emne:"@,
            ": title didn't have 'Emne:' prefix"@,
        ) {
            Err(e) => (Err(e), c),
            Ok(title) => match prefixed_row(
                path,
                rs,
                1,
                ": no author"@,
                "Navn:"@,
                ": author didn't have 'Navn:' prefix"@,
            ) {
                Err(e) => (Err(e), c),
                Ok(author) => match page_date(path, rs) {
                    Err(e) => (Err(e), c),
                    Ok(date) => {
                        let k = content_row(path, rs);
                        match row_value(path, rs, k, ": no initial_content"@) {
                            Err(e) => (Err(e), c),
                            Ok(content) => match row_value(path, rs, k + 1, ": no reply header"@) {
                                Err(e) => (Err(e), c),
                                Ok(header) => if !has_prefix(header, "Svar:"@) {
                                    (Err(path + ": reply header didn't have 'Svar:' prefix"@), c)
                                } else if k + 2 >= rs.len() {
                                    (Err(path + ": no reply content"@), c)
                                } else {
                                    let (r, c1) = row_replies(
                                        post.forum_id,
                                        post.post_id,
                                        rs[k + 2].depth,
                                        rs[k + 2].items,
                                        c,
                                    );
                                    match r {
                                        Err(e) => (Err(path + ": "@ + e), c1),
                                        Ok(replies) => (
                                            Ok(
                                                replies.map_values(|r: ReplyView| ItemView::Reply(r))
                                                    + seq![
                                                    ItemView::Post(
                                                        PostView {
                                                            title,
                                                            author,
                                                            email: page_email(path, rs, post.email),
                                                            date,
                                                            content,
                                                            ..post
                                                        },
                                                    ),
                                                ],
                                            ),
                                            c1,
                                        ),
                                    }
                                },
                            },
                        }
                    },
                },
            },
        },
    }
}

/// Reads the text of the next row after `prefix`, trimmed.
fn next_prefixed_row(
    rows: &Vec<PageRow>,
    cursor: &mut usize,
    path: &str,
    error: &str,
    prefix: &str,
    prefix_error: &str,
) -> (res: Result<String, String>)
    ensures
        match (
            res,
            prefixed_row(path@, rows_view(rows@), *old(cursor) as int, error@, prefix@, prefix_error@),
        ) {
            (Ok(v), Ok(m)) => v@ == m,
            (Err(e), Err(m)) => e@ == m,
            _ => false,
        },
        res is Ok ==> *final(cursor) == *old(cursor) + 1,
{
    let line = next_row_element(rows, cursor, path, error)?;
    match strip_prefix(line.as_str(), prefix) {
        Some(rest) => Ok(trim(rest.as_str())),
        None => Err(concat_str(path, prefix_error)),
    }
}

/// Reads the reformatted date of a `Dato:` line.
fn date_line(path: &str, line: &str, error: &str) -> (res: Result<String, String>)
    ensures
        match (res, dated(path@, line@, error@)) {
            (Ok(v), Ok(m)) => v@ == m,
            (Err(e), Err(m)) => e@ == m,
            _ => false,
        },
{
    match strip_prefix(line, "Dato:") {
        Some(rest) => {
            let t = trim(rest.as_str());
            match reformat_date(t.as_str()) {
                Some(d) => Ok(d),
                None => Err(concat_str(path, error)),
            }
        },
        None => Err(concat_str(path, error)),
    }
}

/// Parses the rows of a page's post table, `None` when the page has no
/// such table, into its replies followed by its post. Errors name the
/// page. `post` carries the forum and post numbers.
pub fn process_page(path: &str, post: Post, rows: Option<Vec<PageRow>>, counter: &mut IdCounter) -> (res:
    Result<Vec<Item>, String>)
    ensures
        ({
            let model = page_result(
                path@,
                post@,
                match rows {
                    Some(rs) => Some(rows_view(rs@)),
                    None => None,
                },
                old(counter).next,
            );
            &&& final(counter).next == model.1
            &&& match (res, model.0) {
                (Ok(v), Ok(m)) => items_view(v@) == m,
                (Err(e), Err(m)) => e@ == m,
                _ => false,
            }
        }),
{
    let rows = match rows {
        None => return Err(concat_str(path, ": no post")),
        Some(rs) => rs,
    };
    let ghost rs = rows_view(rows@);
    let mut cursor: usize = 0;
    let title = next_prefixed_row(
        &rows,
        &mut cursor,
        path,
        ": no title",
        "Emne:",
        ": title didn't have 'Emne:' prefix",
    )?;
    let author = next_prefixed_row(
        &rows,
        &mut cursor,
        path,
        ": no author",
        "Navn:",
        ": author didn't have 'Navn:' prefix",
    )?;
    let line = next_row_element(&rows, &mut cursor, path, ": no email_or_date")?;
    let mut email = post.email;
    let date;
    if starts_with(line.as_str(), "E-mail:") {
        let rest = strip_prefix(line.as_str(), "E-mail:");
        email = rest;
        let dline = next_row_element(&rows, &mut cursor, path, ": no date")?;
        date = date_line(path, dline.as_str(), ": date didn't have 'Dato:' prefix (a)")?;
    } else {
        date = date_line(path, line.as_str(), ": date didn't have 'Dato:' prefix (b)")?;
    }
    assert(cursor == content_row(path@, rs));
    let content = next_row_element(&rows, &mut cursor, path, ": no initial_content")?;
    let header = next_row_element(&rows, &mut cursor, path, ": no reply header")?;
    if !starts_with(header.as_str(), "Svar:") {
        return Err(concat_str(path, ": reply header didn't have 'Svar:' prefix"));
    }
    if cursor >= rows.len() {
        return Err(concat_str(path, ": no reply content"));
    }
    let replies = match parse_sub_reply_content(post.forum_id, post.post_id, &rows[cursor].reply, counter) {
        Ok(r) => r,
        Err(e) => {
            let mut msg = concat_str(path, ": ");
            msg.append(e.as_str());
            return Err(msg);
        },
    };
    let ghost reply_models = replies_view(replies@);
    let mut items: Vec<Item> = Vec::new();
    let n = replies.len();
    let mut replies = replies;
    proof {
        assert(items_view(items@) =~= reply_models.take(0).map_values(|r: ReplyView| ItemView::Reply(r)));
    }
    let mut k: usize = 0;
    while replies.len() > 0
        invariant
            k + replies.len() == n,
            n == reply_models.len(),
            replies_view(replies@) == reply_models.skip(k as int),
            items_view(items@) == reply_models.take(k as int).map_values(|r: ReplyView| ItemView::Reply(r)),
        decreases replies.len(),
    {
        let ghost before = replies@;
        let r = replies.remove(0);
        let ghost rv = r@;
        assert(replies_view(before)[0] == rv);
        assert(reply_models.skip(k as int)[0] == reply_models[k as int]);
        assert(replies_view(replies@) =~= replies_view(before).drop_first());
        let ghost old_items = items@;
        items.push(Item::Reply(r));
        proof {
            assert(items_view(items@) =~= items_view(old_items).push(ItemView::Reply(rv)));
            assert(reply_models.take(k + 1).map_values(|r: ReplyView| ItemView::Reply(r))
                =~= reply_models.take(k as int).map_values(|r: ReplyView| ItemView::Reply(r)).push(
                ItemView::Reply(reply_models[k as int])));
            assert(replies_view(replies@) =~= reply_models.skip(k + 1));
            assert(items_view(items@) =~= reply_models.take(k + 1).map_values(|r: ReplyView| ItemView::Reply(r)));
        }
        k = k + 1;
    }
    assert(reply_models.take(n as int) =~= reply_models);
    let finished = Post { forum_id: post.forum_id, post_id: post.post_id, title, author, email, date, content };
    items.push(Item::Post(finished));
    Ok(items)
}


/// Whether a file name is that of a picture (`.jpg`, `.png`, `.gif`).
pub open spec fn is_image(path: Seq<char>) -> bool {
    has_suffix(path, ".jpg"@) || has_suffix(path, ".png"@) || has_suffix(path, ".gif"@)
}

/// Tests whether a file name is that of a picture.
pub fn is_image_path(path: &str) -> (res: bool)
    ensures
        res == is_image(path@),
{
    ends_with(path, ".jpg") || ends_with(path, ".png") || ends_with(path, ".gif")
}

/// The address that an archived file's name encodes: the name in lower
/// case with its escapes for `&`, `?`, `=`, `:` and `/` undone and the
/// archive's directory removed.
pub open spec fn normalized_query(q: Seq<char>) -> Seq<char> {
    replaced(
        replaced(
            replaced(
                replaced(
                    replaced(
                        replaced(replaced(lowercase_of(q), "%26amp;"@, "&"@), "%3f"@, "?"@),
                        "%3d"@,
                        "="@,
                    ),
                    "%26"@,
                    "&"@,
                ),
                "%3a"@,
                ":"@,
            ),
            "%2f"@,
            "/"@,
        ),
        "../volvo240.dk/"@,
        ""@,
    )
}

/// The post that the query pairs from the first on describe, starting
/// from `post`: `forumid` and `id` set the numbers, `f` must be `4`,
/// `showsub` is ignored and any other key is an error.
pub open spec fn query_post(pairs: Seq<(Seq<char>, Seq<char>)>, post: PostView) -> Result<PostView, Seq<char>>
    decreases pairs.len(),
{
    if pairs.len() == 0 {
        Ok(post)
    } else {
        let key = lowercase_of(pairs[0].0);
        let value = pairs[0].1;
        let rest = pairs.drop_first();
        if key == "forumid"@ {
            query_post(rest, PostView { forum_id: parsed_i32(value).unwrap(), ..post })
        } else if key == "id"@ {
            query_post(rest, PostView { post_id: parsed_i32(value).unwrap(), ..post })
        } else if key == "f"@ && value != "4"@ {
            Err("forum != 4"@)
        } else if key == "f"@ || key == "showsub"@ {
            query_post(rest, post)
        } else {
            Err("unrecognized key "@ + key)
        }
    }
}

/// Whether every `forumid` and `id` that `query_post` reads is an `i32`.
pub open spec fn query_numbers_ok(pairs: Seq<(Seq<char>, Seq<char>)>) -> bool
    decreases pairs.len(),
{
    if pairs.len() == 0 {
        true
    } else {
        let key = lowercase_of(pairs[0].0);
        let value = pairs[0].1;
        let rest = pairs.drop_first();
        if key == "forumid"@ || key == "id"@ {
            parsed_i32(value) is Some && query_numbers_ok(rest)
        } else if key == "f"@ && value != "4"@ {
            true
        } else if key == "f"@ || key == "showsub"@ {
            query_numbers_ok(rest)
        } else {
            true
        }
    }
}

/// The post with empty text and zero numbers.
pub open spec fn empty_post() -> PostView {
    PostView {
        forum_id: 0,
        post_id: 0,
        title: Seq::empty(),
        author: Seq::empty(),
        email: None,
        date: Seq::empty(),
        content: Seq::empty(),
    }
}

/// Whether a post, or an error, is the one that the model gives.
pub open spec fn post_outcome_is(res: Result<Post, String>, model: Result<PostView, Seq<char>>) -> bool {
    match (res, model) {
        (Ok(p), Ok(m)) => p@ == m,
        (Err(e), Err(m)) => e@ == m,
        _ => false,
    }
}

/// Tests whether every `forumid` and `id` that the query pairs name is
/// an `i32`.
pub fn query_numbers_valid(pairs: &Vec<(String, String)>) -> (res: bool)
    ensures
        res == query_numbers_ok(pairs.deep_view()),
{
    let n = pairs.len();
    let ghost all = pairs.deep_view();
    let mut i: usize = 0;
    assert(all.skip(0) =~= all);
    while i < n
        invariant
            n == pairs.len(),
            all == pairs.deep_view(),
            i <= n,
            query_numbers_ok(all) == query_numbers_ok(all.skip(i as int)),
        decreases n - i,
    {
        let ghost rest = all.skip(i as int);
        assert(rest.drop_first() =~= all.skip(i + 1));
        assert(rest[0] == (pairs[i as int].0@, pairs[i as int].1@));
        let key = lowercase(pairs[i].0.as_str());
        let value = pairs[i].1.as_str();
        if str_eq(key.as_str(), "forumid") || str_eq(key.as_str(), "id") {
            if parse_i32(value).is_none() {
                return false;
            }
        } else if str_eq(key.as_str(), "f") && !str_eq(value, "4") {
            return true;
        } else if !(str_eq(key.as_str(), "f") || str_eq(key.as_str(), "showsub")) {
            return true;
        }
        i = i + 1;
    }
    assert(all.skip(n as int) =~= Seq::<(Seq<char>, Seq<char>)>::empty());
    true
}

/// The post that a list of query pairs describes.
pub fn post_from_pairs(pairs: &Vec<(String, String)>) -> (res: Result<Post, String>)
    requires
        query_numbers_ok(pairs.deep_view()),
    ensures
        post_outcome_is(res, query_post(pairs.deep_view(), empty_post())),
{
    let n = pairs.len();
    let ghost all = pairs.deep_view();
    let mut post = Post::default();
    let mut i: usize = 0;
    assert(all.skip(0) =~= all);
    while i < n
        invariant
            n == pairs.len(),
            all == pairs.deep_view(),
            i <= n,
            query_post(all, empty_post()) == query_post(all.skip(i as int), post@),
            query_numbers_ok(all.skip(i as int)),
        decreases n - i,
    {
        let ghost rest = all.skip(i as int);
        assert(rest.drop_first() =~= all.skip(i + 1));
        assert(rest[0] == (pairs[i as int].0@, pairs[i as int].1@));
        let key = lowercase(pairs[i].0.as_str());
        let value = pairs[i].1.as_str();
        if str_eq(key.as_str(), "forumid") {
            post.forum_id = parse_i32(value).unwrap();
        } else if str_eq(key.as_str(), "id") {
            post.post_id = parse_i32(value).unwrap();
        } else if str_eq(key.as_str(), "f") && !str_eq(value, "4") {
            return Err(String::from_str("forum != 4"));
        } else if !(str_eq(key.as_str(), "f") || str_eq(key.as_str(), "showsub")) {
            return Err(concat_str("unrecognized key ", key.as_str()));
        }
        i = i + 1;
    }
    assert(all.skip(n as int) =~= Seq::<(Seq<char>, Seq<char>)>::empty());
    Ok(post)
}

/// Writes an archived file's name as the address it encodes.
pub fn normalize_query(query: &str) -> (res: String)
    ensures
        res@ == normalized_query(query@),
{
    let s = lowercase(query);
    let s = replace(s.as_str(), "%26amp;", "&");
    let s = replace(s.as_str(), "%3f", "?");
    let s = replace(s.as_str(), "%3d", "=");
    let s = replace(s.as_str(), "%26", "&");
    let s = replace(s.as_str(), "%3a", ":");
    let s = replace(s.as_str(), "%2f", "/");
    replace(s.as_str(), "../volvo240.dk/", "")
}

/// The post that an archived file's name describes. The name must encode
/// an absolute address whose `forumid` and `id` are numbers.
pub fn post_from_query(query: &str) -> (res: Result<Post, String>)
    requires
        url_query_pairs_of(normalized_query(query@)) matches Some(pairs) && query_numbers_ok(pairs),
    ensures
        post_outcome_is(res, query_post(url_query_pairs_of(normalized_query(query@)).unwrap(), empty_post())),
{
    let address = normalize_query(query);
    let pairs = url_query_pairs(address.as_str()).unwrap();
    post_from_pairs(&pairs)
}

/// Whether an archived file's name encodes an absolute address whose
/// `forumid` and `id` are numbers.
pub open spec fn query_well_formed(query: Seq<char>) -> bool {
    url_query_pairs_of(normalized_query(query)) matches Some(pairs) && query_numbers_ok(pairs)
}

/// The post that an archived file's name describes, or `None` when the
/// name does not encode an absolute address whose `forumid` and `id` are
/// numbers.
pub fn checked_post_from_query(query: &str) -> (res: Option<Result<Post, String>>)
    ensures
        res is None <==> !query_well_formed(query@),
        res matches Some(r) ==> post_outcome_is(
            r,
            query_post(url_query_pairs_of(normalized_query(query@)).unwrap(), empty_post()),
        ),
{
    let address = normalize_query(query);
    let pairs = match url_query_pairs(address.as_str()) {
        Some(p) => p,
        None => return None,
    };
    if !query_numbers_valid(&pairs) {
        return None;
    }
    Some(post_from_query(query))
}

/// The key of query pair `j`, in lower case.
pub open spec fn pair_key(pairs: Seq<(Seq<char>, Seq<char>)>, j: int) -> Seq<char> {
    lowercase_of(pairs[j].0)
}

/// Whether pair `j` is the last pair with key `key`.
pub open spec fn last_with_key(pairs: Seq<(Seq<char>, Seq<char>)>, key: Seq<char>, j: int) -> bool {
    &&& 0 <= j < pairs.len()
    &&& pair_key(pairs, j) == key
    &&& forall|l: int| j < l < pairs.len() ==> pair_key(pairs, l) != key
}

/// Whether `got` is what the last pair with key `key` names, read as an
/// `i32`, or `before` when no pair has that key.
pub open spec fn named_by(
    pairs: Seq<(Seq<char>, Seq<char>)>,
    key: Seq<char>,
    before: Option<i32>,
    got: Option<i32>,
) -> bool {
    &&& (forall|j: int| 0 <= j < pairs.len() ==> pair_key(pairs, j) != key) ==> got == before
    &&& forall|j: int| #[trigger] last_with_key(pairs, key, j) ==> got == parsed_i32(pairs[j].1)
}

/// What the pairs name under `key`, from what the pairs after the first
/// name and what the first pair does.
pub proof fn lemma_named_by_step(
    pairs: Seq<(Seq<char>, Seq<char>)>,
    key: Seq<char>,
    before: Option<i32>,
    after_first: Option<i32>,
    got: Option<i32>,
)
    requires
        pairs.len() > 0,
        named_by(pairs.drop_first(), key, after_first, got),
        pair_key(pairs, 0) == key ==> after_first == parsed_i32(pairs[0].1),
        pair_key(pairs, 0) != key ==> after_first == before,
    ensures
        named_by(pairs, key, before, got),
{
    let rest = pairs.drop_first();
    assert forall|l: int| 0 <= l < rest.len() implies pair_key(rest, l) == pair_key(pairs, l + 1) by {
        assert(rest[l] == pairs[l + 1]);
    }
    if forall|j: int| 0 <= j < pairs.len() ==> pair_key(pairs, j) != key {
        assert forall|l: int| 0 <= l < rest.len() implies pair_key(rest, l) != key by {
            assert(pair_key(rest, l) == pair_key(pairs, l + 1));
        }
        assert(pair_key(pairs, 0) != key);
    }
    assert forall|j: int| #[trigger] last_with_key(pairs, key, j) implies got == parsed_i32(pairs[j].1) by {
        if j == 0 {
            assert forall|l: int| 0 <= l < rest.len() implies pair_key(rest, l) != key by {
                assert(pair_key(rest, l) == pair_key(pairs, l + 1));
            }
        } else {
            assert(rest[j - 1] == pairs[j]);
            assert forall|l: int| j - 1 < l < rest.len() implies pair_key(rest, l) != key by {
                assert(pair_key(rest, l) == pair_key(pairs, l + 1));
            }
            assert(last_with_key(rest, key, j - 1));
        }
    }
}

/// Whether every key of the pairs is one that a post's address may have
/// (`forumid`, `id`, `f`, `showsub`), and `f` is always `4`.
pub open spec fn known_keys(pairs: Seq<(Seq<char>, Seq<char>)>) -> bool {
    forall|j: int|
        0 <= j < pairs.len() ==> {
            let key = #[trigger] pair_key(pairs, j);
            &&& key == "forumid"@ || key == "id"@ || key == "f"@ || key == "showsub"@
            &&& key == "f"@ ==> pairs[j].1 == "4"@
        }
}

/// When the query pairs describe a post (and every `forumid` and `id`
/// that is read is a number, without which the parse stops), every key is
/// known and `f` is `4`; the forum number is what the last `forumid` pair
/// names and the post number what the last `id` pair names (each
/// unchanged when no pair names it), and nothing else of the post
/// changes.
pub proof fn lemma_query_post_fields(pairs: Seq<(Seq<char>, Seq<char>)>, post: PostView)
    requires
        query_numbers_ok(pairs),
    ensures
        query_post(pairs, post) matches Ok(p) ==> {
            &&& known_keys(pairs)
            &&& named_by(pairs, "forumid"@, Some(post.forum_id), Some(p.forum_id))
            &&& named_by(pairs, "id"@, Some(post.post_id), Some(p.post_id))
            &&& p == PostView { forum_id: p.forum_id, post_id: p.post_id, ..post }
        },
    decreases pairs.len(),
{
    if pairs.len() > 0 {
        let key = lowercase_of(pairs[0].0);
        let value = pairs[0].1;
        let rest = pairs.drop_first();
        let next = if key == "forumid"@ {
            PostView { forum_id: parsed_i32(value).unwrap(), ..post }
        } else if key == "id"@ {
            PostView { post_id: parsed_i32(value).unwrap(), ..post }
        } else {
            post
        };
        if let Ok(p) = query_post(pairs, post) {
            reveal_strlit("forumid");
            reveal_strlit("id");
            reveal_strlit("f");
            reveal_strlit("showsub");
            assert(key == "forumid"@ || key == "id"@ || key == "f"@ || key == "showsub"@);
            assert(query_post(pairs, post) == query_post(rest, next));
            assert(query_numbers_ok(rest));
            lemma_query_post_fields(rest, next);
            assert forall|j: int| 0 <= j < pairs.len() implies {
                let k = #[trigger] pair_key(pairs, j);
                &&& k == "forumid"@ || k == "id"@ || k == "f"@ || k == "showsub"@
                &&& k == "f"@ ==> pairs[j].1 == "4"@
            } by {
                if j > 0 {
                    assert(rest[j - 1] == pairs[j]);
                    assert(pair_key(rest, j - 1) == pair_key(pairs, j));
                }
            }
            assert("forumid"@ != "id"@) by {
                assert("forumid"@.len() != "id"@.len());
            }
            lemma_named_by_step(pairs, "forumid"@, Some(post.forum_id), Some(next.forum_id), Some(p.forum_id));
            lemma_named_by_step(pairs, "id"@, Some(post.post_id), Some(next.post_id), Some(p.post_id));
        }
    }
}

/// What to do with an archived file: skip it, scrape it for the post
/// that its name describes, or stop because its name is malformed.
#[derive(Debug)]
pub enum FilePlan {
    Skip,
    Scrape(Post),
    Malformed,
}

/// The model of the plan for an archived file: pictures, files outside
/// forum 4 and files whose name describes no post of forum 4 are
/// skipped.
pub open spec fn file_plan(path: Seq<char>) -> Option<Option<PostView>> {
    if is_image(path) || !has_infix(lowercase_of(path), "f%3d4"@) {
        Some(None)
    } else if !query_well_formed(path) {
        None
    } else {
        match query_post(url_query_pairs_of(normalized_query(path)).unwrap(), empty_post()) {
            Ok(post) => Some(Some(post)),
            Err(_) => Some(None),
        }
    }
}

/// Decides what to do with an archived file, by its name.
pub fn plan_file(path: &str) -> (res: FilePlan)
    ensures
        match (res, file_plan(path@)) {
            (FilePlan::Skip, Some(None)) => true,
            (FilePlan::Scrape(p), Some(Some(m))) => p@ == m,
            (FilePlan::Malformed, None) => true,
            _ => false,
        },
{
    if is_image_path(path) {
        return FilePlan::Skip;
    }
    let lower = lowercase(path);
    if !contains(lower.as_str(), "f%3d4") {
        return FilePlan::Skip;
    }
    match checked_post_from_query(path) {
        None => FilePlan::Malformed,
        Some(Ok(post)) => FilePlan::Scrape(post),
        Some(Err(_)) => FilePlan::Skip,
    }
}

/// The message for a page that could not be read.
pub fn read_error(path: &str, detail: &str) -> (res: String)
    ensures
        res@ == path@ + ": "@ + detail@,
{
    let mut msg = concat_str(path, ": ");
    msg.append(detail);
    msg
}

/// Whether a database error reports a duplicate key, which the importer
/// passes over.
pub fn is_duplicate_key_error(message: &str) -> (res: bool)
    ensures
        res == has_infix(message@, "UNIQUE constraint failed"@),
{
    contains(message, "UNIQUE constraint failed")
}


/// A reply parsed from a list carries the forum and post numbers it was
/// parsed for.
pub proof fn lemma_li_numbers(forum_id: i32, post_id: i32, es: Seq<EntryView>, i: int, c: i32)
    ensures
        li_result(forum_id, post_id, es, i, c).0 matches Ok((_, Some(r))) ==> r.forum_id == forum_id
            && r.post_id == post_id,
    decreases es.len() - i,
{
    if 0 <= i < es.len() {
        match author_info(es[i].em_text) {
            Err(e) => {},
            Ok((author, date)) => {
                let c1 = match link_id(es[i].link_href) {
                    Some(id) => c,
                    None => counter_after(c),
                };
                lemma_li_numbers(forum_id, post_id, es, i + 1, c1);
            },
        }
    }
}

/// A reply that the entry at `i` gives is read from the last of a run of
/// `<li>` entries: the author and date from that entry's `<em>`, the
/// number from its link when the link names one, then a `<br>`, the
/// entry whose text pieces make the reply's text, and a closing `<br>`.
pub proof fn lemma_li_reply_parts(forum_id: i32, post_id: i32, es: Seq<EntryView>, i: int, c: i32)
    ensures
        li_result(forum_id, post_id, es, i, c).0 matches Ok((n, Some(r))) ==> {
            let j = i + n - 4;
            &&& 0 <= i <= j
            &&& i + n <= es.len()
            &&& forall|m: int| i < m <= j ==> lowercase_of((#[trigger] es[m]).name) == "li"@
            &&& author_info(es[j].em_text) == Ok::<(Seq<char>, Seq<char>), Seq<char>>((r.author, r.date))
            &&& (link_id(es[j].link_href) matches Some(id) ==> r.sub_id == id)
            &&& lowercase_of(es[j + 1].name) == "br"@
            &&& r.content == reply_text(es[j + 2].text)
            &&& lowercase_of(es[j + 3].name) == "br"@
        },
    decreases es.len() - i,
{
    if 0 <= i < es.len() {
        match author_info(es[i].em_text) {
            Err(e) => {},
            Ok((author, date)) => {
                let c1 = match link_id(es[i].link_href) {
                    Some(id) => c,
                    None => counter_after(c),
                };
                if i + 1 < es.len() && lowercase_of(es[i + 1].name) == "li"@ {
                    lemma_li_reply_parts(forum_id, post_id, es, i + 1, c1);
                }
            },
        }
    }
}

/// The replies of a list all carry the forum and post numbers they were
/// parsed for, and each spans at least four entries of the list.
pub proof fn lemma_replies_shape(forum_id: i32, post_id: i32, es: Seq<EntryView>, k: int, c: i32)
    requires
        0 <= k <= es.len(),
    ensures
        replies_from(forum_id, post_id, es, k, c).0 matches Ok(rs) ==> {
            &&& 4 * rs.len() <= es.len() - k
            &&& forall|j: int|
                0 <= j < rs.len() ==> (#[trigger] rs[j]).forum_id == forum_id && rs[j].post_id
                    == post_id
        },
    decreases es.len() - k,
{
    if k < es.len() && lowercase_of(es[k].name) == "li"@ {
        let (r, c1) = li_result(forum_id, post_id, es, k, c);
        lemma_li_span(forum_id, post_id, es, k, c);
        lemma_li_numbers(forum_id, post_id, es, k, c);
        if let Ok((n, Some(reply))) = r {
            lemma_replies_shape(forum_id, post_id, es, k + n, c1);
            let (rest, c2) = replies_from(forum_id, post_id, es, k + n, c1);
            if let Ok(rs) = rest {
                let all = seq![reply] + rs;
                assert forall|j: int| 0 <= j < all.len() implies (#[trigger] all[j]).forum_id
                    == forum_id && all[j].post_id == post_id by {
                    if j > 0 {
                        assert(all[j] == rs[j - 1]);
                    }
                }
            }
        }
    }
}

/// Whether the entries from `k` on form a reply block: an `<li>` whose
/// `<em>` names author and date, a `<br>`, the reply's text and a closing
/// `<br>`.
pub open spec fn block_at(es: Seq<EntryView>, k: int) -> bool {
    &&& 0 <= k
    &&& k + 4 <= es.len()
    &&& lowercase_of(es[k].name) == "li"@
    &&& author_info(es[k].em_text) is Ok
    &&& lowercase_of(es[k + 1].name) == "br"@
    &&& lowercase_of(es[k + 3].name) == "br"@
}

/// Whether a reply list is made of whole reply blocks from `k` on.
pub open spec fn reply_blocks(es: Seq<EntryView>, k: int) -> bool
    decreases es.len() - k,
{
    if k == es.len() {
        true
    } else if 0 <= k < es.len() {
        block_at(es, k) && reply_blocks(es, k + 4)
    } else {
        false
    }
}

/// The reply that a reply block gives, and the counter after it.
proof fn lemma_block_reply(forum_id: i32, post_id: i32, es: Seq<EntryView>, k: int, c: i32)
    requires
        block_at(es, k),
    ensures
        li_result(forum_id, post_id, es, k, c).0 matches Ok((n, Some(r))) && {
            &&& n == 4
            &&& author_info(es[k].em_text) == Ok::<(Seq<char>, Seq<char>), Seq<char>>((r.author, r.date))
            &&& r.content == reply_text(es[k + 2].text)
        },
{
    reveal_strlit("li");
    reveal_strlit("br");
    assert("br"@[0] != "li"@[0]);
}

/// A list made of whole reply blocks gives one reply per block, in
/// order, each with the author, date and text of its own block: no block
/// is lost or merged.
pub proof fn lemma_blocks_give_replies(forum_id: i32, post_id: i32, es: Seq<EntryView>, k: int, c: i32)
    requires
        reply_blocks(es, k),
    ensures
        replies_from(forum_id, post_id, es, k, c).0 matches Ok(rs) && {
            &&& 4 * rs.len() == es.len() - k
            &&& forall|q: int|
                0 <= q < rs.len() ==> {
                    &&& author_info(es[k + 4 * q].em_text) == Ok::<(Seq<char>, Seq<char>), Seq<char>>(
                        ((#[trigger] rs[q]).author, rs[q].date),
                    )
                    &&& rs[q].content == reply_text(es[k + 4 * q + 2].text)
                }
        },
    decreases es.len() - k,
{
    if k < es.len() {
        lemma_block_reply(forum_id, post_id, es, k, c);
        let (r, c1) = li_result(forum_id, post_id, es, k, c);
        let reply = r->Ok_0.1->Some_0;
        lemma_blocks_give_replies(forum_id, post_id, es, k + 4, c1);
        let rest = replies_from(forum_id, post_id, es, k + 4, c1).0->Ok_0;
        let all = seq![reply] + rest;
        assert(replies_from(forum_id, post_id, es, k, c).0 == Ok::<Seq<ReplyView>, Seq<char>>(all));
        assert forall|q: int| 0 <= q < all.len() implies {
            &&& author_info(es[k + 4 * q].em_text) == Ok::<(Seq<char>, Seq<char>), Seq<char>>(
                ((#[trigger] all[q]).author, all[q].date),
            )
            &&& all[q].content == reply_text(es[k + 4 * q + 2].text)
        } by {
            if q > 0 {
                assert(all[q] == rest[q - 1]);
                assert(k + 4 + 4 * (q - 1) == k + 4 * q);
            }
        }
    }
}

/// Whether an item is a reply with the given forum and post numbers.
pub open spec fn is_reply_in(item: ItemView, forum_id: i32, post_id: i32) -> bool {
    match item {
        ItemView::Reply(r) => r.forum_id == forum_id && r.post_id == post_id,
        ItemView::Post(_) => false,
    }
}

/// Whether an item is a post with the given forum and post numbers.
pub open spec fn is_post_in(item: ItemView, forum_id: i32, post_id: i32) -> bool {
    match item {
        ItemView::Post(p) => p.forum_id == forum_id && p.post_id == post_id,
        ItemView::Reply(_) => false,
    }
}

/// What a page gives, when it gives anything, is its replies followed by
/// its post, and all of them carry the page's forum and post numbers.
pub proof fn lemma_page_items(path: Seq<char>, post: PostView, rows: Option<Seq<PageRowView>>, c: i32)
    ensures
        page_result(path, post, rows, c).0 matches Ok(items) ==> {
            &&& items.len() >= 1
            &&& is_post_in(items.last(), post.forum_id, post.post_id)
            &&& forall|j: int|
                0 <= j < items.len() - 1 ==> is_reply_in(#[trigger] items[j], post.forum_id, post.post_id)
        },
{
    if let Some(rs) = rows {
        let k = content_row(path, rs);
        if 0 <= k + 2 < rs.len() && rs[k + 2].depth >= 3 {
            lemma_replies_shape(post.forum_id, post.post_id, rs[k + 2].items, 0, c);
        }
        if let Ok(items) = page_result(path, post, rows, c).0 {
            let (r, c1) = row_replies(post.forum_id, post.post_id, rs[k + 2].depth, rs[k + 2].items, c);
            if let Ok(replies) = r {
                let front = replies.map_values(|r: ReplyView| ItemView::Reply(r));
                assert forall|j: int| 0 <= j < items.len() - 1 implies is_reply_in(
                    #[trigger] items[j],
                    post.forum_id,
                    post.post_id,
                ) by {
                    assert(items[j] == front[j]);
                    assert(replies[j].forum_id == post.forum_id);
                }
            }
        }
    }
}

/// Whether a page's items are exactly its replies, one item each and in
/// the same order, followed by one more item (the post).
pub open spec fn items_from_replies(items: Seq<ItemView>, replies: Seq<ReplyView>) -> bool {
    &&& items.len() == replies.len() + 1
    &&& forall|j: int| 0 <= j < replies.len() ==> items[j] == ItemView::Reply(#[trigger] replies[j])
}

/// When a page gives its items, the row after the `Svar:` header row
/// (the seventh row when the third row starts with `E-mail:`, else the
/// sixth) holds a reply list that parses, and the page's items are every
/// reply of that list, in order, then the post; the counter ends where
/// that parse leaves it.
pub proof fn lemma_page_replies(path: Seq<char>, post: PostView, rows: Option<Seq<PageRowView>>, c: i32)
    ensures
        page_result(path, post, rows, c).0 matches Ok(items) ==> {
            &&& rows matches Some(rs)
            &&& {
                let r: int = if has_prefix(row_text(rs, 2), "E-mail:"@) {
                    6
                } else {
                    5
                };
                let parsed = row_replies(post.forum_id, post.post_id, rs[r].depth, rs[r].items, c);
                &&& r < rs.len()
                &&& has_prefix(row_text(rs, r - 1), "Svar:"@)
                &&& parsed.1 == page_result(path, post, rows, c).1
                &&& parsed.0 matches Ok(replies)
                &&& items_from_replies(items, replies)
            }
        },
{
    if let Some(rs) = rows {
        if let Ok(items) = page_result(path, post, rows, c).0 {
            let k = content_row(path, rs);
            let r = k + 2;
            let rr = row_replies(post.forum_id, post.post_id, rs[r].depth, rs[r].items, c);
            if let Ok(replies) = rr.0 {
                let front = replies.map_values(|x: ReplyView| ItemView::Reply(x));
                assert(items == front + seq![items.last()]);
                assert forall|j: int| 0 <= j < replies.len() implies items[j] == ItemView::Reply(
                    #[trigger] replies[j],
                ) by {
                    assert(items[j] == front[j]);
                }
                assert(items_from_replies(items, replies));
            }
            assert(row_value(path, rs, k + 1, ": no reply header"@) is Ok);
            assert(has_prefix(trimmed(joined_lines(rs[r - 1].text)), "Svar:"@));
            assert(r < rs.len());
            assert(rr.1 == page_result(path, post, rows, c).1);
            assert(rr.0 is Ok);
        }
    }
}

/// The text of row `k` of a page's post table: its text pieces, each
/// after a line break, trimmed.
pub open spec fn row_text(rs: Seq<PageRowView>, k: int) -> Seq<char> {
    trimmed(joined_lines(rs[k].text))
}

/// The post that a page gives is read from the rows in order: the title
/// after `Emne:` in the first row and the author after `Navn:` in the
/// second; then, exactly when the third row starts with `E-mail:`, what
/// follows that prefix as the e-mail, the date after `Dato:` in the
/// fourth row and the text in the fifth; otherwise the post's e-mail as
/// it was, the date after `Dato:` in the third row and the text in the
/// fourth. The forum and post numbers stay.
pub proof fn lemma_page_post_rows(path: Seq<char>, post: PostView, rows: Option<Seq<PageRowView>>, c: i32)
    ensures
        page_result(path, post, rows, c).0 matches Ok(items) ==> {
            &&& rows matches Some(rs)
            &&& items.len() >= 1
            &&& items.last() matches ItemView::Post(p)
            &&& p.forum_id == post.forum_id
            &&& p.post_id == post.post_id
            &&& has_prefix(row_text(rs, 0), "Emne:"@)
            &&& p.title == trimmed(row_text(rs, 0).skip(5))
            &&& has_prefix(row_text(rs, 1), "Navn:"@)
            &&& p.author == trimmed(row_text(rs, 1).skip(5))
            &&& if has_prefix(row_text(rs, 2), "E-mail:"@) {
                &&& p.email == Some(row_text(rs, 2).skip(7))
                &&& has_prefix(row_text(rs, 3), "Dato:"@)
                &&& reformatted_date(trimmed(row_text(rs, 3).skip(5))) == Some(p.date)
                &&& p.content == row_text(rs, 4)
            } else {
                &&& p.email == post.email
                &&& has_prefix(row_text(rs, 2), "Dato:"@)
                &&& reformatted_date(trimmed(row_text(rs, 2).skip(5))) == Some(p.date)
                &&& p.content == row_text(rs, 3)
            }
        },
{
    reveal_strlit("Emne:");
    reveal_strlit("Navn:");
    reveal_strlit("E-mail:");
    reveal_strlit("Dato:");
}

/// Whether no entry of a list has a link that names a reply number.
pub open spec fn no_link_numbers(es: Seq<EntryView>) -> bool {
    forall|j: int| 0 <= j < es.len() ==> link_id((#[trigger] es[j]).link_href) is None
}

/// Parsing an entry of a list whose links name no reply numbers draws at
/// most one number per entry it looks at, and the reply it gives has a
/// number that it drew.
pub proof fn lemma_li_counter(forum_id: i32, post_id: i32, es: Seq<EntryView>, i: int, c: i32)
    requires
        0 <= i <= es.len(),
        no_link_numbers(es),
        c + (es.len() - i) <= i32::MAX,
    ensures
        ({
            let (r, c2) = li_result(forum_id, post_id, es, i, c);
            &&& c <= c2 <= c + (es.len() - i)
            &&& r matches Ok((n, Some(reply))) ==> c <= reply.sub_id < c2 && c2 <= c + n
        }),
    decreases es.len() - i,
{
    if i < es.len() {
        assert(link_id(es[i].link_href) is None);
        match author_info(es[i].em_text) {
            Err(e) => {},
            Ok((author, date)) => {
                let c1 = counter_after(c);
                assert(c1 == c + 1);
                if i + 1 < es.len() {
                    lemma_li_counter(forum_id, post_id, es, i + 1, c1);
                }
            },
        }
    }
}

/// When no reply of a list names its number in its link and the counter
/// cannot wrap around, the replies get increasing numbers from the
/// counter, all at least its value before and below its value after,
/// and the counter moves by at most one per entry.
pub proof fn lemma_counter_numbers_increase(forum_id: i32, post_id: i32, es: Seq<EntryView>, k: int, c: i32)
    requires
        0 <= k <= es.len(),
        no_link_numbers(es),
        c + (es.len() - k) <= i32::MAX,
    ensures
        ({
            let (r, c2) = replies_from(forum_id, post_id, es, k, c);
            &&& c <= c2 <= c + (es.len() - k)
            &&& r matches Ok(rs) ==> {
                &&& forall|j: int| 0 <= j < rs.len() ==> c <= (#[trigger] rs[j]).sub_id < c2
                &&& forall|a: int, b: int|
                    0 <= a < b < rs.len() ==> (#[trigger] rs[a]).sub_id < (#[trigger] rs[b]).sub_id
            }
        }),
    decreases es.len() - k,
{
    if k < es.len() && lowercase_of(es[k].name) == "li"@ {
        let (r, c1) = li_result(forum_id, post_id, es, k, c);
        lemma_li_span(forum_id, post_id, es, k, c);
        lemma_li_counter(forum_id, post_id, es, k, c);
        if let Ok((n, Some(reply))) = r {
            lemma_counter_numbers_increase(forum_id, post_id, es, k + n, c1);
            let (rest, c2) = replies_from(forum_id, post_id, es, k + n, c1);
            if let Ok(rs) = rest {
                let all = seq![reply] + rs;
                assert forall|j: int| 0 <= j < all.len() implies c <= (#[trigger] all[j]).sub_id < c2 by {
                    if j > 0 {
                        assert(all[j] == rs[j - 1]);
                    }
                }
                assert forall|a: int, b: int| 0 <= a < b < all.len() implies (#[trigger] all[a]).sub_id
                    < (#[trigger] all[b]).sub_id by {
                    assert(all[b] == rs[b - 1]);
                    if a > 0 {
                        assert(all[a] == rs[a - 1]);
                    }
                }
            }
        }
    }
}

} // verus!
