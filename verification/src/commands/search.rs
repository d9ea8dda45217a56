//! Showing what a search found, page by page.
use vstd::prelude::*;

use crate::number::{decimal, decimal_value, is_digit, number_of, number_round_trip, parse_number, to_decimal};
use crate::repo::PackageMeta;
use crate::text::{can_shorten, cat, cat3, cat5, join_strings, join_with, lowercase, push_text, same, shorten, shortened, strs, to_lowercase, trim_start, trim_start_class, trim_white, trimmed, CharClass};

verus! {

/// How many results a page shows.
pub const PAGE_SIZE: usize = 20;

/// The number of pages.
pub open spec fn page_count(total: int) -> int {
    (total + PAGE_SIZE - 1) / (PAGE_SIZE as int)
}

/// The number of the first result that a page shows.
pub open spec fn page_start(page: int) -> int {
    page * PAGE_SIZE
}

/// The number behind the last result that a page shows.
pub open spec fn page_end(page: int, total: int) -> int {
    if page_start(page) + PAGE_SIZE < total {
        page_start(page) + PAGE_SIZE
    } else {
        total
    }
}

/// The number of pages that results take.
pub fn total_pages(total: usize) -> (r: usize)
    ensures
        r == page_count(total as int),
{
    if total == 0 {
        0
    } else {
        (total - 1) / PAGE_SIZE + 1
    }
}

/// The results that a page shows.
pub fn page_range(page: usize, total: usize) -> (r: (usize, usize))
    requires
        page < page_count(total as int),
    ensures
        r.0 == page_start(page as int),
        r.1 == page_end(page as int, total as int),
        r.0 < r.1 <= total,
{
    assert(page * PAGE_SIZE < total) by (nonlinear_arith)
        requires
            page < page_count(total as int),
            PAGE_SIZE == 20,
            page_count(total as int) == (total + PAGE_SIZE - 1) / (PAGE_SIZE as int),
    ;
    let start = page * PAGE_SIZE;
    if total - start > PAGE_SIZE {
        (start, start + PAGE_SIZE)
    } else {
        (start, total)
    }
}

/// The line above the results of a page.
pub fn page_header(page: usize, total: usize) -> (r: String)
    requires
        page < page_count(total as int),
    ensures
        r@ == "Page "@ + decimal((page + 1) as nat) + "/"@ + decimal(page_count(total as int) as nat)
            + " ("@ + decimal((page_start(page as int) + 1) as nat) + "-"@ + decimal(
            page_end(page as int, total as int) as nat,
        ) + " of "@ + decimal(total as nat) + ")"@,
{
    let pages = total_pages(total);
    let (start, end) = page_range(page, total);
    let a = to_decimal((page + 1) as u64);
    let b = to_decimal(pages as u64);
    let c = to_decimal((start + 1) as u64);
    let d = to_decimal(end as u64);
    let e = to_decimal(total as u64);
    let mut s = cat5("Page ", a.as_str(), "/", b.as_str(), " (");
    s.append(c.as_str());
    s.append("-");
    s.append(d.as_str());
    s.append(" of ");
    s.append(e.as_str());
    s.append(")");
    s
}

/// The ways on from a page.
pub fn page_prompt(page: usize, pages: usize) -> (r: String)
    ensures
        r@ == (if page + 1 < pages {
            " [n]ext"@
        } else {
            ""@
        }) + (if page > 0 {
            " [p]rev"@
        } else {
            ""@
        }) + " [q]uit"@,
{
    let a = if pages > 0 && page < pages - 1 {
        " [n]ext"
    } else {
        ""
    };
    let b = if page > 0 {
        " [p]rev"
    } else {
        ""
    };
    cat3(a, b, " [q]uit")
}

/// The page that an answer leads to; `None` ends.
pub open spec fn next_page(answer: Seq<char>, page: int, pages: int) -> Option<int> {
    let a = lowercase(trimmed(answer));
    if a == "n"@ || a == "next"@ || a == ""@ {
        if page + 1 < pages {
            Some(page + 1)
        } else {
            None
        }
    } else if a == "p"@ || a == "prev"@ {
        Some(
            if page > 0 {
                page - 1
            } else {
                page
            },
        )
    } else if a == "q"@ || a == "quit"@ || a == "exit"@ {
        None
    } else {
        page_named(a, pages)
    }
}

/// The page that a number names.
pub open spec fn page_named(a: Seq<char>, pages: int) -> Option<int> {
    match number_of(a, usize::MAX as nat) {
        Some(n) => if 1 <= n <= pages {
            Some(n - 1)
        } else {
            None
        },
        None => None,
    }
}

/// A position as a mathematical value.
pub open spec fn maybe_page(p: Option<usize>) -> Option<int> {
    match p {
        Some(i) => Some(i as int),
        None => None,
    }
}

/// The page that an answer leads to; `None` ends.
pub fn page_step(input: &str, page: usize, pages: usize) -> (r: Option<usize>)
    requires
        page < pages,
    ensures
        maybe_page(r) == next_page(input@, page as int, pages as int),
        r matches Some(p) ==> p < pages,
{
    let t = trim_white(input);
    let a = to_lowercase(t.as_str());
    let a = a.as_str();
    if same(a, "n") || same(a, "next") || same(a, "") {
        if page < pages - 1 {
            Some(page + 1)
        } else {
            None
        }
    } else if same(a, "p") || same(a, "prev") {
        if page > 0 {
            Some(page - 1)
        } else {
            Some(page)
        }
    } else if same(a, "q") || same(a, "quit") || same(a, "exit") {
        None
    } else {
        match parse_number(a, usize::MAX as u64) {
            Some(n) => if n >= 1 && n <= pages as u64 {
                Some((n - 1) as usize)
            } else {
                None
            },
            None => None,
        }
    }
}

/// The page of the packages of a tag that an answer leads to; `None` ends.
pub open spec fn next_tag_page(answer: Seq<char>, page: int, pages: int) -> Option<int> {
    let a = lowercase(trimmed(answer));
    if a == "n"@ || a == ""@ {
        if page + 1 < pages {
            Some(page + 1)
        } else {
            None
        }
    } else if a == "p"@ {
        Some(
            if page > 0 {
                page - 1
            } else {
                page
            },
        )
    } else {
        None
    }
}

/// The page of the packages of a tag that an answer leads to; `None` ends.
pub fn tag_page_step(input: &str, page: usize, pages: usize) -> (r: Option<usize>)
    requires
        page < pages,
    ensures
        maybe_page(r) == next_tag_page(input@, page as int, pages as int),
        r matches Some(p) ==> p < pages,
{
    let t = trim_white(input);
    let a = to_lowercase(t.as_str());
    let a = a.as_str();
    if same(a, "n") || same(a, "") {
        if page < pages - 1 {
            Some(page + 1)
        } else {
            None
        }
    } else if same(a, "p") {
        if page > 0 {
            Some(page - 1)
        } else {
            Some(page)
        }
    } else {
        None
    }
}

// ---------------------------------------------------------------------------
// Rows
// ---------------------------------------------------------------------------

/// Tags, each with its mark.
pub open spec fn marked_tags(tags: Seq<Seq<char>>) -> Seq<Seq<char>> {
    tags.map_values(|t: Seq<char>| "@"@ + t)
}

/// Tags as text.
pub open spec fn tags_text(tags: Seq<Seq<char>>) -> Seq<char> {
    join_with(marked_tags(tags), " "@)
}

/// Tags as text, with something between them.
pub fn format_tags(tags: &Vec<String>, sep: &str) -> (r: String)
    ensures
        r@ == join_with(marked_tags(strs(tags@)), sep@),
{
    let mut out: Vec<String> = Vec::new();
    let mut i: usize = 0;
    let ghost all = marked_tags(strs(tags@));
    assert(strs(out@) =~= all.take(0));
    while i < tags.len()
        invariant
            i <= tags@.len(),
            all == marked_tags(strs(tags@)),
            strs(out@) == all.take(i as int),
        decreases tags@.len() - i,
    {
        let t = cat("@", tags[i].as_str());
        assert(all[i as int] == t@);
        assert(all.take(i + 1) =~= all.take(i as int) + seq![t@]);
        push_text(&mut out, t);
        i = i + 1;
    }
    assert(all.take(all.len() as int) =~= all);
    join_strings(&out, sep)
}

/// What is shown of a package.
#[derive(Debug)]
pub struct ResultRow {
    pub name: String,
    pub version: String,
    pub description: String,
    pub tags: String,
}

/// What is shown of a package that was found. A description of more than
/// thirty bytes is cut.
pub fn result_row(meta: &PackageMeta) -> (r: ResultRow)
    requires
        can_shorten(meta.summary@, 30, 29),
    ensures
        r.name@ == meta.name@,
        r.version@ == meta.version@,
        r.description@ == shortened(meta.summary@, 30, 29, "…"@),
        r.tags@ == tags_text(strs(meta.tags@)),
{
    ResultRow {
        name: meta.name.clone(),
        version: meta.version.clone(),
        description: shorten(meta.summary.as_str(), 30, 29, "…"),
        tags: format_tags(&meta.tags, " "),
    }
}

/// What is shown of a package that carries a tag, given what is known of it. A
/// description of more than forty-five bytes is cut.
pub fn tag_row(name: &str, meta: &Option<PackageMeta>) -> (r: ResultRow)
    requires
        meta matches Some(m) ==> can_shorten(m.summary@, 45, 44),
    ensures
        r.name@ == name@,
        match meta {
            Some(m) => r.version@ == m.version@ && r.description@ == shortened(
                m.summary@,
                45,
                44,
                "…"@,
            ) && r.tags@ == tags_text(strs(m.tags@)),
            None => r.version@ == "unknown"@ && r.description@ == "(run hpm refresh)"@ && r.tags@ == ""@,
        },
{
    match meta {
        Some(m) => ResultRow {
            name: name.to_owned(),
            version: m.version.clone(),
            description: shorten(m.summary.as_str(), 45, 44, "…"),
            tags: format_tags(&m.tags, " "),
        },
        None => ResultRow {
            name: name.to_owned(),
            version: "unknown".to_owned(),
            description: "(run hpm refresh)".to_owned(),
            tags: "".to_owned(),
        },
    }
}

/// The tag that a query names: without the marks before it.
pub fn query_tag(query: &str) -> (r: String)
    ensures
        r@ == trim_start(query@, CharClass::Is('@')),
{
    trim_start_class(query, CharClass::Is('@'))
}

/// The first packages of a tag, as text: five of them, and how many more there
/// are.
pub open spec fn preview(pkgs: Seq<Seq<char>>) -> Seq<char> {
    if pkgs.len() > 5 {
        join_with(pkgs.take(5), ", "@) + " +"@ + decimal((pkgs.len() - 5) as nat) + " more"@
    } else {
        join_with(pkgs, ", "@)
    }
}

/// The first packages of a tag, as text.
pub fn tag_preview(pkgs: &Vec<String>) -> (r: String)
    ensures
        r@ == preview(strs(pkgs@)),
{
    if pkgs.len() <= 5 {
        return join_strings(pkgs, ", ");
    }
    let mut first: Vec<String> = Vec::new();
    let ghost all = strs(pkgs@);
    let mut i: usize = 0;
    assert(strs(first@) =~= all.take(0));
    while i < 5
        invariant
            i <= 5,
            all == strs(pkgs@),
            all.len() > 5,
            strs(first@) == all.take(i as int),
        decreases 5 - i,
    {
        assert(all.take(i + 1) =~= all.take(i as int) + seq![pkgs@[i as int]@]);
        push_text(&mut first, pkgs[i].clone());
        i = i + 1;
    }
    let list = join_strings(&first, ", ");
    let n = to_decimal((pkgs.len() - 5) as u64);
    let mut s = cat3(list.as_str(), " +", n.as_str());
    s.append(" more");
    s
}

// ---------------------------------------------------------------------------
// Laws
// ---------------------------------------------------------------------------

/// Every result is on exactly one page.
pub proof fn every_result_is_on_one_page(i: int, total: int)
    requires
        0 <= i < total,
    ensures
        0 <= i / (PAGE_SIZE as int) < page_count(total),
        page_start(i / (PAGE_SIZE as int)) <= i < page_end(i / (PAGE_SIZE as int), total),
        forall|p: int|
            0 <= p < page_count(total) && #[trigger] page_start(p) <= i < page_end(p, total) ==> p == i / (PAGE_SIZE as int),
{
    let n = PAGE_SIZE as int;
    let q = i / n;
    vstd::arithmetic::div_mod::lemma_fundamental_div_mod(i, n);
    vstd::arithmetic::div_mod::lemma_fundamental_div_mod(total + n - 1, n);
    assert forall|p: int|
        0 <= p < page_count(total) && #[trigger] page_start(p) <= i < page_end(p, total) implies p == q by {}
}

/// Going on from the first page leads through all of them: the answer `n` on
/// any page but the last leads to the next.
pub proof fn next_leads_on(answer: Seq<char>, page: int, pages: int)
    requires
        0 <= page < pages,
        lowercase(trimmed(answer)) == "n"@,
    ensures
        page + 1 < pages ==> next_page(answer, page, pages) == Some(page + 1),
        page + 1 == pages ==> next_page(answer, page, pages) is None,
{
}

/// A number leads to the page of that number, counted from one, if there is one.
pub proof fn number_leads_to_its_page(answer: Seq<char>, page: int, pages: int, n: nat)
    requires
        lowercase(trimmed(answer)) == decimal(n),
        n <= usize::MAX,
    ensures
        next_page(answer, page, pages) == (if 1 <= n <= pages {
            Some(n - 1)
        } else {
            None
        }),
{
    number_round_trip(n, usize::MAX as nat);
    decimal_value(n);
    let d = decimal(n);
    assert(is_digit(d[0]));
    reveal_strlit("n");
    reveal_strlit("next");
    reveal_strlit("");
    reveal_strlit("p");
    reveal_strlit("prev");
    reveal_strlit("q");
    reveal_strlit("quit");
    reveal_strlit("exit");
    assert("n"@[0] == 'n' && "next"@[0] == 'n' && "p"@[0] == 'p' && "prev"@[0] == 'p' && "q"@[0] == 'q'
        && "quit"@[0] == 'q' && "exit"@[0] == 'e');
}

/// Going back leads to the page before, and from the first page nowhere else; quitting
/// ends.
pub proof fn back_leads_back(answer: Seq<char>, page: int, pages: int)
    requires
        0 <= page < pages,
    ensures
        lowercase(trimmed(answer)) == "p"@ && page > 0 ==> next_page(answer, page, pages) == Some(page - 1)
            && next_tag_page(answer, page, pages) == Some(page - 1),
        lowercase(trimmed(answer)) == "p"@ && page == 0 ==> next_page(answer, page, pages) == Some(0int)
            && next_tag_page(answer, page, pages) == Some(0int),
        lowercase(trimmed(answer)) == "q"@ ==> next_page(answer, page, pages) is None && next_tag_page(
            answer,
            page,
            pages,
        ) is None,
        lowercase(trimmed(answer)) == "n"@ && page + 1 < pages ==> next_tag_page(answer, page, pages) == Some(
            page + 1,
        ),
        lowercase(trimmed(answer)) == "n"@ && page + 1 == pages ==> next_tag_page(answer, page, pages) is None,
{
    reveal_strlit("n");
    reveal_strlit("next");
    reveal_strlit("");
    reveal_strlit("p");
    reveal_strlit("prev");
    reveal_strlit("q");
    reveal_strlit("quit");
    reveal_strlit("exit");
    assert("n"@[0] == 'n' && "next"@[0] == 'n' && "p"@[0] == 'p' && "prev"@[0] == 'p' && "q"@[0] == 'q'
        && "quit"@[0] == 'q' && "exit"@[0] == 'e');
}

/// A page shows twenty results, the last one what is left.
pub proof fn pages_are_full_but_the_last(page: int, total: int)
    requires
        0 <= page < page_count(total),
    ensures
        page_start(page) == 20 * page,
        page + 1 < page_count(total) ==> page_end(page, total) == 20 * page + 20,
        page + 1 == page_count(total) ==> page_end(page, total) == total,
        20 * (page_count(total) - 1) < total <= 20 * page_count(total),
{
}

/// Of the packages of a tag the first five are named, and how many more there are.
pub proof fn five_packages_are_named(pkgs: Seq<Seq<char>>)
    ensures
        pkgs.len() <= 5 ==> preview(pkgs) == join_with(pkgs, ", "@),
        pkgs.len() > 5 ==> preview(pkgs) == join_with(pkgs.take(5), ", "@) + " +"@ + decimal(
            (pkgs.len() - 5) as nat,
        ) + " more"@,
{
}

/// Each tag stands with its mark, in its place.
pub proof fn tags_stand_with_their_marks(tags: Seq<Seq<char>>, i: int)
    requires
        0 <= i < tags.len(),
    ensures
        marked_tags(tags).len() == tags.len(),
        marked_tags(tags)[i] == "@"@ + tags[i],
        tags_text(tags) == join_with(marked_tags(tags), " "@),
{
}

} // verus!
