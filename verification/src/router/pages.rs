//! What the pages that list things by name have in common.
use crate::text::{decimal, decimal_u64};
use vstd::prelude::*;
use vstd::string::*;

verus! {

/// The page that is shown: the first unless a later one is asked for.
pub open spec fn shown_page(page: Option<u32>) -> u32 {
    match page {
        Some(page) => if page < 1 {
            1
        } else {
            page
        },
        None => 1,
    }
}

/// Tells which page is shown.
pub fn page_number(page: Option<u32>) -> (n: u32)
    ensures
        n == shown_page(page),
        n >= 1,
{
    match page {
        Some(page) => if page < 1 {
            1
        } else {
            page
        },
        None => 1,
    }
}

/// The name that is searched for; an empty one is no search.
pub open spec fn searched(name: Option<String>) -> Option<String> {
    match name {
        Some(name) => if name@.len() == 0 {
            None
        } else {
            Some(name)
        },
        None => None,
    }
}

/// Tells which name is searched for.
pub fn search(name: Option<String>) -> (r: Option<String>)
    ensures
        r == searched(name),
{
    match name {
        Some(name) => if name.as_str().unicode_len() == 0 {
            None
        } else {
            Some(name)
        },
        None => None,
    }
}

/// A link to a page of a list, with the name that is searched for.
pub open spec fn list_link(
    start: Seq<char>,
    page: u32,
    field: Seq<char>,
    name: Option<String>,
) -> Seq<char> {
    match name {
        Some(name) => start + "?page="@ + decimal(page as nat) + "&"@ + field + "="@ + name@,
        None => start + "?page="@ + decimal(page as nat),
    }
}

/// Writes a link to a page of a list.
pub fn list_href(start: &str, page: u32, field: &str, name: &Option<String>) -> (href: String)
    ensures
        href@ == list_link(start@, page, field@, *name),
{
    let mut href = start.to_owned();
    href.append("?page=");
    href.append(decimal_u64(page as u64).as_str());
    match name {
        Some(name) => {
            href.append("&");
            href.append(field);
            href.append("=");
            href.append(name.as_str());
        },
        None => {},
    }
    href
}

/// Which rows to read for a page.
#[derive(Clone, Copy, Debug, PartialEq, Eq, Structural)]
pub struct ListWindow {
    /// One more than a page holds, which tells whether there is another.
    pub limit: u32,
    pub offset: u32,
}

/// Whether the rows of a page can be counted.
pub open spec fn is_countable(page: Option<u32>, page_size: u32) -> bool {
    &&& page_size < u32::MAX
    &&& (shown_page(page) - 1) * page_size <= u32::MAX
    &&& shown_page(page) < u32::MAX
}

/// Tells which rows to read for a page.
pub fn list_window(page: Option<u32>, page_size: u32) -> (window: ListWindow)
    requires
        is_countable(page, page_size),
    ensures
        window.limit == page_size + 1,
        window.offset == (shown_page(page) - 1) * page_size,
{
    let shown: u32 = page_number(page);
    let offset: u64 = (shown as u64 - 1) * page_size as u64;
    ListWindow { limit: page_size + 1, offset: offset as u32 }
}

/// The links around a page: to the one before, if it is not the first, and to the next, if
/// there are rows left.
pub open spec fn are_links_around(
    prev_href: Option<String>,
    next_href: Option<String>,
    start: Seq<char>,
    page: u32,
    field: Seq<char>,
    name: Option<String>,
    has_next_page: bool,
) -> bool {
    &&& prev_href is Some <==> page > 1
    &&& prev_href matches Some(href) ==> href@ == list_link(start, (page - 1) as u32, field, name)
    &&& next_href is Some <==> has_next_page
    &&& next_href matches Some(href) ==> href@ == list_link(start, (page + 1) as u32, field, name)
}

/// Writes the links around a page.
pub fn links_around(
    start: &str,
    page: u32,
    field: &str,
    name: &Option<String>,
    has_next_page: bool,
) -> (links: (Option<String>, Option<String>))
    requires
        1 <= page < u32::MAX,
    ensures
        are_links_around(links.0, links.1, start@, page, field@, *name, has_next_page),
{
    let prev_href = if page > 1 {
        Some(list_href(start, page - 1, field, name))
    } else {
        None
    };
    let next_href = if has_next_page {
        Some(list_href(start, page + 1, field, name))
    } else {
        None
    };
    (prev_href, next_href)
}

/// The pages of a list follow each other without a gap and without a row shown twice.
pub proof fn pages_follow_each_other(page: u32, page_size: u32)
    requires
        1 <= page < u32::MAX,
    ensures
        (shown_page(Some((page + 1) as u32)) - 1) * page_size == (shown_page(Some(page)) - 1)
            * page_size + page_size,
{
    assert(page * page_size == (page - 1) * page_size + page_size) by (nonlinear_arith);
}

/// The rows of a list that are read from a place on, so many at most.
pub open spec fn rows_read<T>(all: Seq<T>, offset: int, limit: int) -> Seq<T> {
    let from = if offset > all.len() {
        all.len() as int
    } else {
        offset
    };
    let to = if from + limit > all.len() {
        all.len() as int
    } else {
        from + limit
    };
    all.subrange(from, to)
}

/// Of the rows that are read for a page, the page shows exactly its part of the whole list,
/// and one is left over exactly if the list goes on behind that part.
pub proof fn a_page_shows_its_part<T>(all: Seq<T>, page: Option<u32>, page_size: u32)
    ensures
        ({
            let offset = (shown_page(page) - 1) * page_size;
            let read = rows_read(all, offset, page_size + 1);
            &&& read.take(
                if read.len() > page_size {
                    page_size as int
                } else {
                    read.len() as int
                },
            ) == rows_read(all, offset, page_size as int)
            &&& read.len() > page_size <==> all.len() > shown_page(page) * page_size
        }),
{
    let shown = shown_page(page);
    let offset = (shown - 1) * page_size;
    assert(offset >= 0 && shown * page_size == offset + page_size) by (nonlinear_arith)
        requires
            shown >= 1,
            offset == (shown - 1) * page_size,
    ;
    let read = rows_read(all, offset, page_size + 1);
    let part = rows_read(all, offset, page_size as int);
    assert(read.take(
        if read.len() > page_size {
            page_size as int
        } else {
            read.len() as int
        },
    ) =~= part);
}

/// The page that is asked for is shown, from the first on; nothing, and a page before the
/// first, show the first.
pub proof fn the_page_asked_for_is_shown(asked: u32)
    ensures
        asked >= 1 ==> shown_page(Some(asked)) == asked,
        shown_page(Some(0)) == 1,
        shown_page(None) == 1,
{
}

/// A name is searched for exactly where one is given, and it is that name.
pub proof fn an_empty_name_is_no_search(name: Option<String>)
    ensures
        searched(name) is Some <==> name is Some && name->0@.len() > 0,
        searched(name) is Some ==> searched(name) == name,
{
}

/// A search only ever adds to a link, and leads to the same page.
pub proof fn a_search_only_adds_to_a_link(start: Seq<char>, page: u32, field: Seq<char>, name: String)
    ensures
        list_link(start, page, field, Some(name)) == list_link(start, page, field, None) + "&"@
            + field + "="@ + name@,
        list_link(start, page, field, None) == start + "?page="@ + decimal(page as nat),
{
}

/// The links around a page lead to its neighbours in the same list: back by one from every
/// page but the first, on by one exactly while there is more, and with the same search.
pub proof fn links_lead_to_the_neighbours(
    start: &str,
    page: u32,
    field: &str,
    name: Option<String>,
    has_next_page: bool,
    links: (Option<String>, Option<String>),
    before: u32,
    after: u32,
)
    requires
        1 <= page < u32::MAX,
        before + 1 == page,
        after == page + 1,
        call_ensures(links_around, (start, page, field, &name, has_next_page), links),
    ensures
        links.0 is Some <==> page != 1,
        links.0 is Some ==> links.0->0@ == list_link(start@, before, field@, name),
        links.1 is Some <==> has_next_page,
        links.1 is Some ==> links.1->0@ == list_link(start@, after, field@, name),
{
}

/// The rows of a page are read from behind those of the pages before it, with one more than
/// the page holds.
pub proof fn a_window_starts_behind_the_pages_before(
    page: u32,
    page_size: u32,
    window: ListWindow,
)
    requires
        page >= 1,
        is_countable(Some(page), page_size),
        call_ensures(list_window, (Some(page), page_size), window),
    ensures
        window.offset + page_size == page * page_size,
        window.limit == page_size + 1,
{
    assert((page - 1) * page_size + page_size == page * page_size) by (nonlinear_arith);
}

} // verus!
