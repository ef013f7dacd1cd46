//! The addresses the forum routes fetch and the texts they answer.
use vstd::prelude::*;

use crate::text::{decimal, push_decimal};

verus! {

/// The archive index, listing the categories.
pub const ARCHIVER_INDEX_URL: &'static str = "http://bhc339.top/archiver/";

/// The site root that post pages are relative to.
pub const SITE_URL: &'static str = "http://bhc339.top/";

/// The login page.
pub const LOGIN_URL: &'static str = "http://bhc339.top/member.php?mod=logging&action=login";

/// The archive page a post list starts at when no page is asked for.
pub const DEFAULT_PAGE: u64 = 1;

/// The archive path of category `category`: `fid-<category>.html`.
pub fn category_path(category: u64) -> (r: String)
    ensures
        r@ == "fid-"@ + decimal(category as nat) + ".html"@,
{
    let mut r = "fid-".to_owned();
    push_decimal(&mut r, category);
    r.append(".html");
    r
}

/// The path of post `post`: `thread-<post>-1-1.html`.
pub fn thread_path(post: u64) -> (r: String)
    ensures
        r@ == "thread-"@ + decimal(post as nat) + "-1-1.html"@,
{
    let mut r = "thread-".to_owned();
    push_decimal(&mut r, post);
    r.append("-1-1.html");
    r
}

/// The address of archive path `cat_path`.
pub fn archive_url(cat_path: &str) -> (r: String)
    ensures
        r@ == ARCHIVER_INDEX_URL@ + cat_path@,
{
    let mut r = ARCHIVER_INDEX_URL.to_owned();
    r.append(cat_path);
    r
}

/// The address of page `page` of archive path `cat_path`.
pub fn archive_page_url(cat_path: &str, page: u64) -> (r: String)
    ensures
        r@ == ARCHIVER_INDEX_URL@ + cat_path@ + "?page="@ + decimal(page as nat),
{
    let mut r = ARCHIVER_INDEX_URL.to_owned();
    r.append(cat_path);
    r.append("?page=");
    push_decimal(&mut r, page);
    assert(r@ =~= ARCHIVER_INDEX_URL@ + cat_path@ + "?page="@ + decimal(page as nat));
    r
}

/// The address of the post at `post_path`.
pub fn thread_url(post_path: &str) -> (r: String)
    ensures
        r@ == SITE_URL@ + post_path@,
{
    let mut r = SITE_URL.to_owned();
    r.append(post_path);
    r
}

/// The answer of the last-page route: the page number in decimal.
pub fn last_page_answer(page: u64) -> (r: String)
    ensures
        r@ == decimal(page as nat),
{
    let mut r = String::new();
    push_decimal(&mut r, page);
    assert(r@ =~= decimal(page as nat));
    r
}

} // verus!
