//! What the `/pornlulu` routes fetch and answer.
use vstd::prelude::*;

use crate::json::{
    escaped, json_string, lemma_plain_escaped, lemma_read_escaped, quote_json, read_one_member_object,
};
use crate::pornlulu::category::CategoryRawItem;
use crate::pornlulu::list::{post_views, PostRawItemView, PostRawList};
use crate::pornlulu::post::PostRaw;
use crate::text::{decimal, push_decimal};

verus! {

/// The page that lists the categories.
pub const CATEGORY_PAGE_URL: &'static str = "https://www.pornlulu.com/zh-hans/category";

/// The start of the address of a category's post list.
pub const CATEGORY_URL_PREFIX: &'static str = "https://www.pornlulu.com/zh-hans/cat/";

/// What separates the category id from the page number.
pub const PAGE_QUERY: &'static str = "?page=";

/// The start of the address of a post.
pub const POST_URL_PREFIX: &'static str = "https://www.pornlulu.com/zh-hans/v/";

/// The address of page `page` of the post list of category `category_id`.
pub fn post_list_url(category_id: u32, page: u32) -> (r: String)
    ensures
        r@ == CATEGORY_URL_PREFIX@ + decimal(category_id as nat) + PAGE_QUERY@ + decimal(
            page as nat,
        ),
{
    let mut r = String::new();
    r.append(CATEGORY_URL_PREFIX);
    push_decimal(&mut r, category_id as u64);
    r.append(PAGE_QUERY);
    push_decimal(&mut r, page as u64);
    assert(r@ =~= CATEGORY_URL_PREFIX@ + decimal(category_id as nat) + PAGE_QUERY@ + decimal(
        page as nat,
    ));
    r
}

/// The address of post `content_id`.
pub fn post_url(content_id: &str) -> (r: String)
    ensures
        r@ == POST_URL_PREFIX@ + content_id@,
{
    let mut r = String::new();
    r.append(POST_URL_PREFIX);
    r.append(content_id);
    assert(r@ =~= POST_URL_PREFIX@ + content_id@);
    r
}

/// A category in the answer of `/category`.
#[derive(Debug)]
pub struct CategoryEntry {
    pub id: u32,
    pub title: String,
}

/// The categories as `/category` answers them: id and name of each, in order.
pub fn category_entries(items: Vec<CategoryRawItem>) -> (r: Vec<CategoryEntry>)
    ensures
        r.len() == items.len(),
        forall|i: int|
            0 <= i < items.len() ==> #[trigger] r@[i].id == items@[i].category_id && r@[i].title@
                == items@[i].name@,
{
    let mut r: Vec<CategoryEntry> = Vec::new();
    let mut i: usize = 0;
    while i < items.len()
        invariant
            i <= items.len(),
            r.len() == i,
            forall|k: int|
                0 <= k < i ==> #[trigger] r@[k].id == items@[k].category_id && r@[k].title@
                    == items@[k].name@,
        decreases items.len() - i,
    {
        r.push(CategoryEntry { id: items[i].category_id, title: items[i].name.clone() });
        i = i + 1;
    }
    r
}

/// A post in the answer of `/category/:category/post`.
#[derive(Debug)]
pub struct PostSummary {
    pub id: String,
    pub title: String,
    pub thumbnail: String,
}

/// The answer of `/category/:category/post`.
#[derive(Debug)]
pub struct PostListPage {
    pub has_more: bool,
    pub data: Vec<PostSummary>,
}

/// A summary shows id, title and cover of a post.
pub open spec fn summarizes(s: PostSummary, p: PostRawItemView) -> bool {
    s.id@ == p.id && s.title@ == p.title && s.thumbnail@ == p.cover
}

/// The answer for a post list: more pages follow unless the current page is
/// the last; no list gives no posts and no more pages.
pub fn post_list_page(list: Option<PostRawList>) -> (r: PostListPage)
    ensures
        match list {
            Some(l) => {
                &&& r.has_more == (l.current != l.last)
                &&& r.data.len() == l.items.len()
                &&& forall|i: int|
                    0 <= i < l.items.len() ==> summarizes(#[trigger] r.data@[i], post_views(l.items@)[i])
            },
            None => !r.has_more && r.data.len() == 0,
        },
{
    match list {
        Some(l) => {
            let mut data: Vec<PostSummary> = Vec::new();
            let mut i: usize = 0;
            while i < l.items.len()
                invariant
                    i <= l.items.len(),
                    data.len() == i,
                    forall|k: int|
                        0 <= k < i ==> summarizes(#[trigger] data@[k], l.items@[k]@),
                decreases l.items.len() - i,
            {
                let item = &l.items[i];
                data.push(
                    PostSummary {
                        id: item.id.clone(),
                        title: item.title.clone(),
                        thumbnail: item.cover.clone(),
                    },
                );
                i = i + 1;
            }
            PostListPage { has_more: l.current != l.last, data }
        },
        None => PostListPage { has_more: false, data: Vec::new() },
    }
}

/// The answer of `/post/:post`.
#[derive(Debug)]
pub struct PostDetails {
    pub title: String,
    pub keywords: String,
    pub description: String,
    pub content: String,
}

/// The JSON text of an object whose one member `source` holds `source`.
pub open spec fn source_object(source: Seq<char>) -> Seq<char> {
    "{\"source\":"@ + json_string(source) + "}"@
}

/// The content of a post's answer reads back as the JSON object whose one
/// member `source` holds the video address.
pub proof fn lemma_source_object_reads_back(source: Seq<char>)
    ensures
        read_one_member_object(source_object(source)) == Some(("source"@, source)),
{
    reveal_strlit("{\"source\":");
    reveal_strlit("}");
    reveal_strlit("source");
    let key = "source"@;
    lemma_plain_escaped(key);
    let value_part = escaped(source) + seq!['"'] + seq!['}'];
    let after_key = seq![':', '"'] + value_part;
    lemma_read_escaped(key, after_key);
    lemma_read_escaped(source, seq!['}']);
    let t = source_object(source);
    assert(t.skip(2) =~= escaped(key) + seq!['"'] + after_key);
    assert(after_key.skip(2) =~= value_part);
}

/// The answer for a post: its title, keywords and description, and as content
/// the JSON text `{"source":...}` of its video address.
pub fn post_details(post: Option<PostRaw>) -> (r: Option<PostDetails>)
    ensures
        match post {
            Some(p) => r matches Some(d) && d.title@ == p.title@ && d.keywords@ == p.keywords@
                && d.description@ == p.description@ && d.content@ == source_object(p.source@)
                && read_one_member_object(d.content@) == Some(("source"@, p.source@)),
            None => r is None,
        },
{
    match post {
        Some(p) => {
            let mut content = String::new();
            content.append("{\"source\":");
            content.append(quote_json(p.source.as_str()).as_str());
            content.append("}");
            assert(content@ =~= source_object(p.source@));
            proof {
                lemma_source_object_reads_back(p.source@);
            }
            Some(
                PostDetails {
                    title: p.title,
                    keywords: p.keywords,
                    description: p.description,
                    content,
                },
            )
        },
        None => None,
    }
}

} // verus!
