//! The paginated post list of a category.
use vstd::prelude::*;

use crate::html::{
    css_selector_ok, descendant_matches, document_matches, first_of, last, last_of,
    selection_attr, selection_text, selector_is_valid, Page,
};
use crate::pattern::{first_capture, regex_capture};
use crate::text::{parse_u32, parsed_unsigned};

verus! {

/// The blocks of the list page, one per post.
pub const POST_BLOCKS: &'static str = "#videos > div";

/// The links inside a post block.
pub const POST_LINKS: &'static str = ".visited";

/// The image inside the first link of a post block.
pub const POST_IMAGE: &'static str = "img";

/// The link of the current page in the pagination bar.
pub const CURRENT_PAGE: &'static str = "nav#w0 > ul.pagination > li.active > a";

/// The link of the last page in the pagination bar.
pub const LAST_PAGE: &'static str = "nav#w0 > ul.pagination > li:nth-last-child(2) > a";

/// The pattern whose first group, in a post link, is the post id.
pub const POST_ID_PATTERN: &'static str = "/v/([0-9a-zA-Z]+)";

/// A post as the list page shows it.
#[derive(Debug)]
pub struct PostRawItem {
    pub id: String,
    pub title: String,
    pub cover: String,
    pub href: String,
}

pub struct PostRawItemView {
    pub id: Seq<char>,
    pub title: Seq<char>,
    pub cover: Seq<char>,
    pub href: Seq<char>,
}

impl View for PostRawItem {
    type V = PostRawItemView;

    open spec fn view(&self) -> PostRawItemView {
        PostRawItemView { id: self.id@, title: self.title@, cover: self.cover@, href: self.href@ }
    }
}

/// One page of a category's post list.
#[derive(Debug)]
pub struct PostRawList {
    pub items: Vec<PostRawItem>,
    pub current: u32,
    pub last: u32,
}

pub struct PostRawListView {
    pub items: Seq<PostRawItemView>,
    pub current: u32,
    pub last: u32,
}

impl View for PostRawList {
    type V = PostRawListView;

    open spec fn view(&self) -> PostRawListView {
        PostRawListView { items: post_views(self.items@), current: self.current, last: self.last }
    }
}

pub open spec fn post_views(v: Seq<PostRawItem>) -> Seq<PostRawItemView> {
    v.map_values(|p: PostRawItem| p@)
}

/// A page number as the pagination bar shows it: the text read as a `u32`,
/// and 1 where it is not one.
pub open spec fn page_number_of(text: Seq<char>) -> u32 {
    match parsed_unsigned(text, u32::MAX as nat) {
        Some(v) => v as u32,
        None => 1,
    }
}

/// The post that a link with address `href`, cover `cover` and title `title`
/// stands for, given the id found in its address.
pub open spec fn post_of_capture(
    id: Option<Seq<char>>,
    href: Seq<char>,
    cover: Seq<char>,
    title: Seq<char>,
) -> Option<PostRawItemView> {
    match id {
        Some(i) => Some(PostRawItemView { id: i, title, cover, href }),
        None => None,
    }
}

/// The post of a link: none where the title is empty or the address holds no
/// post id.
pub open spec fn post_of_link(href: Seq<char>, cover: Seq<char>, title: Seq<char>) -> Option<
    PostRawItemView,
> {
    if title.len() == 0 {
        None
    } else {
        post_of_capture(regex_capture(POST_ID_PATTERN@, href, 1), href, cover, title)
    }
}

/// The post of block `block`: the first link gives the address and, through
/// its image, the cover; the last link gives the title.
pub open spec fn post_of_block(source: Seq<char>, removed: Seq<usize>, block: usize) -> Option<
    PostRawItemView,
> {
    let links = descendant_matches(source, removed, block, POST_LINKS@);
    let head = first_of(links);
    match selection_attr(source, removed, head, "href"@) {
        None => None,
        Some(href) => {
            let images = descendant_matches(source, removed, links[0], POST_IMAGE@);
            match selection_attr(source, removed, images, "data-src"@) {
                None => None,
                Some(cover) => post_of_link(
                    href,
                    cover,
                    selection_text(source, removed, last_of(links)),
                ),
            }
        },
    }
}

/// The posts of the blocks `blocks`, in order, skipping those that yield none.
pub open spec fn posts_of_blocks(source: Seq<char>, removed: Seq<usize>, blocks: Seq<usize>) -> Seq<
    PostRawItemView,
>
    decreases blocks.len(),
{
    if blocks.len() == 0 {
        Seq::empty()
    } else {
        let rest = posts_of_blocks(source, removed, blocks.drop_last());
        match post_of_block(source, removed, blocks.last()) {
            Some(p) => rest.push(p),
            None => rest,
        }
    }
}

/// The post list that the list page `html` shows; none where the page has no
/// post blocks.
pub open spec fn post_list_of(html: Seq<char>) -> Option<PostRawListView> {
    let none = Seq::<usize>::empty();
    let blocks = document_matches(html, none, POST_BLOCKS@);
    if blocks.len() > 0 {
        Some(
            PostRawListView {
                items: posts_of_blocks(html, none, blocks),
                current: page_number_of(
                    selection_text(html, none, document_matches(html, none, CURRENT_PAGE@)),
                ),
                last: page_number_of(
                    selection_text(html, none, document_matches(html, none, LAST_PAGE@)),
                ),
            },
        )
    } else {
        None
    }
}

/// `items` are read from the post blocks `blocks`: each item is the post of
/// one of the blocks, there are no more items than blocks, and where every
/// block holds a post there is one item per block, in block order.
pub open spec fn read_from_blocks(
    source: Seq<char>,
    removed: Seq<usize>,
    blocks: Seq<usize>,
    items: Seq<PostRawItemView>,
) -> bool {
    &&& items.len() <= blocks.len()
    &&& forall|j: int|
        0 <= j < items.len() ==> exists|i: int|
            0 <= i < blocks.len() && #[trigger] post_of_block(source, removed, blocks[i]) == Some(
                #[trigger] items[j],
            )
    &&& (forall|i: int|
        0 <= i < blocks.len() ==> #[trigger] post_of_block(source, removed, blocks[i]) is Some)
        ==> items.len() == blocks.len() && forall|i: int|
        0 <= i < blocks.len() ==> post_of_block(source, removed, blocks[i]) == Some(
            #[trigger] items[i],
        )
}

proof fn lemma_posts_of_blocks_read(source: Seq<char>, removed: Seq<usize>, blocks: Seq<usize>)
    ensures
        read_from_blocks(source, removed, blocks, posts_of_blocks(source, removed, blocks)),
    decreases blocks.len(),
{
    if blocks.len() > 0 {
        let init = blocks.drop_last();
        let rest = posts_of_blocks(source, removed, init);
        let items = posts_of_blocks(source, removed, blocks);
        lemma_posts_of_blocks_read(source, removed, init);
        assert forall|j: int| 0 <= j < items.len() implies exists|i: int|
            0 <= i < blocks.len() && #[trigger] post_of_block(source, removed, blocks[i]) == Some(
                #[trigger] items[j],
            ) by {
            if j < rest.len() {
                assert(items[j] == rest[j]);
                let i = choose|i: int|
                    0 <= i < init.len() && #[trigger] post_of_block(source, removed, init[i])
                        == Some(rest[j]);
                assert(init[i] == blocks[i]);
            } else {
                assert(post_of_block(source, removed, blocks[blocks.len() - 1]) == Some(items[j]));
            }
        }
        if forall|i: int|
            0 <= i < blocks.len() ==> #[trigger] post_of_block(source, removed, blocks[i]) is Some {
            assert forall|i: int| 0 <= i < init.len() implies #[trigger] post_of_block(
                source,
                removed,
                init[i],
            ) is Some by {
                assert(init[i] == blocks[i]);
            }
            assert(post_of_block(source, removed, blocks[blocks.len() - 1]) is Some);
            assert forall|i: int| 0 <= i < blocks.len() implies post_of_block(
                source,
                removed,
                blocks[i],
            ) == Some(#[trigger] items[i]) by {
                if i < init.len() {
                    assert(init[i] == blocks[i]);
                    assert(items[i] == rest[i]);
                }
            }
        }
    }
}

/// Every post block of a list page is read: a page has a post list exactly
/// when it has post blocks, and its items are read from all of its blocks,
/// the last one included (see `read_from_blocks`).
pub proof fn lemma_post_list_reads_every_block(html: Seq<char>)
    ensures
        post_list_of(html) is Some <==> document_matches(html, Seq::empty(), POST_BLOCKS@).len()
            > 0,
        post_list_of(html) is Some ==> read_from_blocks(
            html,
            Seq::empty(),
            document_matches(html, Seq::empty(), POST_BLOCKS@),
            post_list_of(html)->0.items,
        ),
{
    lemma_posts_of_blocks_read(
        html,
        Seq::empty(),
        document_matches(html, Seq::empty(), POST_BLOCKS@),
    );
}

/// All selectors of the list page are accepted by `nipper`.
pub open spec fn list_selectors_ok() -> bool {
    &&& css_selector_ok(POST_BLOCKS@)
    &&& css_selector_ok(POST_LINKS@)
    &&& css_selector_ok(POST_IMAGE@)
    &&& css_selector_ok(CURRENT_PAGE@)
    &&& css_selector_ok(LAST_PAGE@)
}

/// A page number read from the pagination bar; 1 where the text is not a `u32`.
pub fn page_number(text: &str) -> (n: u32)
    ensures
        n == page_number_of(text@),
{
    match parse_u32(text) {
        Some(v) => v,
        None => 1,
    }
}

/// The post of a link, given what the post-id pattern captured in its address.
pub fn post_from_capture(id: Option<String>, href: String, cover: String, title: String) -> (r:
    Option<PostRawItem>)
    ensures
        match r {
            Some(p) => post_of_capture(
                match id {
                    Some(i) => Some(i@),
                    None => None,
                },
                href@,
                cover@,
                title@,
            ) == Some(p@),
            None => post_of_capture(
                match id {
                    Some(i) => Some(i@),
                    None => None,
                },
                href@,
                cover@,
                title@,
            ) is None,
        },
{
    match id {
        Some(i) => Some(PostRawItem { id: i, title, cover, href }),
        None => None,
    }
}

/// The post of a link with address `href`, cover `cover` and title `title`.
pub fn post_from_link(href: String, cover: String, title: String) -> (r: Option<PostRawItem>)
    ensures
        match r {
            Some(p) => post_of_link(href@, cover@, title@) == Some(p@),
            None => post_of_link(href@, cover@, title@) is None,
        },
{
    if title.as_str().is_empty() {
        return None;
    }
    let id = first_capture(POST_ID_PATTERN, href.as_str(), 1);
    post_from_capture(id, href, cover, title)
}

/// The post of block `block` of `page`.
fn post_from_block(page: &Page, block: usize) -> (r: Option<PostRawItem>)
    requires
        block < page.element_count(),
        list_selectors_ok(),
    ensures
        match r {
            Some(p) => post_of_block(page.source(), page.removed(), block) == Some(p@),
            None => post_of_block(page.source(), page.removed(), block) is None,
        },
{
    proof {
        reveal_strlit("href");
        reveal_strlit("data-src");
    }
    let links = page.select_under(block, POST_LINKS);
    let head = crate::html::first(&links);
    match page.attr_of(&head, "href") {
        None => None,
        Some(href) => {
            let images = page.select_under(links[0], POST_IMAGE);
            match page.attr_of(&images, "data-src") {
                None => None,
                Some(cover) => {
                    let tail = last(&links);
                    let title = page.text_of(&tail);
                    post_from_link(href, cover, title)
                },
            }
        },
    }
}

/// The post list shown on the list page `html`: `Some(None)` where the page has
/// no post blocks, `None` where `nipper` would reject one of the selectors
/// (where the scraper panics).
pub fn post_list(html: &str) -> (r: Option<Option<PostRawList>>)
    ensures
        r is Some <==> list_selectors_ok(),
        r matches Some(l) ==> match l {
            Some(list) => post_list_of(html@) == Some(list@),
            None => post_list_of(html@) is None,
        },
{
    if !selector_is_valid(POST_BLOCKS) || !selector_is_valid(POST_LINKS) || !selector_is_valid(
        POST_IMAGE,
    ) || !selector_is_valid(CURRENT_PAGE) || !selector_is_valid(LAST_PAGE) {
        return None;
    }
    let page = Page::parse(html);
    let blocks = page.select(POST_BLOCKS);
    if blocks.len() == 0 {
        return Some(None);
    }
    let mut items: Vec<PostRawItem> = Vec::new();
    let mut i: usize = 0;
    assert(blocks@.take(0) =~= Seq::<usize>::empty());
    assert(post_views(items@) =~= Seq::<PostRawItemView>::empty());
    while i < blocks.len()
        invariant
            i <= blocks.len(),
            page.source() == html@,
            page.removed() == Seq::<usize>::empty(),
            page.valid(blocks@),
            list_selectors_ok(),
            post_views(items@) == posts_of_blocks(html@, Seq::empty(), blocks@.take(i as int)),
        decreases blocks.len() - i,
    {
        assert(blocks@.take(i + 1).drop_last() =~= blocks@.take(i as int));
        assert(blocks@.take(i + 1).last() == blocks@[i as int]);
        match post_from_block(&page, blocks[i]) {
            Some(p) => {
                let ghost before = post_views(items@);
                items.push(p);
                assert(post_views(items@) =~= before.push(p@));
            },
            None => {},
        }
        i = i + 1;
    }
    assert(blocks@.take(blocks.len() as int) =~= blocks@);
    let current_links = page.select(CURRENT_PAGE);
    let current = page_number(page.text_of(&current_links).as_str());
    let last_links = page.select(LAST_PAGE);
    let last = page_number(page.text_of(&last_links).as_str());
    let list = PostRawList { items, current, last };
    assert(list@.items == post_views(items@));
    Some(Some(list))
}

} // verus!
