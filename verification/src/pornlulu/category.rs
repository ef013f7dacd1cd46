//! The category list page.
use vstd::prelude::*;

use crate::html::{
    css_selector_ok, descendant_matches, document_matches, selection_attr, selection_text,
    selector_is_valid, Page,
};
use crate::pattern::{first_capture, regex_capture};
use crate::text::{parse_u32, parsed_unsigned};

verus! {

/// The blocks of the category page, one per category.
pub const CATEGORY_BLOCKS: &'static str = ".content-wrapper > .content > .container-fluid > .row > div";

/// The link inside a category block.
pub const CATEGORY_LINK: &'static str = "a";

/// The pattern whose first match in a category link is the category id.
pub const CATEGORY_ID_PATTERN: &'static str = "\\d+";

/// A category as the category page lists it.
#[derive(Debug)]
pub struct CategoryRawItem {
    pub category_id: u32,
    pub name: String,
    pub href: String,
}

/// A category, its texts as character sequences.
pub struct CategoryRawItemView {
    pub category_id: u32,
    pub name: Seq<char>,
    pub href: Seq<char>,
}

impl View for CategoryRawItem {
    type V = CategoryRawItemView;

    open spec fn view(&self) -> CategoryRawItemView {
        CategoryRawItemView { category_id: self.category_id, name: self.name@, href: self.href@ }
    }
}

/// The views of a list of categories.
pub open spec fn category_views(v: Seq<CategoryRawItem>) -> Seq<CategoryRawItemView> {
    v.map_values(|c: CategoryRawItem| c@)
}

/// The id that the digits found in a link give: their value where it is a
/// `u32`, and 0 where it is not or where no digits were found.
pub open spec fn category_id_of(digits: Option<Seq<char>>) -> u32 {
    match digits {
        Some(d) => match parsed_unsigned(d, u32::MAX as nat) {
            Some(v) => v as u32,
            None => 0,
        },
        None => 0,
    }
}

/// The category that a link with address `href` and text `name` stands for.
pub open spec fn category_of_link(href: Seq<char>, name: Seq<char>) -> CategoryRawItemView {
    CategoryRawItemView {
        category_id: category_id_of(regex_capture(CATEGORY_ID_PATTERN@, href, 0)),
        name,
        href,
    }
}

/// A block yields a category when its links exist, the first has an address
/// and their text is not empty.
pub open spec fn link_kept(exists: bool, href: Option<Seq<char>>, text: Seq<char>) -> bool {
    exists && href is Some && text.len() > 0
}

/// The category of block `block` of the page, if it yields one.
pub open spec fn category_of_block(source: Seq<char>, removed: Seq<usize>, block: usize) -> Option<
    CategoryRawItemView,
> {
    let links = descendant_matches(source, removed, block, CATEGORY_LINK@);
    let href = selection_attr(source, removed, links, "href"@);
    let text = selection_text(source, removed, links);
    if link_kept(links.len() > 0, href, text) {
        Some(category_of_link(href->0, text))
    } else {
        None
    }
}

/// The categories of the blocks `blocks`, in order, skipping those that
/// yield none.
pub open spec fn categories_of_blocks(
    source: Seq<char>,
    removed: Seq<usize>,
    blocks: Seq<usize>,
) -> Seq<CategoryRawItemView>
    decreases blocks.len(),
{
    if blocks.len() == 0 {
        Seq::empty()
    } else {
        let rest = categories_of_blocks(source, removed, blocks.drop_last());
        match category_of_block(source, removed, blocks.last()) {
            Some(c) => rest.push(c),
            None => rest,
        }
    }
}

/// The categories that the category page `html` lists.
pub open spec fn category_list_of(html: Seq<char>) -> Seq<CategoryRawItemView> {
    let blocks = document_matches(html, Seq::empty(), CATEGORY_BLOCKS@);
    if blocks.len() > 0 {
        categories_of_blocks(html, Seq::empty(), blocks)
    } else {
        Seq::empty()
    }
}

/// `items` are read from the category blocks `blocks`: each item is the
/// category of one of the blocks, there are no more items than blocks, and
/// where every block yields a category there is one item per block, in block
/// order.
pub open spec fn read_from_blocks(
    source: Seq<char>,
    removed: Seq<usize>,
    blocks: Seq<usize>,
    items: Seq<CategoryRawItemView>,
) -> bool {
    &&& items.len() <= blocks.len()
    &&& forall|j: int|
        0 <= j < items.len() ==> exists|i: int|
            0 <= i < blocks.len() && #[trigger] category_of_block(source, removed, blocks[i])
                == Some(#[trigger] items[j])
    &&& (forall|i: int|
        0 <= i < blocks.len() ==> #[trigger] category_of_block(source, removed, blocks[i]) is Some)
        ==> items.len() == blocks.len() && forall|i: int|
        0 <= i < blocks.len() ==> category_of_block(source, removed, blocks[i]) == Some(
            #[trigger] items[i],
        )
}

proof fn lemma_categories_of_blocks_read(
    source: Seq<char>,
    removed: Seq<usize>,
    blocks: Seq<usize>,
)
    ensures
        read_from_blocks(source, removed, blocks, categories_of_blocks(source, removed, blocks)),
    decreases blocks.len(),
{
    if blocks.len() > 0 {
        let init = blocks.drop_last();
        let rest = categories_of_blocks(source, removed, init);
        let items = categories_of_blocks(source, removed, blocks);
        lemma_categories_of_blocks_read(source, removed, init);
        assert forall|j: int| 0 <= j < items.len() implies exists|i: int|
            0 <= i < blocks.len() && #[trigger] category_of_block(source, removed, blocks[i])
                == Some(#[trigger] items[j]) by {
            if j < rest.len() {
                assert(items[j] == rest[j]);
                let i = choose|i: int|
                    0 <= i < init.len() && #[trigger] category_of_block(source, removed, init[i])
                        == Some(rest[j]);
                assert(init[i] == blocks[i]);
            } else {
                assert(category_of_block(source, removed, blocks[blocks.len() - 1]) == Some(
                    items[j],
                ));
            }
        }
        if forall|i: int|
            0 <= i < blocks.len() ==> #[trigger] category_of_block(source, removed, blocks[i]) is Some {
            assert forall|i: int| 0 <= i < init.len() implies #[trigger] category_of_block(
                source,
                removed,
                init[i],
            ) is Some by {
                assert(init[i] == blocks[i]);
            }
            assert(category_of_block(source, removed, blocks[blocks.len() - 1]) is Some);
            assert forall|i: int| 0 <= i < blocks.len() implies category_of_block(
                source,
                removed,
                blocks[i],
            ) == Some(#[trigger] items[i]) by {
                if i < init.len() {
                    assert(init[i] == blocks[i]);
                    assert(items[i] == rest[i]);
                }
            }
        }
    }
}

/// Every block of the category page is read: the categories are read from
/// all blocks of the page, with no limit on their number (see
/// `read_from_blocks`).
pub proof fn lemma_category_list_reads_every_block(html: Seq<char>)
    ensures
        read_from_blocks(
            html,
            Seq::empty(),
            document_matches(html, Seq::empty(), CATEGORY_BLOCKS@),
            category_list_of(html),
        ),
{
    lemma_categories_of_blocks_read(
        html,
        Seq::empty(),
        document_matches(html, Seq::empty(), CATEGORY_BLOCKS@),
    );
}

/// The category id from the digits found in a link.
pub fn category_id_from_digits(digits: Option<String>) -> (id: u32)
    ensures
        id == category_id_of(
            match digits {
                Some(d) => Some(d@),
                None => None,
            },
        ),
{
    match digits {
        Some(d) => match parse_u32(d.as_str()) {
            Some(v) => v,
            None => 0,
        },
        None => 0,
    }
}

/// The category that a link stands for; its id is the first run of digits in
/// its address.
pub fn category_from_link(href: String, name: String) -> (c: CategoryRawItem)
    ensures
        c@ == category_of_link(href@, name@),
{
    let digits = first_capture(CATEGORY_ID_PATTERN, href.as_str(), 0);
    let category_id = category_id_from_digits(digits);
    CategoryRawItem { category_id, name, href }
}

/// Whether a block whose links exist or not, whose first link has address
/// `href` and whose links have text `text`, yields a category.
pub fn keep_link(exists: bool, href: &Option<String>, text: &String) -> (b: bool)
    ensures
        b == link_kept(
            exists,
            match href {
                Some(h) => Some(h@),
                None => None,
            },
            text@,
        ),
{
    exists && href.is_some() && !text.as_str().is_empty()
}

/// The categories listed on the category page `html`; `None` where `nipper`
/// would reject one of the selectors (where the scraper panics).
pub fn category_list(html: &str) -> (r: Option<Vec<CategoryRawItem>>)
    ensures
        r is Some <==> css_selector_ok(CATEGORY_BLOCKS@) && css_selector_ok(CATEGORY_LINK@),
        r matches Some(v) ==> category_views(v@) == category_list_of(html@),
{
    if !selector_is_valid(CATEGORY_BLOCKS) || !selector_is_valid(CATEGORY_LINK) {
        return None;
    }
    let page = Page::parse(html);
    let blocks = page.select(CATEGORY_BLOCKS);
    let mut items: Vec<CategoryRawItem> = Vec::new();
    if blocks.len() > 0 {
        let mut i: usize = 0;
        assert(blocks@.take(0) =~= Seq::<usize>::empty());
        assert(category_views(items@) =~= Seq::<CategoryRawItemView>::empty());
        while i < blocks.len()
            invariant
                i <= blocks.len(),
                page.source() == html@,
                page.removed() == Seq::<usize>::empty(),
                page.valid(blocks@),
                css_selector_ok(CATEGORY_LINK@),
                category_views(items@) == categories_of_blocks(
                    html@,
                    Seq::empty(),
                    blocks@.take(i as int),
                ),
            decreases blocks.len() - i,
        {
            assert(blocks@.take(i + 1).drop_last() =~= blocks@.take(i as int));
            assert(blocks@.take(i + 1).last() == blocks@[i as int]);
            let links = page.select_under(blocks[i], CATEGORY_LINK);
            let href = page.attr_of(&links, "href");
            let text = page.text_of(&links);
            proof {
                reveal_strlit("href");
            }
            if keep_link(links.len() > 0, &href, &text) {
                let h = href.unwrap();
                let c = category_from_link(h, text);
                let ghost before = category_views(items@);
                items.push(c);
                assert(category_views(items@) =~= before.push(c@));
            }
            i = i + 1;
        }
        assert(blocks@.take(blocks.len() as int) =~= blocks@);
    } else {
        assert(category_views(items@) =~= Seq::<CategoryRawItemView>::empty());
    }
    Some(items)
}

} // verus!
